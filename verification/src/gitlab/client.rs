//! The pure half of the GitLab client: page filtering and concatenation,
//! request URLs, and content decoding.  Sending the requests is the
//! caller's business.

use vstd::prelude::*;
use vstd::string::StringExecFns;
use super::types::Repository;
use crate::encoding::{ContentError, b64_decode_of, base64_decode, url_encode, url_encoded,
    utf8_lossy, utf8_lossy_of};
use crate::text::{dec_rep, str_eq, u64_to_string};
use crate::walker::TreeEntry;

verus! {

/// The projects of one listing page that the run keeps: all of them when
/// private projects are included, otherwise the public ones, in page order.
pub open spec fn kept_repos(page: Seq<Repository>, include_private: bool) -> Seq<Repository>
    decreases page.len(),
{
    if page.len() == 0 {
        Seq::empty()
    } else {
        kept_repos(page.drop_last(), include_private) + (if include_private
            || page.last().visibility@ == "public"@ {
            seq![page.last()]
        } else {
            Seq::empty()
        })
    }
}

/// Filters one page of listed projects into the accumulator and says
/// whether another page must be fetched — pagination stops at the first
/// empty page.
pub fn filter_repos_page(acc: &mut Vec<Repository>, page: Vec<Repository>, include_private: bool)
    -> (more: bool)
    ensures
        final(acc)@ == old(acc)@ + kept_repos(page@, include_private),
        more == (page@.len() > 0),
{
    let more = page.len() > 0;
    let ghost orig = page@;
    let mut page = page;
    let mut k: usize = 0;
    proof {
        assert(orig.take(0) =~= Seq::<Repository>::empty());
        assert(kept_repos(orig.take(0), include_private) =~= Seq::<Repository>::empty());
        assert(orig.skip(0) =~= orig);
        assert(acc@ =~= acc@ + kept_repos(orig.take(0), include_private));
    }
    while page.len() > 0
        invariant
            page@ == orig.skip(k as int),
            k + page@.len() == orig.len(),
            orig.len() <= usize::MAX,
            acc@ == old(acc)@ + kept_repos(orig.take(k as int), include_private),
        decreases page@.len(),
    {
        let r = page.remove(0);
        proof {
            assert(r == orig[k as int]);
            assert(page@ =~= orig.skip(k as int + 1));
            assert(orig.take(k as int + 1).drop_last() =~= orig.take(k as int));
            assert(orig.take(k as int + 1).last() == orig[k as int]);
        }
        if include_private || str_eq(r.visibility.as_str(), "public") {
            acc.push(r);
        }
        k = k + 1;
    }
    proof {
        assert(orig.take(orig.len() as int) =~= orig);
    }
    more
}

/// Concatenates one page of tree entries onto the accumulator and says
/// whether another page must be fetched — pagination stops at the first
/// empty page.
pub fn collect_tree_page(acc: &mut Vec<TreeEntry>, page: Vec<TreeEntry>) -> (more: bool)
    ensures
        final(acc)@ == old(acc)@ + page@,
        more == (page@.len() > 0),
{
    let more = page.len() > 0;
    let mut page = page;
    acc.append(&mut page);
    more
}

/// The URL of one page of a user's project listing.
pub fn repos_page_url(base: &str, username: &str, page: u64, per_page: u64) -> (r: String)
    ensures
        r@ == base@ + "/users/"@ + username@ + "/projects?page="@ + dec_rep(page as nat)
            + "&per_page="@ + dec_rep(per_page as nat) + "&simple=true"@,
{
    let mut url = base.to_owned();
    url.append("/users/");
    url.append(username);
    url.append("/projects?page=");
    let p = u64_to_string(page);
    url.append(p.as_str());
    url.append("&per_page=");
    let pp = u64_to_string(per_page);
    url.append(pp.as_str());
    url.append("&simple=true");
    url
}

/// The URL of one page of a project's recursive tree listing.
pub fn tree_page_url(base: &str, project_id: u64, branch: &str, page: u64, per_page: u64) -> (r:
    String)
    ensures
        r@ == base@ + "/projects/"@ + dec_rep(project_id as nat) + "/repository/tree?ref="@
            + branch@ + "&recursive=true&page="@ + dec_rep(page as nat) + "&per_page="@ + dec_rep(
            per_page as nat,
        ),
{
    let mut url = base.to_owned();
    url.append("/projects/");
    let id = u64_to_string(project_id);
    url.append(id.as_str());
    url.append("/repository/tree?ref=");
    url.append(branch);
    url.append("&recursive=true&page=");
    let p = u64_to_string(page);
    url.append(p.as_str());
    url.append("&per_page=");
    let pp = u64_to_string(per_page);
    url.append(pp.as_str());
    url
}

/// The URL of one file's content at a ref; the path travels
/// percent-encoded.
pub fn file_url(base: &str, project_id: u64, path: &str, branch: &str) -> (r: String)
    ensures
        r@ == base@ + "/projects/"@ + dec_rep(project_id as nat) + "/repository/files/"@
            + url_encoded(path@) + "?ref="@ + branch@,
{
    let mut url = base.to_owned();
    url.append("/projects/");
    let id = u64_to_string(project_id);
    url.append(id.as_str());
    url.append("/repository/files/");
    let encoded = url_encode(path);
    url.append(encoded.as_str());
    url.append("?ref=");
    url.append(branch);
    url
}

/// What decoding a file payload yields: the response must carry a content
/// field, which must decode as base64; the bytes are read as UTF-8,
/// lossily.
pub open spec fn decoded_payload(content: Option<Seq<char>>) -> Result<Seq<char>, ContentError> {
    match content {
        None => Err(ContentError::MissingContent),
        Some(c) => match b64_decode_of(c) {
            None => Err(ContentError::InvalidBase64),
            Some(bytes) => Ok(utf8_lossy_of(bytes)),
        },
    }
}

/// The content field of a file response, seen as a character sequence.
pub open spec fn payload_view(content: Option<String>) -> Option<Seq<char>> {
    match content {
        Some(s) => Some(s@),
        None => None,
    }
}

/// Decodes one fetched file's payload; a failure here is scoped to this one
/// file, which the walker then skips.
pub fn decode_content(content: &Option<String>) -> (r: Result<String, ContentError>)
    ensures
        match r {
            Ok(t) => decoded_payload(payload_view(*content)) == Ok::<Seq<char>, ContentError>(t@),
            Err(e) => decoded_payload(payload_view(*content)) == Err::<Seq<char>, ContentError>(e),
        },
{
    match content {
        None => Err(ContentError::MissingContent),
        Some(body) => match base64_decode(body.as_str()) {
            None => Err(ContentError::InvalidBase64),
            Some(bytes) => Ok(utf8_lossy(&bytes)),
        },
    }
}

} // verus!
