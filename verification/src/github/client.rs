//! The pure half of the GitHub client: page filtering, request URLs, and
//! content decoding.  Sending the requests is the caller's business.

use vstd::prelude::*;
use vstd::string::StringExecFns;
use super::types::{ContentResponse, Repository};
use crate::encoding::{ContentError, b64_decode_of, base64_decode, strip_newlines, utf8_lossy,
    utf8_lossy_of};
use crate::text::{dec_rep, str_eq, u64_to_string};

verus! {

/// The repositories of one listing page that the run keeps: all of them
/// when private repositories are included, otherwise the non-private ones,
/// in page order.
pub open spec fn kept_repos(page: Seq<Repository>, include_private: bool) -> Seq<Repository>
    decreases page.len(),
{
    if page.len() == 0 {
        Seq::empty()
    } else {
        kept_repos(page.drop_last(), include_private) + (if include_private
            || !page.last().private {
            seq![page.last()]
        } else {
            Seq::empty()
        })
    }
}

/// Filters one page of listed repositories into the accumulator and says
/// whether another page must be fetched — pagination stops at the first
/// empty page.
pub fn filter_repos_page(acc: &mut Vec<Repository>, page: Vec<Repository>, include_private: bool)
    -> (more: bool)
    ensures
        final(acc)@ == old(acc)@ + kept_repos(page@, include_private),
        more == (page@.len() > 0),
{
    let more = page.len() > 0;
    let ghost orig = page@;
    let mut page = page;
    let mut k: usize = 0;
    proof {
        assert(orig.take(0) =~= Seq::<Repository>::empty());
        assert(kept_repos(orig.take(0), include_private) =~= Seq::<Repository>::empty());
        assert(orig.skip(0) =~= orig);
        assert(acc@ =~= acc@ + kept_repos(orig.take(0), include_private));
    }
    while page.len() > 0
        invariant
            page@ == orig.skip(k as int),
            k + page@.len() == orig.len(),
            orig.len() <= usize::MAX,
            acc@ == old(acc)@ + kept_repos(orig.take(k as int), include_private),
        decreases page@.len(),
    {
        let r = page.remove(0);
        proof {
            assert(r == orig[k as int]);
            assert(page@ =~= orig.skip(k as int + 1));
            assert(orig.take(k as int + 1).drop_last() =~= orig.take(k as int));
            assert(orig.take(k as int + 1).last() == orig[k as int]);
        }
        if include_private || !r.private {
            acc.push(r);
        }
        k = k + 1;
    }
    proof {
        assert(orig.take(orig.len() as int) =~= orig);
    }
    more
}

/// The URL of one page of the repository listing.
pub fn repos_page_url(base: &str, page: u64, per_page: u64) -> (r: String)
    ensures
        r@ == base@ + "/user/repos?page="@ + dec_rep(page as nat) + "&per_page="@ + dec_rep(
            per_page as nat,
        ) + "&affiliation=owner"@,
{
    let mut url = base.to_owned();
    url.append("/user/repos?page=");
    let p = u64_to_string(page);
    url.append(p.as_str());
    url.append("&per_page=");
    let pp = u64_to_string(per_page);
    url.append(pp.as_str());
    url.append("&affiliation=owner");
    url
}

/// The URL resolving a repository's whole tree in one recursive request.
pub fn tree_url(base: &str, owner: &str, repo: &str, branch: &str) -> (r: String)
    ensures
        r@ == base@ + "/repos/"@ + owner@ + "/"@ + repo@ + "/git/trees/"@ + branch@
            + "?recursive=1"@,
{
    let mut url = base.to_owned();
    url.append("/repos/");
    url.append(owner);
    url.append("/");
    url.append(repo);
    url.append("/git/trees/");
    url.append(branch);
    url.append("?recursive=1");
    url
}

/// The URL of one file's content at a ref.
pub fn file_url(base: &str, owner: &str, repo: &str, path: &str, branch: &str) -> (r: String)
    ensures
        r@ == base@ + "/repos/"@ + owner@ + "/"@ + repo@ + "/contents/"@ + path@ + "?ref="@
            + branch@,
{
    let mut url = base.to_owned();
    url.append("/repos/");
    url.append(owner);
    url.append("/");
    url.append(repo);
    url.append("/contents/");
    url.append(path);
    url.append("?ref=");
    url.append(branch);
    url
}

/// What decoding a content payload yields: the body must be tagged base64 —
/// the only supported transport encoding — its newlines are stripped, the
/// rest must decode, and the bytes are read as UTF-8, lossily.
pub open spec fn decoded_content(encoding: Seq<char>, content: Seq<char>) -> Result<
    Seq<char>,
    ContentError,
> {
    if encoding != "base64"@ {
        Err(ContentError::UnsupportedEncoding)
    } else {
        match b64_decode_of(content.filter(|c: char| c != '\n')) {
            None => Err(ContentError::InvalidBase64),
            Some(bytes) => Ok(utf8_lossy_of(bytes)),
        }
    }
}

/// Decodes one fetched file's content; a failure here is scoped to this one
/// file, which the walker then skips.
pub fn decode_content(resp: &ContentResponse) -> (r: Result<String, ContentError>)
    ensures
        match r {
            Ok(t) => decoded_content(resp.encoding@, resp.content@) == Ok::<
                Seq<char>,
                ContentError,
            >(t@),
            Err(e) => decoded_content(resp.encoding@, resp.content@) == Err::<
                Seq<char>,
                ContentError,
            >(e),
        },
{
    if !str_eq(resp.encoding.as_str(), "base64") {
        return Err(ContentError::UnsupportedEncoding);
    }
    let stripped = strip_newlines(resp.content.as_str());
    match base64_decode(stripped.as_str()) {
        None => Err(ContentError::InvalidBase64),
        Some(bytes) => Ok(utf8_lossy(&bytes)),
    }
}

} // verus!
