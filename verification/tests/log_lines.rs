//! The exact log lines the service emits.

use tele_stats::logs;

#[test]
fn startup_line() {
    assert_eq!(logs::bot_started(), "telestats started. version: 0.1.1");
}

#[test]
fn next_update_line_renders_the_hours() {
    assert_eq!(logs::next_update(6), "next update in 6 hours");
    assert_eq!(logs::next_update(24), "next update in 24 hours");
}

#[test]
fn per_service_lines() {
    assert_eq!(logs::update_started("gitlab"), "starting gitlab service update");
    assert_eq!(logs::update_completed("github"), "github service update completed");
    assert_eq!(
        logs::update_failed("gitlab", "failed to fetch repositories: 401"),
        "gitlab service update failed: failed to fetch repositories: 401"
    );
    assert_eq!(logs::error_with_message("failed to load global config: oops"),
        "failed to load global config: oops");
}
