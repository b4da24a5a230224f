use minecraft_discord_alerts::config::{
    interval_or_default, poll_interval_secs, DEFAULT_POLL_INTERVAL_SECS, PROBE_TIMEOUT_SECS,
};
use minecraft_discord_alerts::probe::{outcome_of, roster_of, ServerReport};
use minecraft_discord_alerts::roster::PlayerSet;
use minecraft_discord_alerts::tracker::ProbeOutcome;

fn strings(names: &[&str]) -> Vec<String> {
    names.iter().map(|n| n.to_string()).collect()
}

#[test]
fn a_sample_gives_its_players() {
    let report = ServerReport::Java { sample: Some(strings(&["bob", "alice", "bob"])) };
    assert_eq!(roster_of(report).names(), strings(&["alice", "bob"]));
}

#[test]
fn an_empty_sample_gives_nobody() {
    let report = ServerReport::Java { sample: Some(strings(&[])) };
    assert!(roster_of(report).is_empty());
}

#[test]
fn no_sample_gives_nobody() {
    assert!(roster_of(ServerReport::Java { sample: None }).is_empty());
}

#[test]
fn a_bedrock_server_gives_nobody() {
    assert!(roster_of(ServerReport::Bedrock).is_empty());
}

#[test]
fn a_report_is_a_success_even_with_nobody_online() {
    assert_eq!(
        outcome_of(Ok(ServerReport::Java { sample: None })),
        ProbeOutcome::Success(PlayerSet::new())
    );
    assert_eq!(
        outcome_of(Ok(ServerReport::Java { sample: Some(strings(&["carol", "alice"])) })),
        ProbeOutcome::Success(PlayerSet::from_names(strings(&["alice", "carol"])))
    );
}

#[test]
fn an_error_is_a_failure_with_its_reason() {
    assert_eq!(
        outcome_of(Err("Connection failed: timed out".to_string())),
        ProbeOutcome::Failure("Connection failed: timed out".to_string())
    );
}

#[test]
fn the_settings_have_their_defaults() {
    assert_eq!(DEFAULT_POLL_INTERVAL_SECS, 60);
    assert_eq!(PROBE_TIMEOUT_SECS, 30);
    assert!(PROBE_TIMEOUT_SECS < DEFAULT_POLL_INTERVAL_SECS);
}

#[test]
fn a_read_number_is_the_interval() {
    assert_eq!(interval_or_default(Some(15)), 15);
    assert_eq!(interval_or_default(Some(0)), 0);
    assert_eq!(interval_or_default(Some(u64::MAX)), u64::MAX);
    assert_eq!(interval_or_default(None), 60);
}

#[test]
fn a_configured_number_is_the_interval() {
    assert_eq!(poll_interval_secs(Some("15")), 15);
    assert_eq!(poll_interval_secs(Some("0")), 0);
    assert_eq!(poll_interval_secs(Some("007")), 7);
    assert_eq!(poll_interval_secs(Some("18446744073709551615")), u64::MAX);
}

#[test]
fn the_default_stands_in_for_what_is_no_number() {
    assert_eq!(poll_interval_secs(None), 60);
    assert_eq!(poll_interval_secs(Some("")), 60);
    assert_eq!(poll_interval_secs(Some("soon")), 60);
    assert_eq!(poll_interval_secs(Some(" 15")), 60);
    assert_eq!(poll_interval_secs(Some("-1")), 60);
    assert_eq!(poll_interval_secs(Some("1.5")), 60);
    assert_eq!(poll_interval_secs(Some("18446744073709551616")), 60);
}
