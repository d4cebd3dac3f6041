use cc_matrix_channel::calendar::{humanize_timestamp, parse_timestamp};
use cc_matrix_channel::config::{credentials_present, default_store_path, localpart, Config};
use cc_matrix_channel::login::{
    plan_login, plan_login_with, restorable, session_file_path, LoginError, LoginPlan,
    SavedSession,
};
use cc_matrix_channel::numbers::{parse_unsigned, to_decimal};
use cc_matrix_channel::paths::{channel_dir, join_path};
use cc_matrix_channel::supervisor::{
    stalled_for, SyncAction, SyncEvent, SyncOutcome, SyncPhase, SyncStep, SyncSupervisor,
};
use cc_matrix_channel::text::{
    contains_text, first_word, is_white_space, lines, lower_letters, trim, truncated,
};

fn settings() -> Config {
    Config {
        homeserver_url: Some("https://s".to_string()),
        user_id: Some("@bot:s.org".to_string()),
        password: None,
        access_token: None,
        device_id: None,
        store_path: default_store_path(),
        store_passphrase: None,
    }
}

#[test]
fn credentials_are_recognised_in_a_file() {
    let full = "MATRIX_HOMESERVER_URL=https://s\nMATRIX_USER_ID=@b:s\nMATRIX_PASSWORD=p\n";
    assert!(credentials_present(Some(full)));
    let token = "MATRIX_ACCESS_TOKEN=t\r\nMATRIX_USER_ID=@b:s\r\nMATRIX_HOMESERVER_URL=h";
    assert!(credentials_present(Some(token)));
    let empty = "MATRIX_HOMESERVER_URL=\nMATRIX_USER_ID=@b:s\nMATRIX_PASSWORD=p\n";
    assert!(!credentials_present(Some(empty)));
    let indented = " MATRIX_HOMESERVER_URL=h\nMATRIX_USER_ID=@b:s\nMATRIX_PASSWORD=p\n";
    assert!(!credentials_present(Some(indented)));
    assert!(!credentials_present(Some("")));
    assert!(!credentials_present(None));
}

#[test]
fn credentials_are_recognised_in_settings() {
    let mut config = settings();
    assert!(!config.has_credentials());
    config.password = Some("p".to_string());
    assert!(config.has_credentials());
    config.user_id = None;
    assert!(!config.has_credentials());
    let mut config = settings();
    config.access_token = Some("t".to_string());
    assert!(config.has_credentials());
    config.homeserver_url = Some(String::new());
    assert!(!config.has_credentials());
    assert_eq!(default_store_path(), "./data/matrix_store");
}

#[test]
fn local_parts_are_cut_out() {
    assert_eq!(settings().user_localpart().as_deref(), Some("bot"));
    assert_eq!(localpart("bot"), "bot");
    assert_eq!(localpart("@a:b:c"), "a");
    let mut config = settings();
    config.user_id = None;
    assert_eq!(config.user_localpart(), None);
}

#[test]
fn the_saved_session_comes_before_the_password() {
    let mut config = settings();
    config.password = Some("p".to_string());
    config.access_token = Some("t".to_string());
    assert!(matches!(plan_login(&config, true), Ok(LoginPlan::Restore)));
    match plan_login(&config, false) {
        Ok(LoginPlan::Password { localpart, password, device_id }) => {
            assert_eq!(localpart, "bot");
            assert_eq!(password, "p");
            assert_eq!(device_id, None);
        }
        other => panic!("got {other:?}"),
    }
    config.password = None;
    match plan_login(&config, false) {
        Ok(LoginPlan::Token { user_id, device_id, access_token }) => {
            assert_eq!(user_id, "@bot:s.org");
            assert_eq!(device_id, "cc_matrix_channel");
            assert_eq!(access_token, "t");
        }
        other => panic!("got {other:?}"),
    }
    config.device_id = Some("D".to_string());
    assert!(
        matches!(plan_login(&config, false), Ok(LoginPlan::Token { device_id, .. }) if device_id == "D")
    );
}

#[test]
fn login_errors_come_in_order() {
    let mut config = settings();
    assert_eq!(plan_login(&config, false).unwrap_err(), LoginError::NoAuthentication);
    config.user_id = Some("bot".to_string());
    assert_eq!(plan_login(&config, true).unwrap_err(), LoginError::InvalidUserId);
    config.user_id = None;
    assert_eq!(plan_login(&config, true).unwrap_err(), LoginError::NoUserId);
    config.homeserver_url = None;
    assert_eq!(plan_login(&config, true).unwrap_err(), LoginError::NoHomeserver);
    assert_eq!(
        plan_login_with(&settings(), false, true).unwrap_err(),
        LoginError::InvalidUserId
    );
    assert_eq!(LoginError::NoHomeserver.message(""), "MATRIX_HOMESERVER_URL is required");
    assert_eq!(LoginError::NoUserId.message(""), "MATRIX_USER_ID is required");
    assert_eq!(LoginError::InvalidUserId.message("bot"), "Invalid MATRIX_USER_ID: bot");
    assert_eq!(
        LoginError::NoAuthentication.message(""),
        "No authentication configured. Set MATRIX_PASSWORD for first-run E2EE setup, or MATRIX_ACCESS_TOKEN for token-based auth (limited E2EE)."
    );
}

#[test]
fn saved_sessions_need_a_user_id() {
    let mut session = SavedSession {
        user_id: "@bot:s.org".to_string(),
        device_id: "D".to_string(),
        access_token: "t".to_string(),
    };
    assert!(restorable(&session));
    session.user_id = "bot".to_string();
    assert!(!restorable(&session));
    assert_eq!(session_file_path("./data"), "./data/session.json");
}

#[test]
fn a_failing_sync_is_restarted_ever_later() {
    let mut supervisor = SyncSupervisor::new();
    assert_eq!(supervisor.stopped(SyncOutcome::Failed), SyncStep::RestartAfter(5));
    assert_eq!(supervisor.stopped(SyncOutcome::Crashed), SyncStep::RestartAfter(10));
    assert_eq!(supervisor.stopped(SyncOutcome::Stalled(130)), SyncStep::RestartAfter(15));
    for _ in 0..20 {
        supervisor.stopped(SyncOutcome::Failed);
    }
    assert_eq!(supervisor.stopped(SyncOutcome::Failed), SyncStep::RestartAfter(60));
    assert_eq!(supervisor.failures, 24);
    assert_eq!(supervisor.stopped(SyncOutcome::Cancelled), SyncStep::Stop);
    assert_eq!(supervisor.stopped(SyncOutcome::Finished), SyncStep::Stop);
    assert_eq!(supervisor.failures, 24);
}

#[test]
fn a_quiet_sync_is_stalled_after_two_minutes() {
    assert_eq!(stalled_for(219, 100), None);
    assert_eq!(stalled_for(220, 100), Some(120));
    assert_eq!(stalled_for(50, 100), None);
}

#[test]
fn the_supervision_runs_until_it_is_cancelled_or_finished() {
    let quiet = SyncEvent::Looked { now: 300, heartbeat: 100 };
    let lively = SyncEvent::Looked { now: 300, heartbeat: 299 };
    let failed = SyncEvent::Stopped(SyncOutcome::Failed);
    let mut supervisor = SyncSupervisor::new();
    assert_eq!(supervisor.phase, SyncPhase::Waiting);
    assert_eq!(supervisor.next(failed), SyncAction::Watch);
    assert_eq!(supervisor.next(SyncEvent::Due), SyncAction::Start);
    assert_eq!(supervisor.next(lively), SyncAction::Watch);
    assert_eq!(supervisor.next(quiet), SyncAction::Restart(5));
    assert_eq!(supervisor.next(quiet), SyncAction::Watch);
    assert_eq!(supervisor.failures, 1);
    for failure in 2..20u64 {
        assert_eq!(supervisor.next(SyncEvent::Due), SyncAction::Start);
        assert_eq!(supervisor.next(failed), SyncAction::Restart(5 * failure.min(12)));
    }
    assert_eq!(supervisor.next(SyncEvent::Due), SyncAction::Start);
    let finished = SyncEvent::Stopped(SyncOutcome::Finished);
    assert_eq!(supervisor.next(finished), SyncAction::Return);
    assert_eq!(supervisor.phase, SyncPhase::Over);
    assert_eq!(supervisor.next(SyncEvent::Due), SyncAction::Return);

    let mut supervisor = SyncSupervisor::new();
    let cancelled = SyncEvent::Stopped(SyncOutcome::Cancelled);
    assert_eq!(supervisor.next(cancelled), SyncAction::Return);
    assert_eq!(supervisor.next(quiet), SyncAction::Return);
    assert_eq!(supervisor.failures, 0);
}

#[test]
fn paths_are_joined() {
    assert_eq!(join_path("/a", "b"), "/a/b");
    assert_eq!(join_path("/a/", "b"), "/a/b");
    assert_eq!(join_path("", "b"), "b");
    assert_eq!(join_path("/a", "/b"), "/b");
    assert_eq!(channel_dir(Some("/h"), "HAL"), "/h/.hal/channels/matrix");
    for (base, name) in [("/a", "b"), ("a/", "b"), ("", "b"), ("a", "/b"), ("a", "")] {
        let expected = std::path::Path::new(base).join(name);
        assert_eq!(join_path(base, name), expected.to_str().unwrap());
    }
}

#[test]
fn timestamps_are_written_and_read_back() {
    assert_eq!(humanize_timestamp(0), "1970-01-01T00:00:00Z");
    assert_eq!(humanize_timestamp(951_782_399), "2000-02-28T23:59:59Z");
    assert_eq!(humanize_timestamp(951_782_400), "2000-02-29T00:00:00Z");
    assert_eq!(humanize_timestamp(1_786_190_400), "2026-08-08T12:00:00Z");
    for secs in [0, 1, 86_399, 86_400, 1_709_164_800, 4_102_444_799, 253_402_300_799] {
        assert_eq!(parse_timestamp(&humanize_timestamp(secs)), Some(secs));
    }
}

#[test]
fn later_timestamps_come_later_as_texts() {
    let moments = [
        0,
        1,
        59,
        60,
        86_399,
        86_400,
        951_782_399,
        951_782_400,
        1_786_190_400,
        4_102_444_799,
        253_402_300_799,
    ];
    for pair in moments.windows(2) {
        let (earlier, later) = (humanize_timestamp(pair[0]), humanize_timestamp(pair[1]));
        assert!(earlier < later, "{earlier} {later}");
        assert_eq!(later.len(), 20);
    }
    assert_eq!(humanize_timestamp(253_402_300_799), "9999-12-31T23:59:59Z");
    assert_eq!(humanize_timestamp(253_402_300_800), "10000-01-01T00:00:00Z");
}

#[test]
fn odd_timestamps_are_read_as_they_stand() {
    assert_eq!(parse_timestamp("1969-12-31T23:59:59Z"), None);
    assert_eq!(parse_timestamp("2026-08-08 12:00:00Z"), None);
    assert_eq!(parse_timestamp("2026-08-08T12:00"), None);
    assert_eq!(parse_timestamp("2026-08-08T12-00-00"), Some(1_786_190_400));
    assert_eq!(parse_timestamp("2026-0x-08T12:00:00Z"), None);
}

#[test]
fn numbers_are_written_and_read() {
    for n in [0, 7, 10, 99, 100, 4_294_967_296, u64::MAX] {
        assert_eq!(to_decimal(n), n.to_string());
        assert_eq!(parse_unsigned(&to_decimal(n)), Some(n));
    }
    for s in ["", "+", "-1", " 1", "1 ", "+7", "007", "18446744073709551615", "18446744073709551616"]
    {
        assert_eq!(parse_unsigned(s), s.parse::<u64>().ok(), "{s:?}");
    }
}

#[test]
fn white_space_agrees_with_the_standard_library() {
    for code in 0..=0x10ffff_u32 {
        if let Some(c) = char::from_u32(code) {
            assert_eq!(is_white_space(c), c.is_whitespace(), "{code:x}");
        }
    }
}

#[test]
fn text_is_handled_as_the_standard_library_does() {
    for s in ["", " ", "a", " a b ", "\u{a0}x\u{3000}", "a\r\nb\n\nc\r", "\n", "x\ny", "\r\n"] {
        assert_eq!(trim(s), s.trim());
        assert_eq!(lines(s), s.lines().map(|l| l.to_string()).collect::<Vec<_>>());
        assert_eq!(first_word(s), s.split_whitespace().next().unwrap_or(""));
        assert_eq!(lower_letters(s), s.to_ascii_lowercase());
    }
    assert_eq!(lower_letters("AZÄaz[`{@"), "AZÄaz[`{@".to_ascii_lowercase());
    assert!(contains_text("abc", "bc"));
    assert!(contains_text("abc", ""));
    assert!(!contains_text("abc", "cb"));
    assert_eq!(truncated("aé", 2), "a");
    assert_eq!(truncated("aé", 3), "aé");
}
