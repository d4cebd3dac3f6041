use cc_matrix_channel::access::{
    AccessConfig, AccessControl, AccessDenied, DmPolicy, GroupConfig, MAX_REPLIES_PER_SENDER,
};
use cc_matrix_channel::clock::Span;
use cc_matrix_channel::commands::{
    command_reply, handle_bot_command, is_bot_command, parse_command, BotCommand,
};
use cc_matrix_channel::content::{AttachmentMeta, MessageBody};
use cc_matrix_channel::inbound::{
    accepts_invite, acknowledge, notify, react, receive, receive_addressed,
    receive_addressed_with_code, receive_with_code, screen, Reception, Screening,
};
use cc_matrix_channel::json::Json;
use cc_matrix_channel::mention::{any_found, mentioned, mentioned_with, needs_name};
use cc_matrix_channel::relay::notification_params;
use cc_matrix_channel::rooms::{load, save};
use cc_matrix_channel::status::AgentStatus;
use cc_matrix_channel::verdict::PermissionVerdict;

const NOW: u64 = 1_786_190_400_000;
const ALICE: &str = "@alice:example.com";
const BOT: &str = "@bot:example.com";
const ROOM: &str = "!room:example.com";

fn open_rules() -> AccessControl {
    let mut config = AccessConfig::default();
    config.allow_from = vec![ALICE.to_string()];
    AccessControl::new(Some(config))
}

fn text(s: &str) -> MessageBody {
    MessageBody::Text(s.to_string())
}

fn attachment() -> AttachmentMeta {
    AttachmentMeta {
        name: "a.png".to_string(),
        mime_type: "image/png".to_string(),
        size: 12,
        mxc_uri: "mxc://s/a".to_string(),
        source_json: Some(r#"{"url":"mxc://s/a"}"#.to_string()),
    }
}

#[test]
fn messages_are_screened() {
    assert!(matches!(screen(BOT, BOT, &text("hi")), Screening::Ignore));
    assert!(matches!(screen(ALICE, BOT, &MessageBody::Other), Screening::Ignore));
    assert!(matches!(screen(ALICE, BOT, &text("/help")), Screening::Command(c) if c == "/help"));
    match screen(ALICE, BOT, &text("hi")) {
        Screening::Message(s, files) => {
            assert_eq!(s, "hi");
            assert!(files.is_empty());
        }
        other => panic!("got {other:?}"),
    }
}

#[test]
fn admitted_messages_are_passed_on_and_make_their_room_known() {
    let mut rules = open_rules();
    let mut rooms = load(None);
    let waiting: Vec<String> = vec![];
    let (first, worth) =
        receive("Hal", &mut rules, &mut rooms, &waiting, ALICE, ROOM, NOW, "hi", false);
    assert!(matches!(first, Reception::Forward { typing: true }));
    assert!(worth);
    assert!(rooms.contains(ROOM));
    let (second, worth) =
        receive("Hal", &mut rules, &mut rooms, &waiting, ALICE, ROOM, NOW, "[Image: x]", true);
    assert!(matches!(second, Reception::Forward { typing: false }));
    assert!(!worth);
}

#[test]
fn verdicts_are_relayed_for_waiting_requests_only() {
    let mut rules = open_rules();
    let mut rooms = load(None);
    let waiting = vec!["abcde".to_string()];
    let (allowed, _) =
        receive("Hal", &mut rules, &mut rooms, &waiting, ALICE, ROOM, NOW, "yes abcde", false);
    match allowed {
        Reception::Verdict { verdict, emoji } => {
            assert_eq!(verdict.request_id, "abcde");
            assert_eq!(verdict.behavior, "allow");
            assert_eq!(emoji, "✅");
        }
        other => panic!("got {other:?}"),
    }
    let (denied, _) =
        receive("Hal", &mut rules, &mut rooms, &waiting, ALICE, ROOM, NOW, "no abcde", false);
    assert!(matches!(denied, Reception::Verdict { emoji, .. } if emoji == "❌"));
    let (other, _) =
        receive("Hal", &mut rules, &mut rooms, &waiting, ALICE, ROOM, NOW, "yes fghij", false);
    assert!(matches!(other, Reception::Forward { .. }));
}

#[test]
fn strangers_are_told_how_to_pair_a_limited_number_of_times() {
    let mut rules = AccessControl::new(None);
    let mut rooms = load(None);
    let waiting = vec!["abcde".to_string()];
    for _ in 0..MAX_REPLIES_PER_SENDER {
        let (reception, worth) = receive_with_code(
            "Hal",
            &mut rules,
            &mut rooms,
            &waiting,
            ALICE,
            ROOM,
            NOW,
            "yes abcde",
            false,
            "ABC234".to_string(),
        );
        match reception {
            Reception::Pairing { reply } => assert_eq!(
                reply,
                "Pairing required. Ask the Hal Code operator to approve you with code: ABC234"
            ),
            other => panic!("got {other:?}"),
        }
        assert!(!worth);
    }
    let (silent, _) =
        receive("Hal", &mut rules, &mut rooms, &waiting, ALICE, ROOM, NOW, "hello?", false);
    assert!(matches!(silent, Reception::Drop));
    assert!(rooms.is_empty());
}

#[test]
fn refusals_are_silent() {
    let waiting: Vec<String> = vec![];
    for denied in [
        AccessDenied::Denied,
        AccessDenied::TooManyPending,
        AccessDenied::PairingPending("ABC234".to_string()),
    ] {
        assert!(matches!(
            react("Hal", &Err(denied), None, &waiting, false),
            Reception::Drop
        ));
    }
    let verdict = PermissionVerdict {
        request_id: "abcde".to_string(),
        behavior: "allow".to_string(),
    };
    assert!(matches!(
        react("Hal", &Err(AccessDenied::Denied), Some(verdict), &vec!["abcde".to_string()], false),
        Reception::Drop
    ));
}

#[test]
fn mentions_are_needed_where_they_are_required() {
    let none: Vec<String> = vec![];
    assert!(mentioned(false, "hi", BOT, None, &none));
    assert!(!mentioned(true, "hi", BOT, None, &none));
    assert!(mentioned(true, "hi @bot:example.com", BOT, None, &none));
    assert!(mentioned(true, "hi Botty!", BOT, Some("Botty"), &none));
    assert!(!mentioned(true, "hi botty!", BOT, Some("Botty"), &none));
}

#[test]
fn patterns_are_searched_for_in_any_case() {
    let patterns = vec!["hal".to_string(), "K-9".to_string()];
    assert!(mentioned(true, "hey HAL!", BOT, None, &patterns));
    assert!(mentioned(true, "shall we?", BOT, None, &patterns));
    assert!(mentioned(true, "the k-9 thing", BOT, None, &patterns));
    assert!(!mentioned(true, "hello", BOT, None, &patterns));
    let accents = vec!["ÉTÉ".to_string()];
    assert!(mentioned(true, "cet été", BOT, None, &accents));
}

#[test]
fn patterns_are_taken_as_they_are_written() {
    let dotted = vec!["a.c".to_string()];
    assert!(!mentioned(true, "abc", BOT, None, &dotted));
    assert!(mentioned(true, "see A.C there", BOT, None, &dotted));
    let bracket = vec!["(".to_string()];
    assert!(mentioned(true, "hello (", BOT, None, &bracket));
    assert!(!mentioned(true, "hello", BOT, None, &bracket));
    assert!(mentioned(true, "anything", BOT, None, &vec!["".to_string()]));
}

#[test]
fn messages_that_are_not_addressed_change_nothing() {
    let mut config = AccessConfig::default();
    config.groups = vec![(
        ROOM.to_string(),
        GroupConfig {
            require_mention: true,
            allow_from: vec![],
            mention_patterns: vec!["hal".to_string()],
        },
    )];
    let mut rules = AccessControl::new(Some(config));
    let mut rooms = load(None);
    let waiting: Vec<String> = vec![];
    let outcome = receive_addressed(
        "Hal", &mut rules, &mut rooms, &waiting, ALICE, BOT, Some("Botty"), ROOM, NOW, "hi", false,
    );
    assert!(outcome.is_none());
    assert!(rules.config.pending.is_empty());
    assert!(!rules.unsaved);
    assert!(save(&rooms).rooms.is_empty());
    let code = "ABC234".to_string();
    let outcome = receive_addressed_with_code(
        "Hal", &mut rules, &mut rooms, &waiting, ALICE, BOT, None, ROOM, NOW, "hi HAL", false, code,
    );
    match outcome {
        Some((Reception::Pairing { reply }, false)) => assert!(reply.ends_with("ABC234")),
        other => panic!("got {other:?}"),
    }
    assert_eq!(rules.config.pending.len(), 1);
    rules.config.allow_from = vec![ALICE.to_string()];
    for (name, s) in [(Some("Botty"), "hi Botty"), (None, "@bot:example.com hi")] {
        let outcome = receive_addressed(
            "Hal", &mut rules, &mut rooms, &waiting, ALICE, BOT, name, ROOM, NOW, s, false,
        );
        assert!(matches!(outcome, Some((Reception::Forward { typing: true }, _))));
    }
    assert_eq!(save(&rooms).last_active.as_deref(), Some(ROOM));
    let elsewhere = receive_addressed(
        "Hal", &mut rules, &mut rooms, &waiting, ALICE, BOT, None, "!other:s", NOW, "hi", true,
    );
    assert!(matches!(elsewhere, Some((Reception::Forward { typing: false }, true))));
}

#[test]
fn search_outcomes_decide() {
    let list = vec!["x".to_string(), "hal".to_string()];
    assert!(any_found(&list, "shall"));
    assert!(!any_found(&list, "HAL"));
    assert!(!any_found(&vec![], "hal"));
    assert!(mentioned_with(true, "hi", BOT, None, "shall", &list));
    assert!(!mentioned_with(true, "shall", BOT, None, "hi", &list));
    assert!(mentioned_with(true, "hi Botty", BOT, Some("Botty"), "", &list));
    assert!(mentioned_with(false, "hi", BOT, None, "", &vec![]));
    assert!(needs_name(true, "hi", BOT));
    assert!(!needs_name(true, BOT, BOT));
    assert!(!needs_name(false, "hi", BOT));
}

#[test]
fn bot_commands_are_answered() {
    assert!(is_bot_command("/x"));
    assert!(!is_bot_command(" /x"));
    assert!(!is_bot_command(""));
    assert_eq!(parse_command("/start now"), Some(BotCommand::Start));
    assert_eq!(parse_command("/help"), Some(BotCommand::Help));
    assert_eq!(parse_command("/status\n"), Some(BotCommand::Status));
    assert_eq!(parse_command("/starting"), None);
    let agent = AgentStatus::unknown();
    assert_eq!(
        command_reply(BotCommand::Start, "Hal", Span::from_secs(0), &agent),
        "I'm a Hal Code bridge bot. Messages sent here are forwarded to your active Hal Code session, and Hal's replies appear back in this chat."
    );
    assert_eq!(
        handle_bot_command("/help", "Hal", Span::from_secs(0), &agent).unwrap(),
        "Available commands:\n/start — What this bot does\n/help — Show this message\n/status — Bot status\n\nSend any other message and it will be forwarded to Hal Code (if you have access)."
    );
    assert_eq!(
        handle_bot_command("/status", "Hal", Span::from_secs(7384), &agent).unwrap(),
        "Bridge:   online, uptime 2h 3m\nAgent:    unknown"
    );
    assert!(handle_bot_command("/other", "Hal", Span::from_secs(0), &agent).is_none());
}

#[test]
fn notifications_carry_what_is_known() {
    let n = notify(
        "hi".to_string(),
        vec![],
        ALICE,
        Some("Alice".to_string()),
        ROOM,
        "$e",
        Some(1_786_190_400),
    );
    assert_eq!(n.content, "hi");
    assert_eq!(n.sender, ALICE);
    assert_eq!(n.sender_display_name, "Alice");
    assert_eq!(n.room_id, ROOM);
    assert_eq!(n.event_id, "$e");
    assert_eq!(n.timestamp, "2026-08-08T12:00:00Z");
    let n = notify("hi".to_string(), vec![], ALICE, None, ROOM, "$e", None);
    assert_eq!(n.sender_display_name, ALICE);
    assert_eq!(n.timestamp, "");
}

#[test]
fn notification_parameters_are_laid_out() {
    let n = notify(
        "hi".to_string(),
        vec![attachment()],
        ALICE,
        None,
        ROOM,
        "$e",
        None,
    );
    let params = notification_params(&n);
    assert_eq!(params.get_str("content"), Some("hi"));
    let meta = params.get("meta").unwrap();
    assert_eq!(meta.get_str("sender"), Some(ALICE));
    assert_eq!(meta.get_str("sender_name"), Some(ALICE));
    assert_eq!(meta.get_str("room_id"), Some(ROOM));
    assert_eq!(meta.get_str("event_id"), Some("$e"));
    assert_eq!(meta.get_str("ts"), Some(""));
    match meta.get("attachments") {
        Some(Json::Array(files)) => {
            assert_eq!(files.len(), 1);
            assert_eq!(files[0].get_str("name"), Some("a.png"));
            assert_eq!(files[0].get_str("mime_type"), Some("image/png"));
            assert!(matches!(files[0].get("size"), Some(Json::Number(n)) if n == "12"));
            assert_eq!(files[0].get_str("mxc_uri"), Some("mxc://s/a"));
            assert_eq!(files[0].get_str("source_json"), Some(r#"{"url":"mxc://s/a"}"#));
        }
        other => panic!("got {other:?}"),
    }
    let mut unknown = attachment();
    unknown.source_json = None;
    let n = notify("hi".to_string(), vec![unknown], ALICE, None, ROOM, "$e", None);
    match notification_params(&n).get("meta").unwrap().get("attachments") {
        Some(Json::Array(files)) => {
            assert!(matches!(files[0].get("source_json"), Some(Json::Null)));
        }
        other => panic!("got {other:?}"),
    }
    let bare = notify("hi".to_string(), vec![], ALICE, None, ROOM, "$e", None);
    let params = notification_params(&bare);
    assert!(params.get("meta").unwrap().get("attachments").is_none());
}

#[test]
fn only_queued_messages_are_acknowledged() {
    let rules = open_rules();
    assert_eq!(acknowledge(true, &rules).as_deref(), Some("👀"));
    assert_eq!(acknowledge(false, &rules), None);
}

#[test]
fn invitations_for_the_bridge_are_accepted() {
    assert!(accepts_invite(Some(BOT), BOT));
    assert!(!accepts_invite(Some(BOT), ALICE));
    assert!(!accepts_invite(None, BOT));
}

#[test]
fn a_disabled_policy_lets_a_room_be_answered() {
    let mut config = AccessConfig::default();
    config.dm_policy = DmPolicy::Disabled;
    let mut rules = AccessControl::new(Some(config));
    let mut rooms = load(None);
    let waiting: Vec<String> = vec![];
    let (reception, _) =
        receive("Hal", &mut rules, &mut rooms, &waiting, "@x:y", ROOM, NOW, "hi", false);
    assert!(matches!(reception, Reception::Forward { .. }));
    assert_eq!(save(&rooms).last_active.as_deref(), Some(ROOM));
}
