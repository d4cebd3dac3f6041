use cc_matrix_channel::access::{
    default_ack_reaction, default_one, default_text_chunk_limit, default_true, generate_code,
    spell_code, AccessConfig, AccessControl, AccessDenied, ChunkMode, DmPolicy, GroupConfig,
    PairingError, PendingEntry, ReplyToMode, MAX_PENDING, MAX_REPLIES_PER_SENDER,
    PAIRING_LIFETIME,
};

const NOW: u64 = 1_786_190_400_000;
const ROOM: &str = "!test:example.com";

fn control(config: AccessConfig) -> AccessControl {
    AccessControl::new(Some(config))
}

#[test]
fn allow_all_passes_everyone() {
    let mut config = AccessConfig::default();
    config.allow_from = vec!["*".to_string()];
    let mut ac = control(config);
    assert!(ac.check_sender("@alice:example.com", ROOM, NOW).is_ok());
}

#[test]
fn allowlist_passes_listed_user() {
    let mut config = AccessConfig::default();
    config.allow_from = vec!["@alice:example.com".to_string()];
    let mut ac = control(config);
    assert!(ac.check_sender("@alice:example.com", ROOM, NOW).is_ok());
}

#[test]
fn allowlist_blocks_unlisted_user() {
    let mut config = AccessConfig::default();
    config.allow_from = vec!["@alice:example.com".to_string()];
    let mut ac = control(config);
    assert!(ac.check_sender("@bob:example.com", ROOM, NOW).is_err());
}

#[test]
fn pairing_flow_works() {
    let mut ac = control(AccessConfig::default());
    let user = "@bob:example.com";

    let code = match ac.check_sender(user, ROOM, NOW) {
        Err(AccessDenied::PairingRequired(c)) => c,
        other => panic!("Expected PairingRequired, got {other:?}"),
    };

    match ac.check_sender(user, ROOM, NOW) {
        Err(AccessDenied::PairingRequired(c)) => assert_eq!(c, code),
        other => panic!("Expected PairingRequired, got {other:?}"),
    }

    assert!(ac.approve_pairing(user, "WRONG1", NOW).is_err());

    let returned_room = ac.approve_pairing(user, &code, NOW).unwrap();
    assert_eq!(returned_room, ROOM);

    assert!(ac.check_sender(user, ROOM, NOW).is_ok());
}

#[test]
fn disabled_policy_allows_everyone() {
    let mut config = AccessConfig::default();
    config.dm_policy = DmPolicy::Disabled;
    let mut ac = control(config);
    assert!(ac.check_sender("@stranger:example.com", ROOM, NOW).is_ok());
    assert!(ac.check_sender("@alice:example.com", ROOM, NOW).is_ok());
}

#[test]
fn allowlist_policy_denies_without_pairing() {
    let mut config = AccessConfig::default();
    config.dm_policy = DmPolicy::Allowlist;
    let mut ac = control(config);
    match ac.check_sender("@bob:example.com", ROOM, NOW) {
        Err(AccessDenied::Denied) => {}
        other => panic!("Expected Denied, got {other:?}"),
    }
}

#[test]
fn max_pending_limit() {
    let mut ac = control(AccessConfig::default());
    for i in 0..MAX_PENDING {
        let user = format!("@user{i}:example.com");
        assert!(matches!(
            ac.check_sender(&user, ROOM, NOW),
            Err(AccessDenied::PairingRequired(_))
        ));
    }
    match ac.check_sender("@extra:example.com", ROOM, NOW) {
        Err(AccessDenied::TooManyPending) => {}
        other => panic!("Expected TooManyPending, got {other:?}"),
    }
}

#[test]
fn reply_rate_limiting() {
    let mut ac = control(AccessConfig::default());
    let user = "@bob:example.com";
    let _code = match ac.check_sender(user, ROOM, NOW) {
        Err(AccessDenied::PairingRequired(c)) => c,
        other => panic!("Expected PairingRequired, got {other:?}"),
    };
    for _ in 0..MAX_REPLIES_PER_SENDER {
        ac.mark_pairing_reply_sent(user);
    }
    match ac.check_sender(user, ROOM, NOW) {
        Err(AccessDenied::PairingPending(_)) => {}
        other => panic!("Expected PairingPending, got {other:?}"),
    }
}

#[test]
fn defaults_used_when_no_file() {
    let mut ac = AccessControl::new(None);
    assert!(matches!(
        ac.check_sender("@bob:example.com", ROOM, NOW),
        Err(AccessDenied::PairingRequired(_))
    ));
}

#[test]
fn delivery_settings_accessible() {
    let mut config = AccessConfig::default();
    config.ack_reaction = "✨".to_string();
    config.text_chunk_limit = 2000;
    config.chunk_mode = ChunkMode::Length;
    config.reply_to_mode = ReplyToMode::All;
    let ac = control(config);
    assert_eq!(ac.ack_reaction(), Some("✨".to_string()));
    assert_eq!(ac.text_chunk_limit(), 2000);
    assert_eq!(ac.chunk_mode(), ChunkMode::Length);
    assert_eq!(ac.reply_to_mode(), ReplyToMode::All);
}

#[test]
fn group_mention_check() {
    let mut config = AccessConfig::default();
    config.groups.push((
        "!room:example.com".to_string(),
        GroupConfig {
            require_mention: true,
            allow_from: vec![],
            mention_patterns: vec![],
        },
    ));
    let ac = control(config);
    assert!(ac.requires_mention("!room:example.com"));
    assert!(!ac.requires_mention("!other:example.com"));
}

#[test]
fn defaults_are_the_documented_ones() {
    let config = AccessConfig::default();
    assert_eq!(config.dm_policy, DmPolicy::Pairing);
    assert!(config.allow_from.is_empty());
    assert!(config.groups.is_empty());
    assert_eq!(config.ack_reaction, "👀");
    assert_eq!(config.text_chunk_limit, 4096);
    assert_eq!(config.chunk_mode, ChunkMode::Newline);
    assert_eq!(config.reply_to_mode, ReplyToMode::First);
    assert!(default_true());
    assert_eq!(default_one(), 1);
    assert_eq!(default_ack_reaction(), "👀");
    assert_eq!(default_text_chunk_limit(), 4096);
    assert_eq!(DmPolicy::default(), DmPolicy::Pairing);
    assert_eq!(ChunkMode::default(), ChunkMode::Newline);
    assert_eq!(ReplyToMode::default(), ReplyToMode::First);
}

#[test]
fn chunk_limit_has_a_floor() {
    let mut config = AccessConfig::default();
    config.text_chunk_limit = 7;
    assert_eq!(control(config).text_chunk_limit(), 100);
}

#[test]
fn empty_ack_reaction_is_none() {
    let mut config = AccessConfig::default();
    config.ack_reaction = String::new();
    assert_eq!(control(config).ack_reaction(), None);
}

#[test]
fn group_list_admits_in_its_room_only() {
    let mut config = AccessConfig::default();
    config.dm_policy = DmPolicy::Allowlist;
    config.groups.push((
        "!room:example.com".to_string(),
        GroupConfig {
            require_mention: false,
            allow_from: vec!["@bob:example.com".to_string()],
            mention_patterns: vec!["hal".to_string(), "bot".to_string()],
        },
    ));
    let mut ac = control(config);
    assert!(ac.check_sender("@bob:example.com", "!room:example.com", NOW).is_ok());
    assert!(ac.check_sender("@bob:example.com", "!other:example.com", NOW).is_err());
    assert_eq!(
        ac.mention_patterns("!room:example.com"),
        vec!["hal".to_string(), "bot".to_string()]
    );
    assert!(ac.mention_patterns("!other:example.com").is_empty());
}

#[test]
fn codes_are_drawn_from_the_charset() {
    let charset = "ABCDEFGHJKLMNPQRSTUVWXYZ23456789";
    for _ in 0..50 {
        let code = generate_code();
        assert_eq!(code.len(), 6);
        assert!(code.chars().all(|c| charset.contains(c)));
    }
    assert_eq!(spell_code(&[0, 1, 2, 31, 30, 29]), "ABC987");
}

#[test]
fn codes_differ_from_one_another() {
    let first = generate_code();
    let mut same = 0;
    for _ in 0..20 {
        if generate_code() == first {
            same += 1;
        }
    }
    assert!(same < 20);
}

#[test]
fn given_code_is_the_one_issued() {
    let mut ac = control(AccessConfig::default());
    let answer = ac.check_sender_with_code("@bob:example.com", ROOM, NOW, "ABC234".to_string());
    match answer {
        Err(AccessDenied::PairingRequired(c)) => assert_eq!(c, "ABC234"),
        other => panic!("Expected PairingRequired, got {other:?}"),
    }
    assert!(ac.unsaved);
    assert_eq!(ac.config.pending.len(), 1);
    assert_eq!(ac.config.pending[0].0, "ABC234");
    assert_eq!(ac.config.pending[0].1.sender_id, "@bob:example.com");
    assert_eq!(ac.config.pending[0].1.chat_id, ROOM);
    assert_eq!(ac.config.pending[0].1.expires_at, NOW + PAIRING_LIFETIME);
}

#[test]
fn a_repeated_request_gets_the_same_code() {
    let mut ac = control(AccessConfig::default());
    let other = ac.check_sender_with_code("@eve:example.com", ROOM, NOW, "XYZ234".to_string());
    assert!(matches!(other, Err(AccessDenied::PairingRequired(c)) if c == "XYZ234"));
    for (later, drawn) in [(0, "ABC234"), (1, "DEF567"), (PAIRING_LIFETIME - 1, "GHJ234")] {
        let answer =
            ac.check_sender_with_code("@bob:example.com", ROOM, NOW + later, drawn.to_string());
        assert!(matches!(answer, Err(AccessDenied::PairingRequired(c)) if c == "ABC234"));
        assert_eq!(ac.config.pending.len(), 2);
        assert_eq!(ac.config.pending[0].0, "XYZ234");
        assert_eq!(ac.config.pending[1].1.expires_at, NOW + PAIRING_LIFETIME);
    }
    let late = NOW + PAIRING_LIFETIME;
    let answer = ac.check_sender_with_code("@bob:example.com", ROOM, late, "KLM234".to_string());
    assert!(matches!(answer, Err(AccessDenied::PairingRequired(c)) if c == "KLM234"));
    assert_eq!(ac.config.pending.len(), 1);
}

#[test]
fn expired_codes_cannot_be_approved() {
    let mut ac = control(AccessConfig::default());
    let _ = ac.check_sender_with_code("@bob:example.com", ROOM, NOW, "ABC234".to_string());
    assert!(matches!(
        ac.approve_pairing("@bob:example.com", "ABC234", NOW + PAIRING_LIFETIME),
        Err(PairingError::NoPendingPairing)
    ));
}

#[test]
fn codes_belong_to_their_sender_and_are_used_up() {
    let mut ac = control(AccessConfig::default());
    let _ = ac.check_sender_with_code("@bob:example.com", ROOM, NOW, "ABC234".to_string());
    assert!(ac.approve_pairing("@eve:example.com", "ABC234", NOW).is_err());
    assert!(ac.approve_pairing("@bob:example.com", "ABC234", NOW).is_ok());
    assert!(ac.approve_pairing("@bob:example.com", "ABC234", NOW).is_err());
    assert_eq!(ac.config.allow_from, vec!["@bob:example.com".to_string()]);
}

#[test]
fn pairing_for_something_that_is_no_room_is_not_approved() {
    let mut config = AccessConfig::default();
    config.pending.push((
        "ABC234".to_string(),
        PendingEntry {
            sender_id: "@bob:example.com".to_string(),
            chat_id: "not-a-room".to_string(),
            created_at: NOW,
            expires_at: NOW + 10,
            replies: 1,
        },
    ));
    let mut ac = control(config);
    assert!(ac.approve_pairing("@bob:example.com", "ABC234", NOW).is_err());
}

#[test]
fn refusals_have_words() {
    let code = "ABC234".to_string();
    assert_eq!(
        AccessDenied::PairingRequired(code.clone()).message(),
        "Pairing required. Code: ABC234"
    );
    assert_eq!(
        AccessDenied::PairingPending(code).message(),
        "Pairing already pending. Code: ABC234"
    );
    assert_eq!(AccessDenied::TooManyPending.message(), "Too many pending pairings");
    assert_eq!(AccessDenied::Denied.message(), "Access denied");
    assert_eq!(PairingError::NoPendingPairing.message(), "No pending pairing for this user");
    assert_eq!(PairingError::Expired.message(), "Pairing code has expired");
}

#[test]
fn stored_settings_take_effect_when_the_file_changes() {
    let mut ac = AccessControl::new(None);
    assert!(ac.needs_read(Some(5)));
    let mut config = AccessConfig::default();
    config.dm_policy = DmPolicy::Disabled;
    ac.load_config(true, Some(5), Some(config));
    assert_eq!(ac.config.dm_policy, DmPolicy::Disabled);
    assert!(!ac.needs_read(Some(5)));
    assert!(ac.needs_read(Some(6)));
    ac.load_config(true, Some(6), None);
    assert_eq!(ac.config.dm_policy, DmPolicy::Disabled);
    ac.load_config(false, None, None);
    assert_eq!(ac.config.dm_policy, DmPolicy::Pairing);
}

#[test]
fn saved_settings_need_not_be_read_again() {
    let mut ac = AccessControl::new(None);
    let _ = ac.check_sender_with_code("@bob:example.com", ROOM, NOW, "ABC234".to_string());
    assert!(ac.unsaved);
    ac.save_config(true, Some(9));
    assert!(!ac.unsaved);
    assert!(!ac.needs_read(Some(9)));
    ac.load_config(true, Some(9), None);
    assert_eq!(ac.config.pending.len(), 1);
}
