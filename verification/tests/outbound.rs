use cc_matrix_channel::access::{AccessConfig, AccessControl, ChunkMode, ReplyToMode};
use cc_matrix_channel::content::{Media, MediaKind, MediaOrigin, MessageBody};
use cc_matrix_channel::files::{
    check_attachment_size, check_file_size, check_location, download_route, file_name,
    inbox_filename, media_source, sanitize_filename, sent_report, source_json,
    validate_file_for_sending, Route,
};
use cc_matrix_channel::history::{fetch_limit, render_history, PastMessage};
use cc_matrix_channel::live_status::MAX_TOTAL_LENGTH;
use cc_matrix_channel::outbound::{
    approve, check_destination, check_files, check_message, check_outbound_gate,
    pairing_confirmation, parse_event_id, parse_room_id, plan_reply, plan_reply_under,
    reply_summary, ToolError, MAX_ATTACHMENT_SIZE,
};
use cc_matrix_channel::rooms::{load, KnownRooms};
use matrix_sdk::ruma::events::room::MediaSource;

const NOW: u64 = 1_786_190_400_000;

fn known() -> KnownRooms {
    let mut rooms = load(None);
    rooms.hear_from("!known:s");
    rooms
}

fn parts(path: &str) -> Vec<Vec<u8>> {
    path.split('/').map(|part| part.as_bytes().to_vec()).collect()
}

#[test]
fn only_known_rooms_are_written_to() {
    let rooms = known();
    assert_eq!(check_outbound_gate(&rooms, "!known:s"), Ok(()));
    assert_eq!(check_outbound_gate(&rooms, "!other:s"), Err(ToolError::UnknownRoom));
    assert_eq!(check_destination(&rooms, "nonsense"), Err(ToolError::InvalidRoomId));
    assert_eq!(check_destination(&rooms, "!other:s"), Err(ToolError::UnknownRoom));
    assert_eq!(check_destination(&rooms, "!known:s"), Ok(()));
}

#[test]
fn ids_are_checked() {
    assert_eq!(parse_room_id("!r:s"), Ok(()));
    assert_eq!(parse_room_id("#r:s"), Err(ToolError::InvalidRoomId));
    assert_eq!(parse_room_id(""), Err(ToolError::InvalidRoomId));
    assert_eq!(parse_event_id("$e"), Ok(()));
    assert_eq!(parse_event_id("$e:server"), Ok(()));
    assert_eq!(parse_event_id("e"), Err(ToolError::InvalidEventId));
}

#[test]
fn long_messages_are_refused_first() {
    let rooms = known();
    let long = "x".repeat(MAX_TOTAL_LENGTH + 1);
    assert_eq!(
        check_message(&rooms, "nonsense", &long),
        Err(ToolError::MessageTooLong(50_001))
    );
    assert_eq!(check_message(&rooms, "!known:s", &"x".repeat(MAX_TOTAL_LENGTH)), Ok(()));
    assert_eq!(check_message(&rooms, "!other:s", "x"), Err(ToolError::UnknownRoom));
}

#[test]
fn errors_have_words() {
    for (error, words) in [
        (
            ToolError::MessageTooLong(50_001),
            "Message too long (50001 chars). Maximum is 50000 chars.",
        ),
        (ToolError::InvalidRoomId, "Invalid room ID"),
        (ToolError::InvalidEventId, "Invalid event ID"),
        (ToolError::InvalidUserId, "Invalid user ID"),
        (
            ToolError::UnknownRoom,
            "Cannot send to this room — no inbound messages received from it",
        ),
        (ToolError::TooManyFiles(11), "Too many files (11). Maximum is 10."),
        (
            ToolError::PairingFailed,
            "Pairing failed — check the code and try again",
        ),
        (
            ToolError::FileOutsideWorkingDirectory,
            "Cannot send files outside the current working directory",
        ),
        (
            ToolError::FileInDataDirectory,
            "Cannot send files from the bot's data directory",
        ),
        (
            ToolError::FileTooLarge(20_971_521),
            "File too large (20971521 bytes). Maximum is 20971520 bytes.",
        ),
        (
            ToolError::AttachmentTooLarge(20_971_521),
            "Attachment too large (20971521 bytes). Maximum is 20971520 bytes.",
        ),
        (ToolError::NotMedia, "Event is not a media message"),
    ] {
        assert_eq!(error.message(), words);
    }
}

#[test]
fn replies_are_cut_and_related_as_set() {
    for (mode, related) in [
        (ReplyToMode::First, [true, false]),
        (ReplyToMode::All, [true, true]),
        (ReplyToMode::Off, [false, false]),
    ] {
        let pieces = plan_reply("aaaa bbbb", Some("$e"), 6, ChunkMode::Newline, mode).unwrap();
        assert_eq!(pieces.len(), 2);
        assert_eq!(pieces[0].body, "aaaa ");
        assert_eq!(pieces[1].body, "bbbb");
        for (piece, shown) in pieces.iter().zip(related) {
            assert_eq!(piece.reply_to.as_deref(), if shown { Some("$e") } else { None });
        }
    }
    assert_eq!(
        plan_reply("x", Some("e"), 6, ChunkMode::Newline, ReplyToMode::First).unwrap_err(),
        ToolError::InvalidEventId
    );
    let pieces = plan_reply("x", None, 6, ChunkMode::Newline, ReplyToMode::All).unwrap();
    assert_eq!(pieces[0].reply_to, None);
}

#[test]
fn replies_follow_the_delivery_settings() {
    let mut config = AccessConfig::default();
    config.text_chunk_limit = 5;
    config.chunk_mode = ChunkMode::Length;
    config.reply_to_mode = ReplyToMode::Off;
    let rules = AccessControl::new(Some(config));
    let text = "x".repeat(150);
    let pieces = plan_reply_under(&rules, &text, Some("$e")).unwrap();
    assert_eq!(pieces.len(), 2);
    assert_eq!(pieces[0].body.len(), 100);
    assert_eq!(pieces[0].reply_to, None);
    let defaults = AccessControl::new(None);
    let text = "x".repeat(4097);
    let pieces = plan_reply_under(&defaults, &text, Some("$e")).unwrap();
    assert_eq!(pieces[0].body.len(), 4096);
    assert_eq!(pieces[0].reply_to.as_deref(), Some("$e"));
    assert_eq!(pieces[1].reply_to, None);
}

#[test]
fn files_of_a_reply_are_counted() {
    assert_eq!(check_files(10), Ok(()));
    assert_eq!(check_files(11), Err(ToolError::TooManyFiles(11)));
}

#[test]
fn replies_are_reported() {
    let one = vec!["$a".to_string()];
    let two = vec!["$a".to_string(), "$b".to_string()];
    assert_eq!(reply_summary(1, 0, &one), "Message sent. event_ids: $a");
    assert_eq!(reply_summary(2, 0, &two), "Sent 2 text chunks. event_ids: $a, $b");
    assert_eq!(reply_summary(1, 1, &two), "Sent 1 file(s). event_ids: $a, $b");
    assert_eq!(
        reply_summary(2, 3, &two),
        "Sent 2 text chunks + 3 file(s). event_ids: $a, $b"
    );
    assert_eq!(reply_summary(1, 0, &vec![]), "Message sent. event_ids: ");
}

#[test]
fn pairings_are_approved_by_the_tool() {
    let mut rules = AccessControl::new(None);
    let user = "@bob:example.com";
    let _ = rules.check_sender_with_code(user, "!r:s", NOW, "ABC234".to_string());
    assert_eq!(
        approve(&mut rules, "bob", "ABC234", NOW),
        Err(ToolError::InvalidUserId)
    );
    assert_eq!(
        approve(&mut rules, user, "WRONG1", NOW),
        Err(ToolError::PairingFailed)
    );
    assert_eq!(
        approve(&mut rules, user, "ABC234", NOW),
        Ok((
            "!r:s".to_string(),
            "User @bob:example.com approved. Their messages will now be forwarded.".to_string()
        ))
    );
    assert_eq!(
        pairing_confirmation("Hal"),
        "Paired successfully. Your messages will now be forwarded to Hal Code."
    );
}

#[test]
fn files_are_sent_from_the_working_directory_only() {
    let cwd = parts("/home/u/work");
    let store = parts("/home/u/work/data");
    let check = |path: &str| check_location(&parts(path), &cwd, Some(&store));
    assert_eq!(check("/home/u/work/a.txt"), Ok(()));
    assert_eq!(check("/home/u/workshop/a.txt"), Err(ToolError::FileOutsideWorkingDirectory));
    assert_eq!(check("/etc/passwd"), Err(ToolError::FileOutsideWorkingDirectory));
    assert_eq!(check("/home/u/work/data/key"), Err(ToolError::FileInDataDirectory));
    assert_eq!(check("/home/u/work/data"), Err(ToolError::FileInDataDirectory));
    assert_eq!(check("/home/u/work/data/inboxes/x"), Err(ToolError::FileInDataDirectory));
    assert_eq!(check("/home/u/work/data/inbox/x"), Ok(()));
    assert_eq!(check_location(&parts("/home/u/work/data/key"), &cwd, None), Ok(()));
}

#[test]
fn sizes_are_bounded() {
    assert_eq!(check_file_size(MAX_ATTACHMENT_SIZE), Ok(()));
    assert_eq!(
        check_file_size(MAX_ATTACHMENT_SIZE + 1),
        Err(ToolError::FileTooLarge(20_971_521))
    );
    assert_eq!(check_attachment_size(MAX_ATTACHMENT_SIZE), Ok(()));
    assert_eq!(
        check_attachment_size(MAX_ATTACHMENT_SIZE + 1),
        Err(ToolError::AttachmentTooLarge(20_971_521))
    );
}

#[test]
fn outgoing_files_are_named_and_typed() {
    let cwd = parts("/w");
    let file = validate_file_for_sending(
        "./pics/a.png",
        "/w/pics/a.png",
        &parts("/w/pics/a.png"),
        &cwd,
        None,
        10,
    )
    .unwrap();
    assert_eq!(file.filename, "a.png");
    assert_eq!(file.mime, "image/png");
    let plain =
        validate_file_for_sending("..", "/w/README", &parts("/w/README"), &cwd, None, 10).unwrap();
    assert_eq!(plain.filename, "file");
    assert_eq!(plain.mime, "application/octet-stream");
    assert_eq!(
        validate_file_for_sending("x", "/w/x", &parts("/w/x"), &cwd, None, u64::MAX).unwrap_err(),
        ToolError::FileTooLarge(u64::MAX)
    );
    assert_eq!(
        validate_file_for_sending("x", "/x", &parts("/x"), &cwd, None, u64::MAX).unwrap_err(),
        ToolError::FileOutsideWorkingDirectory
    );
}

#[test]
fn last_names_agree_with_the_standard_library() {
    for path in [
        "", ".", "..", "/", "a", "a/", "a/b", "a/b/", "a/.", "a/..", "/.", "./a", "a//", "...",
        "a/b/./.", ".hidden", "a/.hidden/",
    ] {
        let expected = std::path::Path::new(path)
            .file_name()
            .and_then(|n| n.to_str())
            .map(|n| n.to_string());
        assert_eq!(file_name(path), expected, "{path:?}");
    }
}

#[test]
fn fetched_files_get_harmless_names() {
    assert_eq!(sanitize_filename("a.txt"), "a.txt");
    assert_eq!(sanitize_filename("../../etc/passwd"), "_.._etc_passwd");
    assert_eq!(sanitize_filename("..\\x"), "_x");
    assert_eq!(sanitize_filename("..."), "attachment");
    assert_eq!(sanitize_filename(""), "attachment");
    assert_eq!(inbox_filename(None, "mxc://server/AbC"), "AbC");
    assert_eq!(inbox_filename(None, "mxc://server/"), "attachment");
    assert_eq!(inbox_filename(Some("x/y"), "mxc://server/AbC"), "x_y");
}

#[test]
fn downloads_take_their_route() {
    assert_eq!(download_route(Some("$e"), Some("!r:s")), Ok(Route::Event));
    assert_eq!(download_route(Some("$e"), None), Ok(Route::Address));
    assert_eq!(download_route(None, Some("!r:s")), Ok(Route::Address));
    assert_eq!(download_route(Some("$e"), Some("r")), Err(ToolError::InvalidRoomId));
    assert_eq!(download_route(Some("e"), Some("!r")), Err(ToolError::InvalidEventId));
}

#[test]
fn media_sources_are_read_or_plain() {
    let address = |source: MediaSource| match source {
        MediaSource::Plain(uri) => uri.to_string(),
        MediaSource::Encrypted(file) => file.url.to_string(),
    };
    assert_eq!(address(media_source("mxc://s/a", None)), "mxc://s/a");
    assert_eq!(address(media_source("mxc://s/a", Some("nonsense"))), "mxc://s/a");
    assert_eq!(
        address(media_source("mxc://s/a", Some(r#"{"url":"mxc://s/b"}"#))),
        "mxc://s/b"
    );
}

#[test]
fn media_sources_are_written_and_read_back() {
    let plain = media_source("mxc://s/a", None);
    let json = source_json(&plain).unwrap();
    assert_eq!(json, r#"{"url":"mxc://s/a"}"#);
    assert!(matches!(media_source("mxc://s/x", Some(&json)),
        MediaSource::Plain(uri) if uri.as_str() == "mxc://s/a"));

    let described = [
        r#"{"file":{"url":"mxc://s/b","key":{"kty":"oct","key_ops":["encrypt","decrypt"],"#,
        r#""alg":"A256CTR","k":"AAECAwQFBgcICQoLDA0ODxAREhMUFRYXGBkaGxwdHh8","ext":true},"#,
        r#""iv":"AAECAwQFBgcAAAAAAAAAAA","#,
        r#""hashes":{"sha256":"AAECAwQFBgcICQoLDA0ODxAREhMUFRYXGBkaGxwdHh8"},"v":"v2"}}"#,
    ]
    .concat();
    let encrypted = media_source("mxc://s/x", Some(&described));
    let json = source_json(&encrypted).unwrap();
    match media_source("mxc://s/x", Some(&json)) {
        MediaSource::Encrypted(file) => {
            assert_eq!(file.url.as_str(), "mxc://s/b");
            assert_eq!(format!("{:?}", MediaSource::Encrypted(file)), format!("{encrypted:?}"));
        }
        other => panic!("got {other:?}"),
    }
}

#[test]
fn sent_files_are_reported() {
    assert_eq!(sent_report("a.png"), "File 'a.png' sent.");
}

fn past(event_id: &str, body: MessageBody) -> PastMessage {
    PastMessage {
        event_id: event_id.to_string(),
        sender: "@a:s".to_string(),
        body,
    }
}

#[test]
fn history_limits_follow_the_request() {
    assert_eq!(fetch_limit(None), 10);
    assert_eq!(fetch_limit(Some(3)), 3);
    assert_eq!(fetch_limit(Some(50)), 50);
    assert_eq!(fetch_limit(Some(51)), 50);
}

#[test]
fn history_is_listed_oldest_first() {
    let media = |kind| {
        MessageBody::Media(Media {
            kind,
            body: "f".to_string(),
            mimetype: None,
            size: None,
            source: MediaOrigin::Encrypted("mxc://s/f".to_string()),
            source_json: None,
        })
    };
    let messages = vec![
        past("$6", MessageBody::Other),
        past("$5", media(MediaKind::Video)),
        past("$4", media(MediaKind::Audio)),
        past("$3", media(MediaKind::File)),
        past("$2", media(MediaKind::Image)),
        past("$1", MessageBody::Text("> <@b:s> q\n\nhi".to_string())),
    ];
    assert_eq!(
        render_history(&messages, 10),
        "[$1] @a:s: > <@b:s> q\n\nhi\n\
         [$2] @a:s: [image: f | mxc: mxc://s/f]\n\
         [$3] @a:s: [file: f | mxc: mxc://s/f]\n\
         [$4] @a:s: [audio: f | mxc: mxc://s/f]\n\
         [$5] @a:s: [video: f | mxc: mxc://s/f]\n\
         [$6] @a:s: [other]\n"
    );
    assert_eq!(
        render_history(&messages, 2),
        "[$5] @a:s: [video: f | mxc: mxc://s/f]\n[$6] @a:s: [other]\n"
    );
    assert_eq!(render_history(&messages, 1), "[$6] @a:s: [other]\n");
    assert_eq!(render_history(&messages, 0), "No messages found.");
    assert_eq!(render_history(&vec![], 10), "No messages found.");
}
