use cc_matrix_channel::content::{
    describe_message, extract_mxc_uri, strip_fallback, Media, MediaKind, MediaOrigin, MessageBody,
};
use cc_matrix_channel::verdict::{parse_permission_verdict, verdict_from};

fn media(kind: MediaKind, mimetype: Option<&str>, size: Option<u64>) -> MessageBody {
    MessageBody::Media(Media {
        kind,
        body: "name.x".to_string(),
        mimetype: mimetype.map(|t| t.to_string()),
        size,
        source: MediaOrigin::Plain("mxc://s/abc".to_string()),
        source_json: Some(r#"{"url":"mxc://s/abc"}"#.to_string()),
    })
}

#[test]
fn reply_fallback_is_removed() {
    assert_eq!(
        strip_fallback("> <@a:b> quoted\n> more\n\nmy reply"),
        "my reply"
    );
    assert_eq!(strip_fallback("> * <@a:b> waves\n\nhello"), "hello");
    assert_eq!(strip_fallback("> <@a:b> quoted\n\n> new quote"), "> new quote");
    assert_eq!(strip_fallback("> <@a:b> no newline"), "> <@a:b> no newline");
    assert_eq!(strip_fallback("> just a quote\nx"), "> just a quote\nx");
    assert_eq!(strip_fallback("> <@a:b> one\n> two"), "");
    assert_eq!(strip_fallback("plain"), "plain");
}

#[test]
fn text_is_described_without_its_fallback() {
    let body = MessageBody::Text("> <@a:b> q\n\nhi".to_string());
    let (text, files) = describe_message(&body).unwrap();
    assert_eq!(text, "hi");
    assert!(files.is_empty());
}

#[test]
fn files_are_described_with_their_defaults() {
    for (kind, label, default) in [
        (MediaKind::Image, "[Image: name.x]", "image/unknown"),
        (MediaKind::File, "[File: name.x]", "application/octet-stream"),
        (MediaKind::Audio, "[Audio: name.x]", "audio/unknown"),
        (MediaKind::Video, "[Video: name.x]", "video/unknown"),
    ] {
        let (text, files) = describe_message(&media(kind, None, None)).unwrap();
        assert_eq!(text, label);
        assert_eq!(files.len(), 1);
        assert_eq!(files[0].name, "name.x");
        assert_eq!(files[0].mime_type, default);
        assert_eq!(files[0].size, 0);
        assert_eq!(files[0].mxc_uri, "mxc://s/abc");
        assert_eq!(files[0].source_json.as_deref(), Some(r#"{"url":"mxc://s/abc"}"#));
        let (_, files) = describe_message(&media(kind, Some("a/b"), Some(7))).unwrap();
        assert_eq!(files[0].mime_type, "a/b");
        assert_eq!(files[0].size, 7);
    }
    assert!(describe_message(&MessageBody::Other).is_none());
}

#[test]
fn addresses_are_read_off_either_source() {
    let plain = MediaOrigin::Plain("mxc://s/a".to_string());
    let encrypted = MediaOrigin::Encrypted("mxc://s/b".to_string());
    assert_eq!(extract_mxc_uri(&plain), "mxc://s/a");
    assert_eq!(extract_mxc_uri(&encrypted), "mxc://s/b");
}

#[test]
fn verdicts_are_parsed() {
    for (text, behavior) in [
        ("yes abcde", "allow"),
        ("y abcde", "allow"),
        ("YES   abcde ", "allow"),
        ("no abcde", "deny"),
        ("N\tabcde", "deny"),
        ("> <@a:b> may I?\n\nyes abcde", "allow"),
    ] {
        let verdict = parse_permission_verdict(text).unwrap();
        assert_eq!(verdict.request_id, "abcde");
        assert_eq!(verdict.behavior, behavior);
    }
}

#[test]
fn other_messages_are_no_verdicts() {
    for text in [
        "",
        "yes",
        "yes abcd",
        "yes abcdef",
        "yes abcdl",
        "yes ABCDE",
        "maybe abcde",
        "yes abc de",
        "yes ab1de",
        "yesabcde",
    ] {
        assert!(parse_permission_verdict(text).is_none(), "{text:?}");
    }
}

#[test]
fn verdict_of_a_given_word() {
    assert_eq!(verdict_from("yes", " abcde ").unwrap().behavior, "allow");
    assert_eq!(verdict_from("n", "abcde").unwrap().behavior, "deny");
    assert!(verdict_from("YES", "abcde").is_none());
    assert!(verdict_from("yes", "abcd").is_none());
}
