use cc_matrix_channel::calendar::parse_timestamp;
use cc_matrix_channel::clock::{Moment, Span};
use cc_matrix_channel::json::{parse_json, Json};
use cc_matrix_channel::status::{
    classify, format_duration, parse_lines, read_status, read_status_at, read_tail,
    stall_threshold, status_of_values, tail_start, whole_lines, AgentState, AgentStatus, Record,
    Transcript, TAIL_BYTES,
};
use cc_matrix_channel::transcript::{
    claude_alive, newest_jsonl, process_dir, project_dir, resolve_transcript, session_file,
    slug_for_cwd, transcript_path, transcript_path_with_source, Listed, TranscriptSource,
};

fn stall() -> Span {
    Span::from_secs(300)
}

fn at(s: &str) -> Moment {
    let secs = parse_timestamp(s).expect("fixture timestamp should parse");
    Moment::new(secs as i64, 0)
}

fn tail_of(lines: &[&str]) -> String {
    let mut bytes: Vec<u8> = Vec::new();
    for l in lines {
        bytes.extend_from_slice(l.as_bytes());
        bytes.push(b'\n');
    }
    let start = tail_start(bytes.len() as u64);
    let rest = bytes[start as usize..].to_vec();
    read_tail(&rest, start)
}

fn status_of(lines: &[&str], now: &str) -> AgentStatus {
    let tail = tail_of(lines);
    read_status_at(None, Some(&tail), stall(), at(now))
}

const PROMPT: &str = r#"{"type":"user","timestamp":"2026-08-08T12:00:00.000Z","message":{"content":[{"type":"text","text":"do the thing"}]}}"#;
const TOOL_USE: &str = r#"{"type":"assistant","timestamp":"2026-08-08T12:00:05.000Z","message":{"content":[{"type":"tool_use","name":"Bash","input":{"command":"secret-command"}}]}}"#;
const TOOL_RESULT: &str = r#"{"type":"user","timestamp":"2026-08-08T12:00:07.000Z","toolUseResult":{"stdout":"secret-output"},"message":{"content":[{"type":"tool_result"}]}}"#;
const TEXT: &str = r#"{"type":"assistant","timestamp":"2026-08-08T12:00:09.000Z","message":{"content":[{"type":"text","text":"here is my secret answer"}]}}"#;
const NOISE: &str = r#"{"type":"mode","sessionId":"x","mode":"normal"}"#;

#[test]
fn timestamp_parsing_matches_known_epoch() {
    assert_eq!(parse_timestamp("2026-08-08T12:00:00.000Z"), Some(1_786_190_400));
    assert_eq!(parse_timestamp("1970-01-01T00:00:00.000Z"), Some(0));
    assert_eq!(parse_timestamp("2024-02-29T00:00:00.000Z"), Some(1_709_164_800));
    assert!(parse_timestamp("not-a-timestamp").is_none());
}

#[test]
fn tool_use_tail_is_working() {
    let s = status_of(&[PROMPT, TOOL_USE], "2026-08-08T12:00:06.000Z");
    assert_eq!(s.state, AgentState::Working);
    assert_eq!(s.last_tool.as_deref(), Some("Bash"));
    assert_eq!(s.last_activity_age, Some(Span::from_secs(1)));
    assert_eq!(s.turn_elapsed, Some(Span::from_secs(6)));
}

#[test]
fn tool_result_tail_is_working() {
    let s = status_of(&[PROMPT, TOOL_USE, TOOL_RESULT], "2026-08-08T12:00:08.000Z");
    assert_eq!(s.state, AgentState::Working);
}

#[test]
fn recent_text_tail_is_still_working() {
    let s = status_of(&[PROMPT, TEXT], "2026-08-08T12:00:11.000Z");
    assert_eq!(s.state, AgentState::Working);
}

#[test]
fn settled_text_tail_is_waiting_for_user() {
    let s = status_of(&[PROMPT, TEXT], "2026-08-08T12:00:30.000Z");
    assert_eq!(s.state, AgentState::WaitingForUser);
    assert_eq!(s.turn_elapsed, None);
    assert_eq!(s.last_tool, None);
}

#[test]
fn old_tool_use_is_stalled() {
    let s = status_of(&[PROMPT, TOOL_USE], "2026-08-08T12:10:00.000Z");
    assert_eq!(s.state, AgentState::Stalled);
    assert_eq!(s.last_tool.as_deref(), Some("Bash"));
}

#[test]
fn old_text_tail_is_not_stalled() {
    let s = status_of(&[PROMPT, TEXT], "2026-08-08T14:00:00.000Z");
    assert_eq!(s.state, AgentState::WaitingForUser);
}

#[test]
fn untimestamped_records_do_not_reset_activity_age() {
    let s = status_of(&[PROMPT, TOOL_USE, NOISE], "2026-08-08T12:00:06.000Z");
    assert_eq!(s.state, AgentState::Working);
    assert_eq!(s.last_activity_age, Some(Span::from_secs(1)));
}

#[test]
fn malformed_and_truncated_lines_are_skipped() {
    let truncated = r#"{"type":"assistant","timestamp":"2026-08-08T12:00:0"#;
    let s = status_of(
        &[PROMPT, TOOL_USE, "not json at all", truncated],
        "2026-08-08T12:00:06.000Z",
    );
    assert_eq!(s.state, AgentState::Working);
    assert_eq!(s.last_tool.as_deref(), Some("Bash"));
}

#[test]
fn empty_transcript_is_unknown() {
    let s = status_of(&[], "2026-08-08T12:00:06.000Z");
    assert_eq!(s.state, AgentState::Unknown);
}

#[test]
fn missing_transcript_is_unknown() {
    let s = read_status_at(None, None, stall(), at("2026-08-08T12:00:00.000Z"));
    assert_eq!(s.state, AgentState::Unknown);
}

#[test]
fn render_contains_no_transcript_content() {
    for now in [
        "2026-08-08T12:00:06.000Z",
        "2026-08-08T12:00:30.000Z",
        "2026-08-08T12:10:00.000Z",
    ] {
        let rendered = status_of(&[PROMPT, TOOL_USE, TOOL_RESULT, TEXT], now).render();
        for secret in [
            "secret-command",
            "secret-output",
            "secret answer",
            "do the thing",
        ] {
            assert!(
                !rendered.contains(secret),
                "status leaked {secret:?} at {now}: {rendered}"
            );
        }
    }
}

#[test]
fn render_includes_tool_name_only() {
    let rendered = status_of(&[PROMPT, TOOL_USE], "2026-08-08T12:00:06.000Z").render();
    assert!(rendered.contains("Bash"));
    assert!(!rendered.contains("command"));
}

#[test]
fn tail_reads_only_the_last_chunk() {
    let filler = format!(
        r#"{{"type":"assistant","timestamp":"2026-08-08T11:00:00.000Z","message":{{"content":[{{"type":"text","text":"{}"}}]}}}}"#,
        "x".repeat(500)
    );
    let mut lines: Vec<&str> = vec![filler.as_str(); 400];
    lines.push(PROMPT);
    lines.push(TOOL_USE);
    let total: usize = lines.iter().map(|l| l.len() + 1).sum();
    assert!(total as u64 > TAIL_BYTES);
    let tail = tail_of(&lines);
    assert!((tail.len() as u64) < TAIL_BYTES);
    assert!(tail.starts_with("{\"type\""));
    let s = status_of(&lines, "2026-08-08T12:00:06.000Z");
    assert_eq!(s.state, AgentState::Working);
    assert_eq!(s.last_tool.as_deref(), Some("Bash"));
}

fn file(name: &str, modified: i128) -> Listed {
    Listed {
        name: name.to_string(),
        modified: Some(modified),
    }
}

#[test]
fn session_id_with_no_transcript_yet_refuses_to_guess() {
    let listing = vec![file("another-session.jsonl", 1)];
    let resolved = resolve_transcript("/projects/-x", Some("my-session"), false, Some(&listing));
    assert_eq!(resolved, None);
}

#[test]
fn session_id_resolves_to_that_sessions_own_transcript() {
    let listing = vec![file("my-session.jsonl", 1), file("another-session.jsonl", 2)];
    let (path, source) =
        resolve_transcript("/projects/-x", Some("my-session"), true, Some(&listing)).unwrap();
    assert_eq!(path, "/projects/-x/my-session.jsonl");
    assert_eq!(source, TranscriptSource::SessionId);
}

#[test]
fn without_a_session_id_the_newest_transcript_is_still_used() {
    let listing = vec![file("only-session.jsonl", 1)];
    let (path, source) = resolve_transcript("/projects/-x", None, false, Some(&listing)).unwrap();
    assert_eq!(path, "/projects/-x/only-session.jsonl");
    assert_eq!(source, TranscriptSource::NewestFallback);
}

#[test]
fn cwd_slugging_matches_claude_code_layout() {
    assert_eq!(slug_for_cwd("/workspace"), "-workspace");
    assert_eq!(slug_for_cwd("/home/node/x"), "-home-node-x");
}

#[test]
fn terminal_states_are_the_ones_that_need_a_push() {
    assert!(AgentState::Stalled.is_terminal());
    assert!(AgentState::Dead.is_terminal());
    assert!(AgentState::WaitingForUser.is_terminal());
    assert!(!AgentState::Working.is_terminal());
    assert!(!AgentState::Unknown.is_terminal());
}

#[test]
fn duration_formatting() {
    assert_eq!(format_duration(Span::from_secs(4)), "4s");
    assert_eq!(format_duration(Span::from_secs(200)), "3m 20s");
    assert_eq!(format_duration(Span::from_secs(8040)), "2h 14m");
}

#[test]
fn duration_formatting_at_the_edges() {
    assert_eq!(format_duration(Span::from_secs(0)), "0s");
    assert_eq!(format_duration(Span::new(59, 999_999_999)), "59s");
    assert_eq!(format_duration(Span::from_secs(60)), "1m 0s");
    assert_eq!(format_duration(Span::from_secs(3599)), "59m 59s");
    assert_eq!(format_duration(Span::from_secs(3600)), "1h 0m");
}

#[test]
fn spans_and_moments_measure_to_the_nanosecond() {
    let early = Moment::new(10, 900_000_000);
    let late = Moment::new(12, 100_000_000);
    assert_eq!(late.since(&early), Some(Span::new(1, 200_000_000)));
    assert_eq!(early.since(&late), None);
    assert_eq!(early.since(&early), Some(Span::from_secs(0)));
    assert_eq!(Moment::new(5, 0).since(&Moment::new(-5, 0)), Some(Span::from_secs(10)));
    assert!(Span::new(1, 5).shorter_than(&Span::new(1, 6)));
    assert!(!Span::new(2, 0).shorter_than(&Span::new(1, 999_999_999)));
    assert_eq!(Span::new(7, 999_999_999).as_secs(), 7);
}

#[test]
fn status_renders_every_line() {
    let s = AgentStatus {
        state: AgentState::Working,
        last_activity_age: Some(Span::from_secs(4)),
        last_tool: Some("Bash".to_string()),
        turn_elapsed: Some(Span::from_secs(200)),
    };
    assert_eq!(
        s.render(),
        "Agent:    working\nLast activity: 4s ago\nLast tool:     Bash\nTurn elapsed:  3m 20s"
    );
    assert_eq!(AgentStatus::unknown().render(), "Agent:    unknown");
}

#[test]
fn states_have_words() {
    assert_eq!(AgentState::Working.words(), "working");
    assert_eq!(AgentState::WaitingForUser.words(), "waiting for you");
    assert_eq!(AgentState::Stalled.words(), "stalled");
    assert_eq!(AgentState::Dead.words(), "not running");
    assert_eq!(AgentState::Unknown.words(), "unknown");
    assert_eq!(TranscriptSource::SessionId.words(), "session-id");
    assert_eq!(TranscriptSource::NewestFallback.words(), "newest-fallback");
}

#[test]
fn stall_threshold_follows_its_setting() {
    assert_eq!(stall_threshold(None), Span::from_secs(300));
    assert_eq!(stall_threshold(Some("60")), Span::from_secs(60));
    assert_eq!(stall_threshold(Some("+60")), Span::from_secs(60));
    assert_eq!(stall_threshold(Some("0")), Span::from_secs(300));
    assert_eq!(stall_threshold(Some(" 60")), Span::from_secs(300));
    assert_eq!(stall_threshold(Some("-1")), Span::from_secs(300));
    assert_eq!(stall_threshold(Some("")), Span::from_secs(300));
    assert_eq!(stall_threshold(Some("18446744073709551616")), Span::from_secs(300));
}

#[test]
fn a_process_that_is_gone_is_dead_if_there_is_a_transcript() {
    let now = at("2026-08-08T12:00:06.000Z");
    let s = read_status_at(Some(false), Some(PROMPT), stall(), now);
    assert_eq!(s.state, AgentState::Dead);
    assert_eq!(s.last_activity_age, None);
    let s = read_status(&Transcript::Missing, Some(false), stall(), now);
    assert_eq!(s.state, AgentState::Unknown);
    let s = read_status(&Transcript::Unreadable, Some(false), stall(), now);
    assert_eq!(s.state, AgentState::Dead);
    let s = read_status(&Transcript::Unreadable, Some(true), stall(), now);
    assert_eq!(s.state, AgentState::Unknown);
    let tail = Transcript::Tail(format!("{PROMPT}\n{TOOL_USE}\n"));
    let s = read_status(&tail, Some(true), stall(), now);
    assert_eq!(s.state, AgentState::Working);
}

#[test]
fn a_clock_behind_the_transcript_gives_no_age() {
    let s = status_of(&[PROMPT, TOOL_USE], "2026-08-08T11:00:00.000Z");
    assert_eq!(s.state, AgentState::Working);
    assert_eq!(s.last_activity_age, None);
    assert_eq!(s.turn_elapsed, None);
}

#[test]
fn stalling_begins_beyond_the_threshold() {
    let s = status_of(&[PROMPT, TOOL_USE], "2026-08-08T12:05:05.000Z");
    assert_eq!(s.state, AgentState::Working);
    let s = status_of(&[PROMPT, TOOL_USE], "2026-08-08T12:05:06.000Z");
    assert_eq!(s.state, AgentState::Stalled);
}

#[test]
fn records_are_classified() {
    let unnamed = r#"{"type":"assistant","message":{"content":[{"type":"text"},{"type":"tool_use"}]}}"#;
    match classify(&parse_json(unnamed).unwrap()) {
        Some(Record::ToolUse(name)) => assert_eq!(name, "(unnamed)"),
        other => panic!("got {other:?}"),
    }
    assert!(matches!(classify(&parse_json(TEXT).unwrap()), Some(Record::AssistantText)));
    assert!(matches!(classify(&parse_json(TOOL_RESULT).unwrap()), Some(Record::ToolResult)));
    assert!(matches!(classify(&parse_json(PROMPT).unwrap()), Some(Record::UserPrompt)));
    assert!(classify(&parse_json(NOISE).unwrap()).is_none());
    assert!(classify(&parse_json("[1]").unwrap()).is_none());
    let no_blocks = r#"{"type":"assistant","message":{"content":"hi"}}"#;
    assert!(classify(&parse_json(no_blocks).unwrap()).is_none());
}

#[test]
fn a_new_prompt_clears_the_last_tool() {
    let s = status_of(&[PROMPT, TOOL_USE, TOOL_RESULT, PROMPT], "2026-08-08T12:00:08.000Z");
    assert_eq!(s.last_tool, None);
    assert_eq!(s.turn_elapsed, Some(Span::from_secs(8)));
}

#[test]
fn status_of_records_given_as_values() {
    let record = Json::Object(vec![
        ("type".to_string(), Json::Str("user".to_string())),
        (
            "timestamp".to_string(),
            Json::Str("2026-08-08T12:00:00.000Z".to_string()),
        ),
    ]);
    let s = status_of_values(&vec![record], stall(), at("2026-08-08T12:00:03.000Z"));
    assert_eq!(s.state, AgentState::Working);
    assert_eq!(s.turn_elapsed, Some(Span::from_secs(3)));
}

#[test]
fn json_is_read() {
    let value = parse_json(r#" {"b":[1,true,null],"a":"x"} "#).unwrap();
    assert_eq!(value.get_str("a"), Some("x"));
    assert_eq!(value.get("c").is_none(), true);
    match value.get("b") {
        Some(Json::Array(items)) => {
            assert!(matches!(&items[0], Json::Number(n) if n == "1"));
            assert!(matches!(items[1], Json::Bool(true)));
            assert!(matches!(items[2], Json::Null));
        }
        other => panic!("got {other:?}"),
    }
    assert!(parse_json("{").is_none());
    assert_eq!(parse_lines("1\n\n  \nx\r\n\"y\"").len(), 2);
}

#[test]
fn partial_first_line_is_dropped() {
    assert_eq!(whole_lines("abc\ndef\n", 0), "abc\ndef\n");
    assert_eq!(whole_lines("abc\ndef\n", 7), "def\n");
    assert_eq!(whole_lines("abc", 7), "");
    assert_eq!(tail_start(TAIL_BYTES), 0);
    assert_eq!(tail_start(TAIL_BYTES + 5), 5);
    assert_eq!(read_tail(&vec![0x61, 0xff, 0x62], 0), "a\u{fffd}b");
}

#[test]
fn the_newest_transcript_is_the_first_of_the_latest() {
    let listing = vec![
        file("a.jsonl", 3),
        file("b.jsonl", 5),
        file("c.jsonl", 5),
        file("d.json", 9),
        file(".jsonl", 9),
        Listed {
            name: "e.jsonl".to_string(),
            modified: None,
        },
    ];
    assert_eq!(newest_jsonl("/d", &listing).as_deref(), Some("/d/b.jsonl"));
    assert_eq!(newest_jsonl("/d", &vec![file("x.txt", 1)]), None);
    assert_eq!(resolve_transcript("/d", None, true, None), None);
}

#[test]
fn transcript_is_found_below_the_home_directory() {
    let listing = vec![file("s.jsonl", 1)];
    assert_eq!(project_dir("/home/u", "/w", "Hal"), "/home/u/.hal/projects/-w");
    assert_eq!(session_file("/d/", "s"), "/d/s.jsonl");
    assert_eq!(
        transcript_path("Hal", Some("/home/u"), Some("/w.x"), Some("s"), true, None).as_deref(),
        Some("/home/u/.hal/projects/-w-x/s.jsonl")
    );
    assert_eq!(
        transcript_path_with_source("Hal", Some("/home/u"), Some("/w"), None, false, Some(&listing)),
        Some((
            "/home/u/.hal/projects/-w/s.jsonl".to_string(),
            TranscriptSource::NewestFallback
        ))
    );
    assert_eq!(transcript_path("Hal", None, Some("/w"), Some("s"), true, None), None);
    assert_eq!(transcript_path("Hal", Some("/h"), None, Some("s"), true, None), None);
}

#[test]
fn liveness_is_unknown_without_a_process_id() {
    assert_eq!(claude_alive(None, true), None);
    assert_eq!(claude_alive(Some("12x"), true), None);
    assert_eq!(claude_alive(Some("123"), true), Some(true));
    assert_eq!(claude_alive(Some("123"), false), Some(false));
    assert_eq!(process_dir(Some("123")).as_deref(), Some("/proc/123"));
    assert_eq!(process_dir(Some("../x")), None);
}
