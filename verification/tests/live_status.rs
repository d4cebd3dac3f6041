use cc_matrix_channel::clock::{Moment, Span};
use cc_matrix_channel::live_status::{
    decide, draft_delay, render_alert, render_terminal, render_working, truncate, Action, Effect,
    LiveStatus, MAX_TOTAL_LENGTH,
};
use cc_matrix_channel::status::{AgentState, AgentStatus};

const AGENT: &str = "Hal";

fn delay() -> Span {
    Span::from_secs(20)
}

fn long() -> Span {
    Span::from_secs(60)
}

fn short() -> Span {
    Span::from_secs(2)
}

fn status(state: AgentState) -> AgentStatus {
    AgentStatus {
        state,
        last_activity_age: Some(Span::from_secs(4)),
        last_tool: Some("Bash".to_string()),
        turn_elapsed: Some(Span::from_secs(200)),
    }
}

#[test]
fn first_working_tick_opens_a_draft() {
    assert_eq!(
        decide(None, AgentState::Working, false, true, Some(long()), delay()),
        Action::StartDraft
    );
}

#[test]
fn subsequent_working_ticks_edit_rather_than_send() {
    assert_eq!(
        decide(
            Some(AgentState::Working),
            AgentState::Working,
            true,
            true,
            Some(long()),
            delay()
        ),
        Action::EditDraft
    );
}

#[test]
fn unchanged_render_sends_nothing() {
    assert_eq!(
        decide(
            Some(AgentState::Working),
            AgentState::Working,
            true,
            false,
            Some(long()),
            delay()
        ),
        Action::Nothing
    );
}

#[test]
fn a_quick_turn_posts_nothing_at_all() {
    assert_eq!(
        decide(None, AgentState::Working, false, true, Some(short()), delay()),
        Action::Nothing
    );
    assert_eq!(
        decide(
            Some(AgentState::Working),
            AgentState::WaitingForUser,
            false,
            true,
            None,
            delay()
        ),
        Action::Nothing
    );
}

#[test]
fn draft_opens_once_the_turn_runs_long() {
    assert_eq!(
        decide(None, AgentState::Working, false, true, Some(long()), delay()),
        Action::StartDraft
    );
}

#[test]
fn short_turn_that_fails_still_alerts() {
    for bad in [AgentState::Stalled, AgentState::Dead] {
        assert_eq!(
            decide(Some(AgentState::Working), bad, false, true, None, delay()),
            Action::AlertOnly,
            "{bad:?} must be reported even with no draft open"
        );
    }
}

#[test]
fn terminal_transition_closes_the_draft() {
    for terminal in [
        AgentState::Stalled,
        AgentState::WaitingForUser,
        AgentState::Dead,
    ] {
        assert_eq!(
            decide(Some(AgentState::Working), terminal, true, true, None, delay()),
            Action::CloseDraft,
            "{terminal:?} should close the draft in place"
        );
    }
}

#[test]
fn only_silent_failures_raise_an_alert() {
    assert!(!AgentState::WaitingForUser.needs_alert());
    assert!(AgentState::Stalled.needs_alert());
    assert!(AgentState::Dead.needs_alert());
    assert!(!AgentState::Working.needs_alert());
    assert!(!AgentState::Unknown.needs_alert());
}

#[test]
fn alert_body_is_self_contained() {
    let stalled = render_alert(&status(AgentState::Stalled), AGENT);
    assert!(stalled.contains("stuck"));
    assert!(stalled.contains("4s"), "should carry the age: {stalled}");

    let dead = render_alert(&status(AgentState::Dead), AGENT);
    assert!(dead.contains("not running"));

    for body in [stalled, dead] {
        assert!(!body.contains("Bash"));
    }
}

#[test]
fn terminal_state_is_announced_once() {
    assert_eq!(
        decide(
            Some(AgentState::Working),
            AgentState::Stalled,
            true,
            true,
            None,
            delay()
        ),
        Action::CloseDraft
    );
    assert_eq!(
        decide(
            Some(AgentState::Stalled),
            AgentState::Stalled,
            false,
            true,
            None,
            delay()
        ),
        Action::Nothing
    );
}

#[test]
fn stall_recover_stall_fires_once_per_transition() {
    let mut has_draft = false;
    let mut previous: Option<AgentState> = None;
    let mut terminals = 0;
    let mut starts = 0;

    let sequence = [
        AgentState::Working,
        AgentState::Working,
        AgentState::Stalled,
        AgentState::Stalled,
        AgentState::Working,
        AgentState::Stalled,
        AgentState::Stalled,
    ];
    for state in sequence {
        match decide(previous, state, has_draft, true, Some(long()), delay()) {
            Action::StartDraft => {
                has_draft = true;
                starts += 1;
            }
            Action::CloseDraft | Action::AlertOnly => {
                has_draft = false;
                terminals += 1;
            }
            Action::EditDraft | Action::Nothing => {}
        }
        previous = Some(state);
    }

    assert_eq!(starts, 2, "one draft per working spell");
    assert_eq!(terminals, 2, "one announcement per stall entry");
}

#[test]
fn no_announcement_without_a_preceding_working_spell() {
    assert_eq!(
        decide(None, AgentState::WaitingForUser, false, true, None, delay()),
        Action::Nothing
    );
}

#[test]
fn unknown_state_is_never_broadcast() {
    assert_eq!(
        decide(
            Some(AgentState::Working),
            AgentState::Unknown,
            true,
            true,
            Some(long()),
            delay()
        ),
        Action::Nothing
    );
}

#[test]
fn rendered_bodies_are_metadata_only() {
    let working = render_working(&status(AgentState::Working), AGENT);
    assert!(working.contains("Bash"));
    assert!(working.contains("working"));

    let terminal = render_terminal(&status(AgentState::Stalled), AGENT);
    assert!(terminal.contains("stalled"));
    assert!(terminal.contains("3m 20s"));
}

#[test]
fn bodies_respect_the_length_cap() {
    let long = truncate("x".repeat(MAX_TOTAL_LENGTH + 5_000));
    assert_eq!(long.len(), MAX_TOTAL_LENGTH);
}

#[test]
fn cap_never_splits_a_character() {
    let mut s = "x".repeat(MAX_TOTAL_LENGTH - 1);
    s.push('é');
    assert_eq!(truncate(s), "x".repeat(MAX_TOTAL_LENGTH - 1));
    assert_eq!(truncate("é".to_string()), "é");
}

#[test]
fn bodies_are_written_out() {
    assert_eq!(
        render_working(&status(AgentState::Working), AGENT),
        "⏳ **Hal is working**\nLast activity: 4s ago\nLast tool:     Bash\nTurn elapsed:  3m 20s"
    );
    assert_eq!(
        render_terminal(&status(AgentState::Stalled), AGENT),
        "⚠️ **Hal is stalled**\nTurn ran for 3m 20s\nNo activity for 4s"
    );
    assert_eq!(
        render_terminal(&status(AgentState::Dead), AGENT),
        "❌ **Hal is not running**\nTurn ran for 3m 20s"
    );
    assert_eq!(
        render_terminal(&status(AgentState::WaitingForUser), AGENT),
        "✅ **Hal is waiting for you**\nTurn ran for 3m 20s"
    );
    assert_eq!(
        render_alert(&status(AgentState::Stalled), AGENT),
        "⚠️ **Hal looks stuck** — no activity for 4s"
    );
    assert_eq!(
        render_alert(&status(AgentState::Dead), AGENT),
        "❌ **Hal is not running** — the session ended"
    );
    let mut quiet = status(AgentState::Stalled);
    quiet.last_activity_age = None;
    assert_eq!(render_alert(&quiet, AGENT), "⚠️ **Hal looks stuck**");
}

#[test]
fn draft_delay_follows_its_setting() {
    assert_eq!(draft_delay(None), Span::from_secs(20));
    assert_eq!(draft_delay(Some("0")), Span::from_secs(0));
    assert_eq!(draft_delay(Some("45")), Span::from_secs(45));
    assert_eq!(draft_delay(Some("soon")), Span::from_secs(20));
}

#[test]
fn a_long_turn_leaves_one_message() {
    let mut live = LiveStatus::new(AGENT.to_string());
    let room = Some("!r:s");
    let working = status(AgentState::Working);

    let first = live.tick(&working, Moment::new(100, 0), delay(), room);
    assert!(matches!(first, Effect::Nothing));

    let body = match live.tick(&working, Moment::new(120, 0), delay(), room) {
        Effect::Send { room_id, body } => {
            assert_eq!(room_id, "!r:s");
            body
        }
        other => panic!("got {other:?}"),
    };
    live.draft_sent("!r:s".to_string(), Some("$e".to_string()), body);

    let same = live.tick(&working, Moment::new(123, 0), delay(), room);
    assert!(matches!(same, Effect::Nothing));

    let mut moved = status(AgentState::Working);
    moved.last_tool = Some("Read".to_string());
    match live.tick(&moved, Moment::new(126, 0), delay(), room) {
        Effect::Edit { event_id, body, .. } => {
            assert_eq!(event_id, "$e");
            assert!(body.contains("Read"));
            live.draft_edited(true, body);
        }
        other => panic!("got {other:?}"),
    }
    let same = live.tick(&moved, Moment::new(129, 0), delay(), room);
    assert!(matches!(same, Effect::Nothing));

    let done = status(AgentState::WaitingForUser);
    match live.tick(&done, Moment::new(132, 0), delay(), room) {
        Effect::Close { event_id, body, alert, .. } => {
            assert_eq!(event_id, "$e");
            assert!(body.starts_with("✅"));
            assert!(alert.is_none());
        }
        other => panic!("got {other:?}"),
    }
    let again = live.tick(&done, Moment::new(135, 0), delay(), room);
    assert!(matches!(again, Effect::Nothing));
}

#[test]
fn a_spell_sends_one_message_and_an_alert_where_it_fails() {
    let room = Some("!r:s");
    for (end, expected) in [
        (AgentState::WaitingForUser, 1),
        (AgentState::Stalled, 2),
        (AgentState::Dead, 2),
    ] {
        let mut live = LiveStatus::new(AGENT.to_string());
        let mut sent = 0;
        for second in 0..60u64 {
            let state = if second == 59 {
                end
            } else if second == 40 {
                AgentState::Unknown
            } else {
                AgentState::Working
            };
            let mut seen = status(state);
            seen.turn_elapsed = Some(Span::from_secs(second));
            match live.tick(&seen, Moment::new(100 + second as i64, 0), delay(), room) {
                Effect::Nothing => assert!(second < 20 || second == 40),
                Effect::Send { room_id, body } => {
                    assert_eq!(second, 20);
                    sent += 1;
                    live.draft_sent(room_id, Some("$e".to_string()), body);
                }
                Effect::Edit { event_id, body, .. } => {
                    assert_eq!(event_id, "$e");
                    live.draft_edited(second % 2 == 0, body);
                }
                Effect::Close { event_id, alert, .. } => {
                    assert_eq!(event_id, "$e");
                    assert_eq!(second, 59);
                    sent += alert.iter().count();
                }
                Effect::Alert { .. } => panic!("an alert without its message"),
            }
        }
        assert_eq!(sent, expected);
        assert!(live.draft.is_none());
    }
}

#[test]
fn a_failed_edit_is_tried_again() {
    let mut live = LiveStatus::new(AGENT.to_string());
    live.draft_sent("!r:s".to_string(), Some("$e".to_string()), "old".to_string());
    let working = status(AgentState::Working);
    for _ in 0..2 {
        match live.tick(&working, Moment::new(1, 0), delay(), None) {
            Effect::Edit { body, .. } => live.draft_edited(false, body),
            other => panic!("got {other:?}"),
        }
    }
}

#[test]
fn a_failed_send_leaves_no_draft() {
    let mut live = LiveStatus::new(AGENT.to_string());
    live.draft_sent("!r:s".to_string(), None, "body".to_string());
    assert!(live.draft.is_none());
}

#[test]
fn a_stall_with_a_draft_edits_and_alerts() {
    let mut live = LiveStatus::new(AGENT.to_string());
    live.draft_sent("!r:s".to_string(), Some("$e".to_string()), "old".to_string());
    match live.tick(&status(AgentState::Stalled), Moment::new(1, 0), delay(), None) {
        Effect::Close { room_id, alert, .. } => {
            assert_eq!(room_id, "!r:s");
            assert_eq!(
                alert.as_deref(),
                Some("⚠️ **Hal looks stuck** — no activity for 4s")
            );
        }
        other => panic!("got {other:?}"),
    }
    assert!(live.draft.is_none());
}

#[test]
fn an_alert_needs_a_room() {
    let dead = status(AgentState::Dead);
    let mut live = LiveStatus::new(AGENT.to_string());
    assert!(matches!(
        live.tick(&dead, Moment::new(1, 0), delay(), None),
        Effect::Nothing
    ));
    let mut live = LiveStatus::new(AGENT.to_string());
    match live.tick(&dead, Moment::new(1, 0), delay(), Some("!r:s")) {
        Effect::Alert { room_id, body } => {
            assert_eq!(room_id, "!r:s");
            assert!(body.contains("not running"));
        }
        other => panic!("got {other:?}"),
    }
}
