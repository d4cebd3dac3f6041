//! What holds of the live status message whatever the agent does.

use vstd::prelude::*;

use crate::live_status;
use crate::live_status::{Action, DraftModel, EffectModel, LiveModel, MAX_TOTAL_LENGTH};
use crate::numbers;
use crate::numbers_laws;
use crate::status;
use crate::status::{AgentState, StatusModel};
use crate::text;

verus! {

/// No information is never broadcast as if it were a result.
pub proof fn lemma_unknown_is_never_broadcast(
    live: LiveModel,
    m: StatusModel,
    now: int,
    delay: int,
    target: Option<Seq<char>>,
)
    requires
        m.state == AgentState::Unknown,
    ensures
        live.effect(m, now, delay, target) == EffectModel::Nothing,
        live.after(m, now, delay).draft == live.draft,
{
}

/// A state that ends a spell is announced when it is entered, and not again for as long as it
/// lasts.
pub proof fn lemma_terminal_state_is_announced_once(
    live: LiveModel,
    first: StatusModel,
    again: StatusModel,
    now: int,
    later: int,
    delay: int,
    target: Option<Seq<char>>,
)
    requires
        status::terminal(first.state),
        again.state == first.state,
    ensures
        live.after(first, now, delay).effect(again, later, delay, target) == EffectModel::Nothing,
        live.after(first, now, delay).after(again, later, delay) == live.after(first, now, delay),
{
}

/// A turn that has not lasted for the delay leaves the room as it was, and so does its normal end.
pub proof fn lemma_quick_turn_posts_nothing(
    live: LiveModel,
    working: StatusModel,
    done: StatusModel,
    now: int,
    later: int,
    delay: int,
    target: Option<Seq<char>>,
)
    requires
        live.draft is None,
        working.state == AgentState::Working,
        live.working_for(working, now)->0 < delay,
        done.state == AgentState::WaitingForUser,
    ensures
        live.effect(working, now, delay, target) == EffectModel::Nothing,
        live.after(working, now, delay).draft is None,
        live.after(working, now, delay).effect(done, later, delay, target)
            == EffectModel::Nothing,
{
}

/// What the loop remembers after looks that had it send nothing.
pub open spec fn after_looks(
    live: LiveModel,
    looks: Seq<(StatusModel, int)>,
    delay: int,
) -> LiveModel
    decreases looks.len(),
{
    if looks.len() == 0 {
        live
    } else {
        after_looks(live, looks.drop_last(), delay).after(
            looks.last().0,
            looks.last().1,
            delay,
        )
    }
}

/// However often the loop looks at an agent that stays in a state that ended a spell, nothing is
/// sent after that state was first seen.
pub proof fn lemma_lasting_state_stays_silent(
    live: LiveModel,
    looks: Seq<(StatusModel, int)>,
    at: int,
    delay: int,
    target: Option<Seq<char>>,
)
    requires
        live.previous matches Some(state) && status::terminal(state),
        0 <= at < looks.len(),
        forall|i: int| 0 <= i <= at ==> (#[trigger] looks[i]).0.state == live.previous->0,
    ensures
        after_looks(live, looks.take(at), delay).effect(looks[at].0, looks[at].1, delay, target)
            == EffectModel::Nothing,
        after_looks(live, looks.take(at), delay).previous == live.previous,
        after_looks(live, looks.take(at), delay).draft == live.draft,
    decreases at,
{
    if at > 0 {
        lemma_lasting_state_stays_silent(live, looks, at - 1, delay, target);
        let seen = looks.take(at);
        assert(seen.drop_last() =~= looks.take(at - 1));
        assert(seen.last() == looks[at - 1]);
    } else {
        assert(looks.take(0) =~= Seq::empty());
    }
}

/// However often the loop looks at a turn before it has lasted for the delay, nothing is sent.
pub proof fn lemma_short_turn_stays_silent(
    live: LiveModel,
    looks: Seq<(StatusModel, int)>,
    at: int,
    delay: int,
    target: Option<Seq<char>>,
)
    requires
        live.draft is None,
        live.since is None,
        0 <= at < looks.len(),
        forall|i: int|
            0 <= i <= at ==> (#[trigger] looks[i]).0.state == AgentState::Working && looks[0].1
                <= looks[i].1 < looks[0].1 + delay,
    ensures
        after_looks(live, looks.take(at), delay).effect(looks[at].0, looks[at].1, delay, target)
            == EffectModel::Nothing,
        after_looks(live, looks.take(at), delay).draft is None,
        after_looks(live, looks.take(at), delay).since == if at == 0 {
            None
        } else {
            Some(looks[0].1)
        },
    decreases at,
{
    if at > 0 {
        lemma_short_turn_stays_silent(live, looks, at - 1, delay, target);
        let seen = looks.take(at);
        assert(seen.drop_last() =~= looks.take(at - 1));
        assert(seen.last() == looks[at - 1]);
    } else {
        assert(looks.take(0) =~= Seq::empty());
    }
}

/// A turn that has lasted for the delay opens a message where there is none.
pub proof fn lemma_long_turn_opens_a_draft(
    live: LiveModel,
    m: StatusModel,
    now: int,
    delay: int,
    room: Seq<char>,
)
    requires
        live.draft is None,
        m.state == AgentState::Working,
        live.working_for(m, now)->0 >= delay,
    ensures
        live.effect(m, now, delay, Some(room)) == (EffectModel::Send {
            room,
            body: live_status::working_body(m, live.agent),
        }),
{
}

/// Once a spell has its message, work is shown by edits of that message: no other is sent, and an
/// edit is sent only to say something new.
pub proof fn lemma_one_message_per_spell(
    live: LiveModel,
    m: StatusModel,
    now: int,
    delay: int,
    target: Option<Seq<char>>,
)
    requires
        live.draft is Some,
        m.state == AgentState::Working,
    ensures
        live.after(m, now, delay).draft == live.draft,
        live.effect(m, now, delay, target) == if live.draft->0.rendered
            == live_status::working_body(m, live.agent) {
            EffectModel::Nothing
        } else {
            EffectModel::Edit {
                room: live.draft->0.room,
                event: live.draft->0.event,
                body: live_status::working_body(m, live.agent),
            }
        },
{
}

/// One look at the agent: what it is doing, when that was, and whether an edit that the look led to
/// went through.
pub struct Look {
    pub status: StatusModel,
    pub now: int,
    pub landed: bool,
}

/// What the loop remembers once what a look led to was carried out: a new message went out as
/// `event`, and an edit went through or did not.
pub open spec fn settled(
    live: LiveModel,
    look: Look,
    delay: int,
    target: Option<Seq<char>>,
    event: Seq<char>,
) -> LiveModel {
    let next = live.after(look.status, look.now, delay);
    match live.effect(look.status, look.now, delay, target) {
        EffectModel::Send { room, body } => LiveModel {
            draft: Some(DraftModel { room, event, rendered: body }),
            ..next
        },
        EffectModel::Edit { body, .. } => if look.landed {
            LiveModel { draft: Some(DraftModel { rendered: body, ..next.draft->0 }), ..next }
        } else {
            next
        },
        _ => next,
    }
}

/// What the loop remembers after the first `n` looks.
pub open spec fn after_first(
    live: LiveModel,
    looks: Seq<Look>,
    n: nat,
    delay: int,
    target: Option<Seq<char>>,
    event: Seq<char>,
) -> LiveModel
    decreases n,
{
    if n == 0 {
        live
    } else {
        settled(
            after_first(live, looks, (n - 1) as nat, delay, target, event),
            looks[n - 1],
            delay,
            target,
            event,
        )
    }
}

/// What the look at index `i` leads to.
pub open spec fn effect_at(
    live: LiveModel,
    looks: Seq<Look>,
    i: int,
    delay: int,
    target: Option<Seq<char>>,
    event: Seq<char>,
) -> EffectModel {
    after_first(live, looks, i as nat, delay, target, event).effect(
        looks[i].status,
        looks[i].now,
        delay,
        target,
    )
}

/// How many new messages a room gets, each of which may make a phone buzz; edits are none.
pub open spec fn new_messages(effect: EffectModel) -> nat {
    match effect {
        EffectModel::Send { .. } => 1,
        EffectModel::Alert { .. } => 1,
        EffectModel::Close { alert, .. } => if alert is Some {
            1
        } else {
            0
        },
        _ => 0,
    }
}

/// How many new messages the first `n` looks lead to.
pub open spec fn sent_by_first(
    live: LiveModel,
    looks: Seq<Look>,
    n: nat,
    delay: int,
    target: Option<Seq<char>>,
    event: Seq<char>,
) -> nat
    decreases n,
{
    if n == 0 {
        0
    } else {
        sent_by_first(live, looks, (n - 1) as nat, delay, target, event) + new_messages(
            effect_at(live, looks, n - 1, delay, target, event),
        )
    }
}

/// Whether `looks` are a working spell that no message is open for yet: up to the look at `opens`
/// the agent works, for less than the delay before it and for the delay or longer at it; then it
/// works, or nothing is known of it, until the last look, which sees a state that ends the spell.
pub open spec fn is_spell(live: LiveModel, looks: Seq<Look>, opens: int, delay: int) -> bool {
    &&& live.draft is None
    &&& live.since is None
    &&& 0 <= opens < looks.len() - 1
    &&& forall|i: int|
        0 <= i <= opens ==> (#[trigger] looks[i]).status.state == AgentState::Working
            && looks[0].now <= looks[i].now
    &&& forall|i: int| 0 <= i < opens ==> (#[trigger] looks[i]).now < looks[0].now + delay
    &&& looks[opens].now >= looks[0].now + delay
    &&& forall|i: int|
        opens < i < looks.len() - 1 ==> (#[trigger] looks[i]).status.state == AgentState::Working
            || looks[i].status.state == AgentState::Unknown
    &&& status::terminal(looks.last().status.state)
}

/// Before the message of a spell is opened, nothing is sent.
proof fn lemma_spell_before_opening(
    live: LiveModel,
    looks: Seq<Look>,
    opens: int,
    n: nat,
    delay: int,
    room: Seq<char>,
    event: Seq<char>,
)
    requires
        is_spell(live, looks, opens, delay),
        n <= opens,
    ensures
        ({
            let before = after_first(live, looks, n, delay, Some(room), event);
            &&& before.draft is None
            &&& before.agent == live.agent
            &&& before.since == if n == 0 {
                None
            } else {
                Some(looks[0].now)
            }
        }),
        forall|i: int|
            0 <= i < n ==> #[trigger] effect_at(live, looks, i, delay, Some(room), event)
                == EffectModel::Nothing,
        sent_by_first(live, looks, n, delay, Some(room), event) == 0,
    decreases n,
{
    if n > 0 {
        let last = n - 1;
        lemma_spell_before_opening(live, looks, opens, last as nat, delay, room, event);
        assert(looks[last].status.state == AgentState::Working);
        assert(effect_at(live, looks, last, delay, Some(room), event) == EffectModel::Nothing);
    }
}

/// Once the message of a spell is open, it is edited, until the spell ends.
proof fn lemma_spell_after_opening(
    live: LiveModel,
    looks: Seq<Look>,
    opens: int,
    n: nat,
    delay: int,
    room: Seq<char>,
    event: Seq<char>,
)
    requires
        is_spell(live, looks, opens, delay),
        opens < n < looks.len(),
    ensures
        ({
            let before = after_first(live, looks, n, delay, Some(room), event);
            &&& before.draft matches Some(d) && d.room == room && d.event == event
            &&& before.agent == live.agent
            &&& before.previous == Some(looks[n - 1].status.state)
            &&& !status::terminal(looks[n - 1].status.state)
        }),
        effect_at(live, looks, opens, delay, Some(room), event) == (EffectModel::Send {
            room,
            body: live_status::working_body(looks[opens].status, live.agent),
        }),
        forall|i: int|
            opens < i < n ==> match #[trigger] effect_at(live, looks, i, delay, Some(room), event) {
                EffectModel::Nothing => true,
                EffectModel::Edit { room: r, event: e, body } => r == room && e == event && body
                    == live_status::working_body(looks[i].status, live.agent),
                _ => false,
            },
        sent_by_first(live, looks, n, delay, Some(room), event) == 1,
    decreases n,
{
    let last = n - 1;
    if last == opens {
        lemma_spell_before_opening(live, looks, opens, opens as nat, delay, room, event);
        assert(looks[opens].status.state == AgentState::Working);
    } else {
        lemma_spell_after_opening(live, looks, opens, last as nat, delay, room, event);
        let state = looks[last].status.state;
        assert(state == AgentState::Working || state == AgentState::Unknown);
        let effect = effect_at(live, looks, last, delay, Some(room), event);
        assert(match effect {
            EffectModel::Nothing => true,
            EffectModel::Edit { room: r, event: e, body } => r == room && e == event && body
                == live_status::working_body(looks[last].status, live.agent),
            _ => false,
        });
    }
}

/// A working spell that lasts leaves one status message: nothing is sent before it has lasted for
/// the delay, then its message is, and whatever follows edits that message, the state that ends
/// the spell included. The end sends one new message more, the alert, exactly where the agent is
/// stuck or gone.
pub proof fn lemma_spell_leaves_one_message(
    live: LiveModel,
    looks: Seq<Look>,
    opens: int,
    delay: int,
    room: Seq<char>,
    event: Seq<char>,
)
    requires
        is_spell(live, looks, opens, delay),
    ensures
        forall|i: int|
            0 <= i < opens ==> #[trigger] effect_at(live, looks, i, delay, Some(room), event)
                == EffectModel::Nothing,
        effect_at(live, looks, opens, delay, Some(room), event) == (EffectModel::Send {
            room,
            body: live_status::working_body(looks[opens].status, live.agent),
        }),
        forall|i: int|
            opens < i < looks.len() - 1 ==> match #[trigger] effect_at(
                live,
                looks,
                i,
                delay,
                Some(room),
                event,
            ) {
                EffectModel::Nothing => true,
                EffectModel::Edit { room: r, event: e, body } => r == room && e == event && body
                    == live_status::working_body(looks[i].status, live.agent),
                _ => false,
            },
        effect_at(live, looks, looks.len() - 1, delay, Some(room), event) == (EffectModel::Close {
            room,
            event,
            body: live_status::terminal_body(looks.last().status, live.agent),
            alert: if status::alarming(looks.last().status.state) {
                Some(live_status::alert_body(looks.last().status, live.agent))
            } else {
                None
            },
        }),
        sent_by_first(live, looks, looks.len(), delay, Some(room), event) == if status::alarming(
            looks.last().status.state,
        ) {
            2nat
        } else {
            1nat
        },
        after_first(live, looks, looks.len(), delay, Some(room), event).draft is None,
        after_first(live, looks, looks.len(), delay, Some(room), event).since is None,
{
    let end = (looks.len() - 1) as nat;
    lemma_spell_before_opening(live, looks, opens, opens as nat, delay, room, event);
    lemma_spell_after_opening(live, looks, opens, end, delay, room, event);
}

/// An agent that gets stuck or dies is reported by a new message, in the room of the spell's
/// message or, where there is none, in the room for new messages.
pub proof fn lemma_silent_failure_raises_an_alert(
    live: LiveModel,
    m: StatusModel,
    now: int,
    delay: int,
    room: Seq<char>,
)
    requires
        status::alarming(m.state),
        live.previous != Some(m.state),
    ensures
        match live.draft {
            Some(d) => live.effect(m, now, delay, Some(room)) == (EffectModel::Close {
                room: d.room,
                event: d.event,
                body: live_status::terminal_body(m, live.agent),
                alert: Some(live_status::alert_body(m, live.agent)),
            }),
            None => live.effect(m, now, delay, Some(room)) == (EffectModel::Alert {
                room,
                body: live_status::alert_body(m, live.agent),
            }),
        },
{
}

/// An agent that finishes is never reported by a new message: its own reply pings the user.
pub proof fn lemma_finishing_raises_no_alert(
    live: LiveModel,
    m: StatusModel,
    now: int,
    delay: int,
    target: Option<Seq<char>>,
)
    requires
        m.state == AgentState::WaitingForUser,
    ensures
        match live.effect(m, now, delay, target) {
            EffectModel::Nothing => true,
            EffectModel::Close { alert, .. } => alert is None,
            _ => false,
        },
{
}

/// Nothing is said unprompted: without a message of its own, a state that is not alarming and not
/// work is not reported.
pub proof fn lemma_no_announcement_without_a_spell(
    live: LiveModel,
    m: StatusModel,
    now: int,
    delay: int,
    target: Option<Seq<char>>,
)
    requires
        live.draft is None,
        m.state == AgentState::WaitingForUser || m.state == AgentState::Unknown,
    ensures
        live.effect(m, now, delay, target) == EffectModel::Nothing,
{
}

/// A spell's message is forgotten exactly when the spell ends: then its final state is edited
/// into it.
pub proof fn lemma_draft_is_closed_by_its_final_state(
    live: LiveModel,
    m: StatusModel,
    now: int,
    delay: int,
    target: Option<Seq<char>>,
)
    requires
        live.draft is Some,
    ensures
        live.after(m, now, delay).draft is None <==> live.action(m, now, delay)
            == Action::CloseDraft,
        live.action(m, now, delay) == Action::CloseDraft <==> status::terminal(m.state)
            && live.previous != Some(m.state),
        live.after(m, now, delay).draft is None ==> {
            &&& live.effect(m, now, delay, target) is Close
            &&& live.effect(m, now, delay, target)->Close_event == live.draft->0.event
            &&& live.effect(m, now, delay, target)->Close_body == live_status::terminal_body(m, live.agent)
        },
{
}

/// Nothing is sent to a room other than that of the message, or the room for new messages.
pub proof fn lemma_status_stays_in_its_rooms(
    live: LiveModel,
    m: StatusModel,
    now: int,
    delay: int,
    target: Option<Seq<char>>,
)
    ensures
        match live.effect(m, now, delay, target) {
            EffectModel::Nothing => true,
            EffectModel::Send { room, .. } => target == Some(room),
            EffectModel::Alert { room, .. } => target == Some(room),
            EffectModel::Edit { room, .. } => live.draft matches Some(d) && room == d.room,
            EffectModel::Close { room, .. } => live.draft matches Some(d) && room == d.room,
        },
{
}

/// No message is larger than the largest that is sent.
pub proof fn lemma_bodies_respect_the_cap(m: StatusModel, agent: Seq<char>)
    ensures
        text::size(live_status::working_body(m, agent)) <= MAX_TOTAL_LENGTH,
        text::size(live_status::terminal_body(m, agent)) <= MAX_TOTAL_LENGTH,
        text::size(live_status::alert_body(m, agent)) <= MAX_TOTAL_LENGTH,
{
    assert forall|s: Seq<char>| text::size(#[trigger] live_status::capped(s))
        <= MAX_TOTAL_LENGTH by {
        text::lemma_fit(s, MAX_TOTAL_LENGTH as int);
    }
}

/// A message within the cap is sent as it is.
pub proof fn lemma_short_bodies_are_kept(s: Seq<char>)
    requires
        text::size(s) <= MAX_TOTAL_LENGTH,
    ensures
        live_status::capped(s) == s,
{
    text::lemma_fit(s, MAX_TOTAL_LENGTH as int);
    assert(s.take(s.len() as int) =~= s);
}

/// As much of a text as 50000 bytes hold.
pub open spec fn in_one_message(s: Seq<char>) -> Seq<char> {
    s.take(text::fit(s, 50_000) as int)
}

/// A length of time in words, from nanoseconds.
pub open spec fn in_words(nanos: int) -> Seq<char> {
    status::duration_words(nanos / 1_000_000_000)
}

/// What the messages say: that the agent is working, with what is known; how a spell ended, with how
/// long the turn ran and, where the agent is stalled, for how long it has been quiet; and, in the
/// alert, that the agent is gone or stuck.
pub proof fn lemma_what_the_messages_say(m: StatusModel, agent: Seq<char>)
    ensures
        m.state == AgentState::Working ==> live_status::working_body(m, agent) == in_one_message(
            "⏳ **"@ + agent + " is "@ + "working"@ + "**"@ + m.details(),
        ),
        ({
            let ran = match m.elapsed {
                Some(n) => "\nTurn ran for "@ + in_words(n),
                None => Seq::empty(),
            };
            let quiet = match m.age {
                Some(n) => "\nNo activity for "@ + in_words(n),
                None => Seq::empty(),
            };
            let nothing = Seq::<char>::empty();
            &&& m.state == AgentState::WaitingForUser ==> live_status::terminal_body(m, agent)
                == in_one_message(
                "✅"@ + " **"@ + agent + " is "@ + "waiting for you"@ + "**"@ + ran + nothing,
            )
            &&& m.state == AgentState::Stalled ==> live_status::terminal_body(m, agent)
                == in_one_message(
                "⚠️"@ + " **"@ + agent + " is "@ + "stalled"@ + "**"@ + ran + quiet,
            )
            &&& m.state == AgentState::Dead ==> live_status::terminal_body(m, agent)
                == in_one_message(
                "❌"@ + " **"@ + agent + " is "@ + "not running"@ + "**"@ + ran + nothing,
            )
        }),
        m.state == AgentState::Dead ==> live_status::alert_body(m, agent) == in_one_message(
            "❌ **"@ + agent + " is not running** — the session ended"@,
        ),
        m.state == AgentState::Stalled ==> live_status::alert_body(m, agent) == in_one_message(
            match m.age {
                Some(n) => "⚠️ **"@ + agent + " looks stuck** — no activity for "@ + in_words(n),
                None => "⚠️ **"@ + agent + " looks stuck**"@,
            },
        ),
{
}

/// For how long an agent that works has been seen to work.
pub open spec fn seen_working(live: LiveModel, now: int) -> int {
    match live.since {
        Some(from) => if from <= now {
            now - from
        } else {
            0
        },
        None => 0,
    }
}

/// What a look leads to. Work is shown by a message, once it has lasted for the delay and where
/// there is a room for it, and then by edits of that message, only where they say something new. A
/// state that ends a spell, when it is entered, is edited into the message, if there is one, with an
/// alert where the agent is stuck or gone; without a message only the alert is sent, where there is
/// a room for it. Nothing is sent otherwise.
pub proof fn lemma_what_a_look_leads_to(
    live: LiveModel,
    m: StatusModel,
    now: int,
    delay: int,
    target: Option<Seq<char>>,
)
    ensures
        ({
            let effect = live.effect(m, now, delay, target);
            let working = live_status::working_body(m, live.agent);
            let ended = live_status::terminal_body(m, live.agent);
            let alert = live_status::alert_body(m, live.agent);
            let bad = m.state == AgentState::Stalled || m.state == AgentState::Dead;
            let entered = live.previous != Some(m.state) && (bad || m.state
                == AgentState::WaitingForUser);
            &&& m.state == AgentState::Unknown ==> effect == EffectModel::Nothing
            &&& m.state == AgentState::Working ==> match live.draft {
                Some(d) => effect == if d.rendered == working {
                    EffectModel::Nothing
                } else {
                    EffectModel::Edit { room: d.room, event: d.event, body: working }
                },
                None => effect == if seen_working(live, now) >= delay && target is Some {
                    EffectModel::Send { room: target->0, body: working }
                } else {
                    EffectModel::Nothing
                },
            }
            &&& m.state != AgentState::Working && !entered ==> effect == EffectModel::Nothing
            &&& entered ==> match live.draft {
                Some(d) => effect == (EffectModel::Close {
                    room: d.room,
                    event: d.event,
                    body: ended,
                    alert: if bad {
                        Some(alert)
                    } else {
                        None
                    },
                }),
                None => effect == if bad && target is Some {
                    EffectModel::Alert { room: target->0, body: alert }
                } else {
                    EffectModel::Nothing
                },
            }
        }),
{
}

/// What the loop remembers: the state that it saw, since when the agent has been working without a
/// break, and the message, until the spell that it is about has ended.
pub proof fn lemma_what_the_loop_remembers(live: LiveModel, m: StatusModel, now: int, delay: int)
    ensures
        ({
            let after = live.after(m, now, delay);
            &&& after.agent == live.agent
            &&& after.previous == Some(m.state)
            &&& after.since == if m.state != AgentState::Working {
                None
            } else if live.since is Some {
                live.since
            } else {
                Some(now)
            }
            &&& after.draft == if live.previous != Some(m.state) && (m.state == AgentState::Stalled
                || m.state == AgentState::Dead || m.state == AgentState::WaitingForUser) {
                None
            } else {
                live.draft
            }
        }),
{
}

/// A message is posted after twenty seconds of work, unless the setting is a number: then after so
/// many.
pub proof fn lemma_when_a_message_is_posted(n: u64, s: Seq<char>)
    ensures
        live_status::delay_seconds(None) == 20,
        live_status::delay_seconds(Some(numbers::decimal(n as nat))) == n,
        (exists|i: int| 1 <= i < s.len() && !('0' <= #[trigger] s[i] <= '9')) || s.len() == 0
            ==> live_status::delay_seconds(Some(s)) == 20,
{
    numbers_laws::lemma_number_round_trip(n);
    numbers_laws::lemma_read_digit_by_digit(s, '0');
    if exists|i: int| 1 <= i < s.len() && !('0' <= #[trigger] s[i] <= '9') {
        let i = choose|i: int| 1 <= i < s.len() && !('0' <= #[trigger] s[i] <= '9');
        assert(!numbers_laws::is_figure(s[i]));
    } else if s.len() == 0 {
        assert(s =~= Seq::empty());
    }
}

/// What is said of what is to be sent, and of what the loop remembers, is what those hold.
pub proof fn lemma_what_effects_say(effect: live_status::Effect, live: live_status::LiveStatus)
    ensures
        match effect {
            live_status::Effect::Nothing => effect@ == EffectModel::Nothing,
            live_status::Effect::Send { room_id, body } => effect@ == (EffectModel::Send {
                room: room_id@,
                body: body@,
            }),
            live_status::Effect::Edit { room_id, event_id, body } => effect@ == (
            EffectModel::Edit { room: room_id@, event: event_id@, body: body@ }),
            live_status::Effect::Close { room_id, event_id, body, alert } => effect@ == (
            EffectModel::Close {
                room: room_id@,
                event: event_id@,
                body: body@,
                alert: match alert {
                    Some(a) => Some(a@),
                    None => None,
                },
            }),
            live_status::Effect::Alert { room_id, body } => effect@ == (EffectModel::Alert {
                room: room_id@,
                body: body@,
            }),
        },
        live@.agent == live.agent@,
        live@.previous == live.previous,
        match live.draft {
            Some(d) => live@.draft == Some(
                DraftModel { room: d.room_id@, event: d.event_id@, rendered: d.rendered@ },
            ),
            None => live@.draft is None,
        },
        match live.working_since {
            Some(t) => live@.since == Some(t@),
            None => live@.since is None,
        },
{
}

} // verus!
