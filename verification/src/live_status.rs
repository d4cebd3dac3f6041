//! The live status message: one message per working spell, edited in place as the agent works.
//!
//! The state that ends a spell is edited into that same message, so a normal turn leaves one
//! status message behind. Edits raise no push notification. When the agent finishes, its own reply
//! pings the user; when it is stuck or gone nothing else will ever arrive, so a short new message
//! follows. Short turns leave nothing behind at all.

use vstd::prelude::*;

use crate::clock::{Moment, Span};
use crate::clock::NANOS;
use crate::numbers;
use crate::numbers::parse_unsigned;
use crate::status;
use crate::status::{format_duration, AgentState, AgentStatus, StatusModel};
use crate::text;
use crate::text::{same_text, truncated};

verus! {

/// How often the state is looked at, in seconds, which also bounds how often a message is edited.
pub const TICK_SECS: u64 = 3;

/// The largest message, in bytes.
pub const MAX_TOTAL_LENGTH: usize = 50_000;

/// How long the agent must be working before a status message is worth posting, in seconds, unless
/// set otherwise.
pub const DEFAULT_DRAFT_DELAY_SECS: u64 = 20;

/// The seconds before a status message is posted, for what the setting holds.
pub open spec fn delay_seconds(setting: Option<Seq<char>>) -> u64 {
    match setting {
        Some(s) => match numbers::unsigned_of(s) {
            Some(n) => n,
            None => DEFAULT_DRAFT_DELAY_SECS,
        },
        None => DEFAULT_DRAFT_DELAY_SECS,
    }
}

/// How long the agent must be working before a status message is posted: what the setting holds,
/// where that is a number.
pub fn draft_delay(setting: Option<&str>) -> (delay: Span)
    ensures
        delay@ == delay_seconds(text::str_in(setting)) * NANOS,
{
    let mut secs: u64 = DEFAULT_DRAFT_DELAY_SECS;
    if let Some(s) = setting {
        if let Some(n) = parse_unsigned(s) {
            secs = n;
        }
    }
    Span::from_secs(secs)
}

/// What to do about the status message.
#[derive(Debug, Clone, Copy, PartialEq, Eq, Structural)]
pub enum Action {
    /// Nothing changed that is worth a message.
    Nothing,
    /// A working spell has lasted: send a message and remember it.
    StartDraft,
    /// Update the message in place.
    EditDraft,
    /// The spell is over: edit the message to its final state and forget it.
    CloseDraft,
    /// Something went wrong before there was a message: send an alert on its own.
    AlertOnly,
}

/// What to do, where `previous` is the state that was seen last, `working_for` tells for how long
/// the agent has been working, if it is, and `changed` whether the message would differ.
pub open spec fn decision(
    previous: Option<AgentState>,
    current: AgentState,
    has_draft: bool,
    changed: bool,
    working_for: Option<int>,
    delay: int,
) -> Action {
    if current == AgentState::Working {
        if has_draft {
            if changed {
                Action::EditDraft
            } else {
                Action::Nothing
            }
        } else if working_for is Some && working_for->0 >= delay {
            Action::StartDraft
        } else {
            Action::Nothing
        }
    } else if status::terminal(current) && previous != Some(current) {
        if has_draft {
            Action::CloseDraft
        } else if status::alarming(current) {
            Action::AlertOnly
        } else {
            Action::Nothing
        }
    } else {
        Action::Nothing
    }
}

/// What to do, where `previous` is the state that was seen last, `working_for` tells for how long
/// the agent has been working, if it is, and `changed` whether the message would differ.
pub fn decide(
    previous: Option<AgentState>,
    current: AgentState,
    has_draft: bool,
    changed: bool,
    working_for: Option<Span>,
    draft_delay: Span,
) -> (action: Action)
    ensures
        action == decision(
            previous,
            current,
            has_draft,
            changed,
            status::span_in(working_for),
            draft_delay@,
        ),
{
    match current {
        AgentState::Unknown => Action::Nothing,
        AgentState::Working => {
            if has_draft {
                if changed {
                    Action::EditDraft
                } else {
                    Action::Nothing
                }
            } else {
                match working_for {
                    Some(d) => if d.shorter_than(&draft_delay) {
                        Action::Nothing
                    } else {
                        Action::StartDraft
                    },
                    None => Action::Nothing,
                }
            }
        },
        _ => {
            let entered: bool = match previous {
                Some(before) => before != current,
                None => true,
            };
            if !entered {
                Action::Nothing
            } else if has_draft {
                Action::CloseDraft
            } else if current.needs_alert() {
                Action::AlertOnly
            } else {
                Action::Nothing
            }
        },
    }
}

/// `s` cut down to the largest message.
pub open spec fn capped(s: Seq<char>) -> Seq<char> {
    s.take(text::fit(s, MAX_TOTAL_LENGTH as int) as int)
}

/// A message, cut down to the largest that is sent.
pub fn truncate(s: String) -> (head: String)
    ensures
        head@ == capped(s@),
{
    truncated(s.as_str(), MAX_TOTAL_LENGTH)
}

/// The message while the agent is working.
pub open spec fn working_body(m: StatusModel, agent: Seq<char>) -> Seq<char> {
    capped("⏳ **"@ + agent + " is "@ + status::state_words(m.state) + "**"@ + m.details())
}

/// The message while the agent is working.
pub fn render_working(s: &AgentStatus, agent: &str) -> (body: String)
    ensures
        body@ == working_body(s@, agent@),
{
    let mut body = "⏳ **".to_owned();
    body.append(agent);
    body.append(" is ");
    body.append(s.state.words());
    body.append("**");
    body.append(s.render_details().as_str());
    truncate(body)
}

/// The sign for the state that ended a spell.
pub open spec fn icon(state: AgentState) -> Seq<char> {
    match state {
        AgentState::Stalled => "⚠️"@,
        AgentState::Dead => "❌"@,
        _ => "✅"@,
    }
}

/// How long the turn ran.
pub open spec fn ran_line(elapsed: Option<int>) -> Seq<char> {
    match elapsed {
        Some(nanos) => "\nTurn ran for "@ + status::duration_words(status::seconds_in(nanos)),
        None => Seq::empty(),
    }
}

/// For how long a stalled agent has been quiet.
pub open spec fn quiet_line(state: AgentState, age: Option<int>) -> Seq<char> {
    if state == AgentState::Stalled && age is Some {
        "\nNo activity for "@ + status::duration_words(status::seconds_in(age->0))
    } else {
        Seq::empty()
    }
}

/// The message once the spell is over.
pub open spec fn terminal_body(m: StatusModel, agent: Seq<char>) -> Seq<char> {
    capped(
        icon(m.state) + " **"@ + agent + " is "@ + status::state_words(m.state) + "**"@ + ran_line(
            m.elapsed,
        ) + quiet_line(m.state, m.age),
    )
}

/// The message once the spell is over.
pub fn render_terminal(s: &AgentStatus, agent: &str) -> (body: String)
    ensures
        body@ == terminal_body(s@, agent@),
{
    let sign = match s.state {
        AgentState::Stalled => "⚠️",
        AgentState::Dead => "❌",
        _ => "✅",
    };
    let mut body = sign.to_owned();
    body.append(" **");
    body.append(agent);
    body.append(" is ");
    body.append(s.state.words());
    body.append("**");
    let ghost head = body@;
    if let Some(elapsed) = s.turn_elapsed {
        body.append("\nTurn ran for ");
        body.append(format_duration(elapsed).as_str());
    }
    proof {
        assert(body@ =~= head + ran_line(s@.elapsed));
    }
    if let Some(age) = s.last_activity_age {
        if s.state == AgentState::Stalled {
            body.append("\nNo activity for ");
            body.append(format_duration(age).as_str());
        }
    }
    proof {
        assert(body@ =~= head + ran_line(s@.elapsed) + quiet_line(s@.state, s@.age));
    }
    truncate(body)
}

/// The alert.
pub open spec fn alert_body(m: StatusModel, agent: Seq<char>) -> Seq<char> {
    capped(
        if m.state == AgentState::Dead {
            "❌ **"@ + agent + " is not running** — the session ended"@
        } else {
            match m.age {
                Some(nanos) => "⚠️ **"@ + agent + " looks stuck** — no activity for "@
                    + status::duration_words(status::seconds_in(nanos)),
                None => "⚠️ **"@ + agent + " looks stuck**"@,
            }
        },
    )
}

/// The alert: short, for it is there to make a phone buzz.
pub fn render_alert(s: &AgentStatus, agent: &str) -> (body: String)
    ensures
        body@ == alert_body(s@, agent@),
{
    if s.state == AgentState::Dead {
        let mut body = "❌ **".to_owned();
        body.append(agent);
        body.append(" is not running** — the session ended");
        return truncate(body);
    }
    let mut body = "⚠️ **".to_owned();
    body.append(agent);
    match s.last_activity_age {
        Some(age) => {
            body.append(" looks stuck** — no activity for ");
            body.append(format_duration(age).as_str());
        },
        None => {
            body.append(" looks stuck**");
        },
    }
    truncate(body)
}

/// The status message of the current spell.
#[derive(Debug)]
pub struct Draft {
    pub room_id: String,
    pub event_id: String,
    /// What it was last seen to say, so that no edit is spent on what it says already.
    pub rendered: String,
}

/// The status message of the current spell.
pub struct DraftModel {
    pub room: Seq<char>,
    pub event: Seq<char>,
    pub rendered: Seq<char>,
}

impl View for Draft {
    type V = DraftModel;

    open spec fn view(&self) -> DraftModel {
        DraftModel {
            room: self.room_id@,
            event: self.event_id@,
            rendered: self.rendered@,
        }
    }
}

/// What is to be sent.
#[derive(Debug)]
pub enum Effect {
    Nothing,
    /// Send a new message, and say what became of it by `draft_sent`.
    Send { room_id: String, body: String },
    /// Edit the message, and say what became of it by `draft_edited`.
    Edit { room_id: String, event_id: String, body: String },
    /// Edit the message; then send the alert, if there is one, as a new message.
    Close { room_id: String, event_id: String, body: String, alert: Option<String> },
    /// Send a new message that nobody has to remember.
    Alert { room_id: String, body: String },
}

/// What is to be sent.
pub enum EffectModel {
    Nothing,
    Send { room: Seq<char>, body: Seq<char> },
    Edit { room: Seq<char>, event: Seq<char>, body: Seq<char> },
    Close { room: Seq<char>, event: Seq<char>, body: Seq<char>, alert: Option<Seq<char>> },
    Alert { room: Seq<char>, body: Seq<char> },
}

impl View for Effect {
    type V = EffectModel;

    open spec fn view(&self) -> EffectModel {
        match self {
            Effect::Nothing => EffectModel::Nothing,
            Effect::Send { room_id, body } => EffectModel::Send { room: room_id@, body: body@ },
            Effect::Edit { room_id, event_id, body } => EffectModel::Edit {
                room: room_id@,
                event: event_id@,
                body: body@,
            },
            Effect::Close { room_id, event_id, body, alert } => EffectModel::Close {
                room: room_id@,
                event: event_id@,
                body: body@,
                alert: match alert {
                    Some(a) => Some(a@),
                    None => None,
                },
            },
            Effect::Alert { room_id, body } => EffectModel::Alert { room: room_id@, body: body@ },
        }
    }
}

/// What the loop remembers from one look to the next.
#[derive(Debug)]
pub struct LiveStatus {
    /// The name that the agent goes by in messages.
    pub agent: String,
    pub previous: Option<AgentState>,
    pub draft: Option<Draft>,
    pub working_since: Option<Moment>,
}

/// What the loop remembers from one look to the next.
pub struct LiveModel {
    pub agent: Seq<char>,
    pub previous: Option<AgentState>,
    pub draft: Option<DraftModel>,
    pub since: Option<int>,
}

/// What an optional message says.
pub open spec fn draft_in(draft: Option<Draft>) -> Option<DraftModel> {
    match draft {
        Some(d) => Some(d@),
        None => None,
    }
}

impl View for LiveStatus {
    type V = LiveModel;

    open spec fn view(&self) -> LiveModel {
        LiveModel {
            agent: self.agent@,
            previous: self.previous,
            draft: draft_in(self.draft),
            since: match self.working_since {
                Some(t) => Some(t@),
                None => None,
            },
        }
    }
}

/// What the status message should say.
pub open spec fn body_for(m: StatusModel, agent: Seq<char>) -> Seq<char> {
    if m.state == AgentState::Working {
        working_body(m, agent)
    } else {
        terminal_body(m, agent)
    }
}

impl LiveModel {
    /// Since when the agent has been working, if it is.
    pub open spec fn working_from(self, m: StatusModel, now: int) -> Option<int> {
        if m.state != AgentState::Working {
            None
        } else if self.since is Some {
            self.since
        } else {
            Some(now)
        }
    }

    /// For how long the agent has been working, if it is.
    pub open spec fn working_for(self, m: StatusModel, now: int) -> Option<int> {
        match self.working_from(m, now) {
            Some(from) => if from <= now {
                Some(now - from)
            } else {
                Some(0)
            },
            None => None,
        }
    }

    /// What to do about the status message.
    pub open spec fn action(self, m: StatusModel, now: int, delay: int) -> Action {
        decision(
            self.previous,
            m.state,
            self.draft is Some,
            self.draft is None || self.draft->0.rendered != body_for(m, self.agent),
            self.working_for(m, now),
            delay,
        )
    }

    /// What is to be sent, where `target` is the room for new messages.
    pub open spec fn effect(
        self,
        m: StatusModel,
        now: int,
        delay: int,
        target: Option<Seq<char>>,
    ) -> EffectModel {
        match self.action(m, now, delay) {
            Action::Nothing => EffectModel::Nothing,
            Action::StartDraft => match target {
                Some(room) => EffectModel::Send { room, body: body_for(m, self.agent) },
                None => EffectModel::Nothing,
            },
            Action::EditDraft => EffectModel::Edit {
                room: self.draft->0.room,
                event: self.draft->0.event,
                body: body_for(m, self.agent),
            },
            Action::CloseDraft => EffectModel::Close {
                room: self.draft->0.room,
                event: self.draft->0.event,
                body: body_for(m, self.agent),
                alert: if status::alarming(m.state) {
                    Some(alert_body(m, self.agent))
                } else {
                    None
                },
            },
            Action::AlertOnly => match target {
                Some(room) => EffectModel::Alert { room, body: alert_body(m, self.agent) },
                None => EffectModel::Nothing,
            },
        }
    }

    /// What the loop remembers after a look.
    pub open spec fn after(self, m: StatusModel, now: int, delay: int) -> LiveModel {
        LiveModel {
            agent: self.agent,
            previous: Some(m.state),
            draft: if self.action(m, now, delay) == Action::CloseDraft {
                None
            } else {
                self.draft
            },
            since: self.working_from(m, now),
        }
    }
}

impl LiveStatus {
    /// A loop that has not looked yet.
    pub fn new(agent: String) -> (live: LiveStatus)
        ensures
            live@ == (LiveModel { agent: agent@, previous: None, draft: None, since: None }),
    {
        LiveStatus { agent, previous: None, draft: None, working_since: None }
    }

    /// Takes a look: what the agent is doing at `now`, and the room for new messages, if there is
    /// one.
    pub fn tick(&mut self, s: &AgentStatus, now: Moment, delay: Span, target: Option<&str>)
        -> (effect: Effect)
        ensures
            effect@ == old(self)@.effect(s@, now@, delay@, text::str_in(target)),
            final(self)@ == old(self)@.after(s@, now@, delay@),
    {
        let ghost before = self@;
        let working: bool = s.state == AgentState::Working;
        if !working {
            self.working_since = None;
        } else if self.working_since.is_none() {
            self.working_since = Some(now);
        }
        let working_for: Option<Span> = match self.working_since {
            Some(from) => match now.since(&from) {
                Some(length) => Some(length),
                None => Some(Span::from_secs(0)),
            },
            None => None,
        };
        let body = if working {
            render_working(s, self.agent.as_str())
        } else {
            render_terminal(s, self.agent.as_str())
        };
        let changed: bool = match &self.draft {
            Some(d) => !same_text(d.rendered.as_str(), body.as_str()),
            None => true,
        };
        let action = decide(
            self.previous,
            s.state,
            self.draft.is_some(),
            changed,
            working_for,
            delay,
        );
        proof {
            assert(action == before.action(s@, now@, delay@));
        }
        self.previous = Some(s.state);
        match action {
            Action::Nothing => Effect::Nothing,
            Action::StartDraft => match target {
                Some(room) => Effect::Send { room_id: room.to_owned(), body },
                None => Effect::Nothing,
            },
            Action::EditDraft => match &self.draft {
                Some(d) => Effect::Edit {
                    room_id: d.room_id.clone(),
                    event_id: d.event_id.clone(),
                    body,
                },
                None => Effect::Nothing,
            },
            Action::CloseDraft => match self.draft.take() {
                Some(d) => {
                    let alert: Option<String> = if s.state.needs_alert() {
                        Some(render_alert(s, self.agent.as_str()))
                    } else {
                        None
                    };
                    Effect::Close { room_id: d.room_id, event_id: d.event_id, body, alert }
                },
                None => Effect::Nothing,
            },
            Action::AlertOnly => match target {
                Some(room) => Effect::Alert { room_id: room.to_owned(), body: render_alert(s, self.agent.as_str()) },
                None => Effect::Nothing,
            },
        }
    }

    /// A new status message went out as `event_id`, or did not go out.
    pub fn draft_sent(&mut self, room_id: String, event_id: Option<String>, body: String)
        ensures
            final(self)@ == (LiveModel {
                draft: match event_id {
                    Some(event) => Some(
                        DraftModel { room: room_id@, event: event@, rendered: body@ },
                    ),
                    None => old(self)@.draft,
                },
                ..old(self)@
            }),
    {
        if let Some(event_id) = event_id {
            self.draft = Some(Draft { room_id, event_id, rendered: body });
        }
    }

    /// The status message was edited to say `body`, or was not.
    pub fn draft_edited(&mut self, landed: bool, body: String)
        ensures
            final(self)@ == (LiveModel {
                draft: match old(self)@.draft {
                    Some(d) => if landed {
                        Some(DraftModel { rendered: body@, ..d })
                    } else {
                        Some(d)
                    },
                    None => None,
                },
                ..old(self)@
            }),
    {
        if landed {
            if let Some(d) = self.draft.take() {
                self.draft =
                Some(Draft { room_id: d.room_id, event_id: d.event_id, rendered: body });
            }
        }
    }
}

} // verus!
