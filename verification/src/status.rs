//! Agent liveness, read from the session transcript.
//!
//! The bridge cannot ask the agent how it is doing: when the agent is stuck, it is stuck. So
//! liveness is read from something the agent does not control: the transcript that is written for
//! its session, one JSON record per line, and the presence of its process.
//!
//! Everything here is metadata: state names, ages, durations and tool names. Message text, tool
//! inputs and tool outputs are never read out of the transcript, for a status is published to a
//! room.

use vstd::prelude::*;
use vstd::utf8;

use crate::calendar;
use crate::calendar::parse_timestamp;
use crate::clock::{Moment, Span};
use crate::clock::NANOS;
use crate::json;
use crate::json::{parse_json, Json, JsonModel};
use crate::numbers;
use crate::numbers::{parse_unsigned, push_decimal};
use crate::text;
use crate::text::{find_char, lines, same_text, to_chars, to_text, trim};

verus! {

/// How much of the end of a transcript is read, in bytes.
pub const TAIL_BYTES: u64 = 65_536;

/// How long a text record counts as work still in flight, in seconds. A text block is often
/// followed by a tool call a few seconds later.
pub const TEXT_GRACE_SECS: u64 = 10;

/// How long nothing may happen before work counts as stalled, in seconds, unless set otherwise.
pub const DEFAULT_STALL_SECS: u64 = 300;

/// What the agent is doing.
#[derive(Debug, Clone, Copy, PartialEq, Eq, Structural)]
pub enum AgentState {
    /// A tool is running, or the model is generating between tool calls.
    Working,
    /// The agent finished its turn and is waiting for a human.
    WaitingForUser,
    /// Still nominally working, but nothing has happened for longer than the threshold.
    Stalled,
    /// The process is gone.
    Dead,
    /// No transcript was found, or nothing could be read from it.
    Unknown,
}

/// The words for a state.
pub open spec fn state_words(state: AgentState) -> Seq<char> {
    match state {
        AgentState::Working => "working"@,
        AgentState::WaitingForUser => "waiting for you"@,
        AgentState::Stalled => "stalled"@,
        AgentState::Dead => "not running"@,
        AgentState::Unknown => "unknown"@,
    }
}

/// Whether a state ends a working spell.
pub open spec fn terminal(state: AgentState) -> bool {
    state == AgentState::Stalled || state == AgentState::Dead || state
        == AgentState::WaitingForUser
}

/// Whether nothing else will ever arrive from the agent in that state, so that a message of its
/// own has to say so.
pub open spec fn alarming(state: AgentState) -> bool {
    state == AgentState::Stalled || state == AgentState::Dead
}

impl AgentState {
    /// The words for the state.
    pub fn words(&self) -> (words: &'static str)
        ensures
            words@ == state_words(*self),
    {
        match self {
            AgentState::Working => "working",
            AgentState::WaitingForUser => "waiting for you",
            AgentState::Stalled => "stalled",
            AgentState::Dead => "not running",
            AgentState::Unknown => "unknown",
        }
    }

    /// Whether the state ends a working spell.
    pub fn is_terminal(&self) -> (ends: bool)
        ensures
            ends == terminal(*self),
    {
        matches!(self, AgentState::Stalled | AgentState::Dead | AgentState::WaitingForUser)
    }

    /// Whether the state needs a new message, which raises a push notification as an edit does
    /// not.
    pub fn needs_alert(&self) -> (alert: bool)
        ensures
            alert == alarming(*self),
    {
        matches!(self, AgentState::Stalled | AgentState::Dead)
    }
}

/// What is known of the agent.
#[derive(Debug, Clone, PartialEq, Eq)]
pub struct AgentStatus {
    pub state: AgentState,
    /// The age of the newest timestamped record.
    pub last_activity_age: Option<Span>,
    /// The name of the tool that was called last, never its arguments.
    pub last_tool: Option<String>,
    /// How long the turn has been running since the human prompt that opened it.
    pub turn_elapsed: Option<Span>,
}

/// What a status says, with lengths of time in nanoseconds.
pub struct StatusModel {
    pub state: AgentState,
    pub age: Option<int>,
    pub tool: Option<Seq<char>>,
    pub elapsed: Option<int>,
}

/// The nanoseconds in an optional length of time.
pub open spec fn span_in(span: Option<Span>) -> Option<int> {
    match span {
        Some(s) => Some(s@),
        None => None,
    }
}

impl View for AgentStatus {
    type V = StatusModel;

    open spec fn view(&self) -> StatusModel {
        StatusModel {
            state: self.state,
            age: span_in(self.last_activity_age),
            tool: match self.last_tool {
                Some(tool) => Some(tool@),
                None => None,
            },
            elapsed: span_in(self.turn_elapsed),
        }
    }
}

/// A status of which only the state is known.
pub open spec fn bare_status(state: AgentState) -> StatusModel {
    StatusModel { state, age: None, tool: None, elapsed: None }
}

/// The whole seconds in so many nanoseconds.
pub open spec fn seconds_in(nanos: int) -> int {
    nanos / (NANOS as int)
}

/// A length of time in words, from its whole seconds.
pub open spec fn duration_words(secs: int) -> Seq<char> {
    if secs < 60 {
        numbers::decimal(secs as nat) + "s"@
    } else if secs < 3600 {
        numbers::decimal((secs / 60) as nat) + "m "@ + numbers::decimal((secs % 60) as nat) + "s"@
    } else {
        numbers::decimal((secs / 3600) as nat) + "h "@ + numbers::decimal(
            ((secs % 3600) / 60) as nat,
        ) + "m"@
    }
}

/// A length of time in words.
pub fn format_duration(d: Span) -> (words: String)
    ensures
        words@ == duration_words(seconds_in(d@)),
{
    let secs: u64 = d.as_secs();
    let mut out = String::new();
    if secs < 60 {
        push_decimal(&mut out, secs);
        out.append("s");
    } else if secs < 3600 {
        push_decimal(&mut out, secs / 60);
        out.append("m ");
        push_decimal(&mut out, secs % 60);
        out.append("s");
    } else {
        push_decimal(&mut out, secs / 3600);
        out.append("h ");
        push_decimal(&mut out, (secs % 3600) / 60);
        out.append("m");
    }
    proof {
        assert(out@ =~= duration_words(seconds_in(d@)));
    }
    out
}

/// The line about the age of the last activity.
pub open spec fn age_line(age: Option<int>) -> Seq<char> {
    match age {
        Some(nanos) => "\nLast activity: "@ + duration_words(seconds_in(nanos)) + " ago"@,
        None => Seq::empty(),
    }
}

/// The line about the last tool.
pub open spec fn tool_line(tool: Option<Seq<char>>) -> Seq<char> {
    match tool {
        Some(name) => "\nLast tool:     "@ + name,
        None => Seq::empty(),
    }
}

/// The line about the turn.
pub open spec fn turn_line(elapsed: Option<int>) -> Seq<char> {
    match elapsed {
        Some(nanos) => "\nTurn elapsed:  "@ + duration_words(seconds_in(nanos)),
        None => Seq::empty(),
    }
}

impl StatusModel {
    /// What follows the first line of a rendered status.
    pub open spec fn details(self) -> Seq<char> {
        age_line(self.age) + tool_line(self.tool) + turn_line(self.elapsed)
    }

    /// The status in words.
    pub open spec fn rendered(self) -> Seq<char> {
        "Agent:    "@ + state_words(self.state) + self.details()
    }
}

impl AgentStatus {
    /// The status where nothing is known.
    pub fn unknown() -> (status: AgentStatus)
        ensures
            status@ == bare_status(AgentState::Unknown),
    {
        AgentStatus {
            state: AgentState::Unknown,
            last_activity_age: None,
            last_tool: None,
            turn_elapsed: None,
        }
    }

    /// What follows the first line of a rendered status.
    pub fn render_details(&self) -> (out: String)
        ensures
            out@ == self@.details(),
    {
        let mut out = String::new();
        if let Some(age) = self.last_activity_age {
            out.append("\nLast activity: ");
            out.append(format_duration(age).as_str());
            out.append(" ago");
        }
        proof {
            assert(out@ =~= age_line(self@.age));
        }
        if let Some(tool) = &self.last_tool {
            out.append("\nLast tool:     ");
            out.append(tool.as_str());
        }
        proof {
            assert(out@ =~= age_line(self@.age) + tool_line(self@.tool));
        }
        if let Some(elapsed) = self.turn_elapsed {
            out.append("\nTurn elapsed:  ");
            out.append(format_duration(elapsed).as_str());
        }
        proof {
            assert(out@ =~= self@.details());
        }
        out
    }

    /// The status in words, several lines of them.
    pub fn render(&self) -> (out: String)
        ensures
            out@ == self@.rendered(),
    {
        let mut out = String::new();
        out.append("Agent:    ");
        out.append(self.state.words());
        out.append(self.render_details().as_str());
        proof {
            assert(out@ =~= self@.rendered());
        }
        out
    }
}

/// The seconds after which work counts as stalled, for what the setting holds.
pub open spec fn stall_seconds(setting: Option<Seq<char>>) -> u64 {
    match setting {
        Some(s) => match numbers::unsigned_of(s) {
            Some(n) => if n > 0 {
                n
            } else {
                DEFAULT_STALL_SECS
            },
            None => DEFAULT_STALL_SECS,
        },
        None => DEFAULT_STALL_SECS,
    }
}

/// How long nothing may happen before work counts as stalled: what the setting holds, where that
/// is a number above zero.
pub fn stall_threshold(setting: Option<&str>) -> (threshold: Span)
    ensures
        threshold@ == stall_seconds(text::str_in(setting)) * NANOS,
{
    let mut secs: u64 = DEFAULT_STALL_SECS;
    if let Some(s) = setting {
        if let Some(n) = parse_unsigned(s) {
            if n > 0 {
                secs = n;
            }
        }
    }
    Span::from_secs(secs)
}

/// What one record of the transcript tells.
#[derive(Debug)]
pub enum Record {
    /// The assistant called the tool of that name.
    ToolUse(String),
    /// A tool finished, and its result went back to the model.
    ToolResult,
    /// Assistant text or thinking.
    AssistantText,
    /// A human prompt: the start of a turn.
    UserPrompt,
}

/// What one record of the transcript tells.
pub enum Signal {
    ToolUse(Seq<char>),
    ToolResult,
    AssistantText,
    UserPrompt,
}

impl View for Record {
    type V = Signal;

    open spec fn view(&self) -> Signal {
        match self {
            Record::ToolUse(name) => Signal::ToolUse(name@),
            Record::ToolResult => Signal::ToolResult,
            Record::AssistantText => Signal::AssistantText,
            Record::UserPrompt => Signal::UserPrompt,
        }
    }
}

/// The name of the tool in the first block that calls one.
pub open spec fn first_tool(blocks: Seq<JsonModel>) -> Option<Seq<char>>
    decreases blocks.len(),
{
    if blocks.len() == 0 {
        None
    } else if blocks[0].member_string("type"@) == Some("tool_use"@) {
        match blocks[0].member_string("name"@) {
            Some(name) => Some(name),
            None => Some("(unnamed)"@),
        }
    } else {
        first_tool(blocks.skip(1))
    }
}

/// What the blocks of an assistant record tell.
pub open spec fn assistant_signal(blocks: Seq<JsonModel>) -> Signal {
    match first_tool(blocks) {
        Some(name) => Signal::ToolUse(name),
        None => Signal::AssistantText,
    }
}

/// The blocks of an assistant record.
pub open spec fn blocks_of(value: JsonModel) -> Option<Seq<JsonModel>> {
    match value.member("message"@) {
        Some(message) => match message.member("content"@) {
            Some(content) => content.items(),
            None => None,
        },
        None => None,
    }
}

/// What a record of the transcript tells, if it tells anything of liveness.
pub open spec fn signal_of(value: JsonModel) -> Option<Signal> {
    match value.member_string("type"@) {
        Some(kind) => if kind == "assistant"@ {
            match blocks_of(value) {
                Some(blocks) => Some(assistant_signal(blocks)),
                None => None,
            }
        } else if kind == "user"@ {
            if value.member("toolUseResult"@) is Some {
                Some(Signal::ToolResult)
            } else {
                Some(Signal::UserPrompt)
            }
        } else {
            None
        },
        None => None,
    }
}

/// What an optional record tells.
pub open spec fn signal_in(record: Option<Record>) -> Option<Signal> {
    match record {
        Some(r) => Some(r@),
        None => None,
    }
}

fn classify_blocks(blocks: &Vec<Json>) -> (record: Record)
    ensures
        record@ == assistant_signal(models(blocks@)),
{
    let mut i: usize = 0;
    let ghost all = models(blocks@);
    proof {
        assert(all.skip(0) =~= all);
    }
    while i < blocks.len()
        invariant
            i <= blocks@.len(),
            all == models(blocks@),
            first_tool(all.skip(i as int)) == first_tool(all),
        decreases blocks@.len() - i,
    {
        proof {
            assert(all.skip(i as int)[0] == blocks@[i as int]@);
            assert(all.skip(i as int).skip(1) =~= all.skip(i + 1));
        }
        let block: &Json = &blocks[i];
        if let Some(kind) = block.get_str("type") {
            if same_text(kind, "tool_use") {
                return match block.get_str("name") {
                    Some(name) => Record::ToolUse(name.to_owned()),
                    None => Record::ToolUse("(unnamed)".to_owned()),
                };
            }
        }
        i += 1;
    }
    Record::AssistantText
}

/// What a record of the transcript tells, if it tells anything of liveness.
pub fn classify(value: &Json) -> (record: Option<Record>)
    ensures
        signal_in(record) == signal_of(value@),
{
    let kind = match value.get_str("type") {
        Some(kind) => kind,
        None => return None,
    };
    if same_text(kind, "assistant") {
        let message = match value.get("message") {
            Some(message) => message,
            None => return None,
        };
        let content = match message.get("content") {
            Some(content) => content,
            None => return None,
        };
        match content {
            Json::Array(blocks) => {
                proof {
                    assert(content@->Array_0 =~= models(blocks@));
                }
                Some(classify_blocks(blocks))
            },
            _ => None,
        }
    } else if same_text(kind, "user") {
        if value.get("toolUseResult").is_some() {
            Some(Record::ToolResult)
        } else {
            Some(Record::UserPrompt)
        }
    } else {
        None
    }
}

/// What the records say.
pub open spec fn models(values: Seq<Json>) -> Seq<JsonModel> {
    values.map_values(|value: Json| value@)
}

/// The timestamp of a record, in seconds since 1970 began.
pub open spec fn stamp_of(value: JsonModel) -> Option<int> {
    match value.member_string("timestamp"@) {
        Some(s) => calendar::timestamp_of(s),
        None => None,
    }
}

/// The timestamp of the last record that has one.
pub open spec fn last_stamp(values: Seq<JsonModel>) -> Option<int>
    decreases values.len(),
{
    if values.len() == 0 {
        None
    } else if stamp_of(values.last()) is Some {
        stamp_of(values.last())
    } else {
        last_stamp(values.drop_last())
    }
}

/// What the last record that tells anything tells.
pub open spec fn last_signal(values: Seq<JsonModel>) -> Option<Signal>
    decreases values.len(),
{
    if values.len() == 0 {
        None
    } else if signal_of(values.last()) is Some {
        signal_of(values.last())
    } else {
        last_signal(values.drop_last())
    }
}

/// The tool that was called last since the last human prompt.
pub open spec fn last_tool(values: Seq<JsonModel>) -> Option<Seq<char>>
    decreases values.len(),
{
    if values.len() == 0 {
        None
    } else {
        match signal_of(values.last()) {
            Some(Signal::ToolUse(name)) => Some(name),
            Some(Signal::UserPrompt) => None,
            _ => last_tool(values.drop_last()),
        }
    }
}

/// The timestamp of the last human prompt.
pub open spec fn turn_start(values: Seq<JsonModel>) -> Option<int>
    decreases values.len(),
{
    if values.len() == 0 {
        None
    } else if signal_of(values.last()) == Some(Signal::UserPrompt) {
        stamp_of(values.last())
    } else {
        turn_start(values.drop_last())
    }
}

/// How long after `stamp`, in seconds, the time `now` is, in nanoseconds.
pub open spec fn age_at(stamp: Option<int>, now: int) -> Option<int> {
    match stamp {
        Some(secs) => if now >= secs * NANOS {
            Some(now - secs * NANOS)
        } else {
            None
        },
        None => None,
    }
}

/// What the last signal and its age say of the agent, stalling aside.
pub open spec fn base_state(signal: Signal, age: Option<int>) -> AgentState {
    match signal {
        Signal::AssistantText => match age {
            Some(a) => if a < TEXT_GRACE_SECS * NANOS {
                AgentState::Working
            } else {
                AgentState::WaitingForUser
            },
            None => AgentState::WaitingForUser,
        },
        _ => AgentState::Working,
    }
}

/// What the last signal and its age say of the agent. Only work can stall: an agent that finished
/// its turn an hour ago is waiting, not stuck.
pub open spec fn state_at(signal: Signal, age: Option<int>, threshold: int) -> AgentState {
    let base = base_state(signal, age);
    match age {
        Some(a) => if base == AgentState::Working && a > threshold {
            AgentState::Stalled
        } else {
            base
        },
        None => base,
    }
}

/// Whether a turn is under way in that state.
pub open spec fn in_turn(state: AgentState) -> bool {
    state == AgentState::Working || state == AgentState::Stalled
}

/// What the records say of the agent at `now`.
pub open spec fn status_model(values: Seq<JsonModel>, threshold: int, now: int) -> StatusModel {
    match last_signal(values) {
        Some(signal) => {
            let age = age_at(last_stamp(values), now);
            let state = state_at(signal, age, threshold);
            StatusModel {
                state,
                age,
                tool: if in_turn(state) {
                    last_tool(values)
                } else {
                    None
                },
                elapsed: if in_turn(state) {
                    age_at(turn_start(values), now)
                } else {
                    None
                },
            }
        },
        None => bare_status(AgentState::Unknown),
    }
}

fn age_of(stamp: Option<u64>, now: &Moment) -> (age: Option<Span>)
    requires
        stamp matches Some(secs) ==> secs <= i64::MAX,
    ensures
        span_in(age) == age_at(
            match stamp {
                Some(secs) => Some(secs as int),
                None => None,
            },
            now@,
        ),
{
    match stamp {
        Some(secs) => now.since(&Moment::new(secs as i64, 0)),
        None => None,
    }
}

/// What the records say of the agent at `now`.
pub fn status_of_values(values: &Vec<Json>, threshold: Span, now: Moment) -> (status: AgentStatus)
    ensures
        status@ == status_model(models(values@), threshold@, now@),
{
    let ghost all = models(values@);
    let mut stamp: Option<u64> = None;
    let mut last: Option<Record> = None;
    let mut tool: Option<String> = None;
    let mut start: Option<u64> = None;
    let mut i: usize = 0;
    while i < values.len()
        invariant
            i <= values@.len(),
            all == models(values@),
            stamp matches Some(secs) ==> secs <= i64::MAX,
            start matches Some(secs) ==> secs <= i64::MAX,
            last_stamp(all.take(i as int)) == match stamp {
                Some(secs) => Some(secs as int),
                None => None,
            },
            last_signal(all.take(i as int)) == signal_in(last),
            last_tool(all.take(i as int)) == match tool {
                Some(name) => Some(name@),
                None => None,
            },
            turn_start(all.take(i as int)) == match start {
                Some(secs) => Some(secs as int),
                None => None,
            },
        decreases values@.len() - i,
    {
        proof {
            let seen = all.take(i + 1);
            assert(seen.drop_last() =~= all.take(i as int));
            assert(seen.last() == values@[i as int]@);
        }
        let value: &Json = &values[i];
        let own: Option<u64> = match value.get_str("timestamp") {
            Some(s) => parse_timestamp(s),
            None => None,
        };
        if own.is_some() {
            stamp = own;
        }
        if let Some(record) = classify(value) {
            match &record {
                Record::ToolUse(name) => {
                    tool = Some(name.clone());
                },
                Record::UserPrompt => {
                    start = own;
                    tool = None;
                },
                _ => {},
            }
            last = Some(record);
        }
        i += 1;
    }
    proof {
        assert(all.take(i as int) =~= all);
    }
    let signal = match last {
        Some(signal) => signal,
        None => return AgentStatus::unknown(),
    };
    let age: Option<Span> = age_of(stamp, &now);
    let base = match signal {
        Record::AssistantText => match age {
            Some(a) => if a.shorter_than(&Span::from_secs(TEXT_GRACE_SECS)) {
                AgentState::Working
            } else {
                AgentState::WaitingForUser
            },
            None => AgentState::WaitingForUser,
        },
        _ => AgentState::Working,
    };
    let state = match age {
        Some(a) => if base == AgentState::Working && threshold.shorter_than(&a) {
            AgentState::Stalled
        } else {
            base
        },
        None => base,
    };
    let under_way: bool = state == AgentState::Working || state == AgentState::Stalled;
    AgentStatus {
        state,
        last_activity_age: age,
        last_tool: if under_way {
            tool
        } else {
            None
        },
        turn_elapsed: if under_way {
            age_of(start, &now)
        } else {
            None
        },
    }
}

/// The record that a line holds, if it holds one.
pub open spec fn value_in(line: Seq<char>) -> Seq<JsonModel> {
    if text::trimmed(line).len() == 0 {
        Seq::empty()
    } else {
        match json::parsed_json(text::trimmed(line)) {
            Some(value) => seq![value],
            None => Seq::empty(),
        }
    }
}

/// The records that lines hold. A line that is no JSON is left out: the last line of a file that
/// is being written may be cut short.
pub open spec fn values_in(lines: Seq<Seq<char>>) -> Seq<JsonModel>
    decreases lines.len(),
{
    if lines.len() == 0 {
        Seq::empty()
    } else {
        values_in(lines.drop_last()) + value_in(lines.last())
    }
}

/// The records in the end of a transcript.
pub fn parse_lines(tail: &str) -> (values: Vec<Json>)
    ensures
        models(values@) == values_in(text::lines_of(tail@)),
{
    let found = lines(tail);
    let ghost all = text::lines_of(tail@);
    let mut values: Vec<Json> = Vec::new();
    let mut i: usize = 0;
    proof {
        assert(models(values@) =~= values_in(all.take(0)));
    }
    while i < found.len()
        invariant
            i <= found@.len(),
            text::texts(found@) == all,
            models(values@) == values_in(all.take(i as int)),
        decreases found@.len() - i,
    {
        let ghost before = models(values@);
        proof {
            assert(all[i as int] == found@[i as int]@);
            assert(all.take(i + 1).drop_last() =~= all.take(i as int));
        }
        let line = trim(found[i].as_str());
        if !line.as_str().is_empty() {
            if let Some(value) = parse_json(line.as_str()) {
                values.push(value);
                proof {
                    assert(models(values@) =~= before.push(value@));
                    assert(before.push(value@) =~= before + seq![value@]);
                }
            }
        }
        proof {
            assert(models(values@) =~= before + value_in(all[i as int]));
        }
        i += 1;
    }
    proof {
        assert(all.take(i as int) =~= all);
    }
    values
}

/// What the end of a transcript says of the agent, where `alive` tells whether its process is
/// there, if anybody knows, and `tail` is missing where the transcript could not be read.
pub open spec fn status_at(
    alive: Option<bool>,
    tail: Option<Seq<char>>,
    threshold: int,
    now: int,
) -> StatusModel {
    if alive == Some(false) {
        bare_status(AgentState::Dead)
    } else {
        match tail {
            Some(s) => status_model(values_in(text::lines_of(s)), threshold, now),
            None => bare_status(AgentState::Unknown),
        }
    }
}

/// What the end of a transcript says of the agent, where `alive` tells whether its process is
/// there, if anybody knows, and `tail` is missing where the transcript could not be read.
pub fn read_status_at(
    alive: Option<bool>,
    tail: Option<&str>,
    threshold: Span,
    now: Moment,
) -> (status: AgentStatus)
    ensures
        status@ == status_at(alive, text::str_in(tail), threshold@, now@),
{
    if let Some(false) = alive {
        return AgentStatus {
            state: AgentState::Dead,
            last_activity_age: None,
            last_tool: None,
            turn_elapsed: None,
        };
    }
    match tail {
        Some(s) => {
            let values = parse_lines(s);
            status_of_values(&values, threshold, now)
        },
        None => AgentStatus::unknown(),
    }
}

/// What became of the attempt to read a transcript.
#[derive(Debug)]
pub enum Transcript {
    /// There is none.
    Missing,
    /// There is one, and it could not be read.
    Unreadable,
    /// The end of it.
    Tail(String),
}

/// The state of the agent. Without a transcript nothing is known, not even of its death.
pub fn read_status(
    transcript: &Transcript,
    alive: Option<bool>,
    threshold: Span,
    now: Moment,
) -> (status: AgentStatus)
    ensures
        status@ == match transcript {
            Transcript::Missing => bare_status(AgentState::Unknown),
            Transcript::Unreadable => status_at(alive, None, threshold@, now@),
            Transcript::Tail(tail) => status_at(alive, Some(tail@), threshold@, now@),
        },
{
    match transcript {
        Transcript::Missing => AgentStatus::unknown(),
        Transcript::Unreadable => read_status_at(alive, None, threshold, now),
        Transcript::Tail(tail) => read_status_at(alive, Some(tail.as_str()), threshold, now),
    }
}

/// Where to start reading a transcript of `len` bytes.
pub fn tail_start(len: u64) -> (start: u64)
    ensures
        start as int == if len > TAIL_BYTES {
            len - TAIL_BYTES
        } else {
            0
        },
{
    len.saturating_sub(TAIL_BYTES)
}

/// The text that bytes stand for where some of them may be no UTF-8.
pub uninterp spec fn lossy(bytes: Seq<u8>) -> Seq<char>;

/// `String::from_utf8_lossy`: the text that the bytes encode where they are UTF-8; a text that
/// depends on the bytes alone otherwise.
#[verifier::external_body]
fn lossy_text(bytes: &Vec<u8>) -> (s: String)
    ensures
        s@ == lossy(bytes@),
        utf8::valid_utf8(bytes@) ==> s@ == utf8::decode_utf8(bytes@),
{
    String::from_utf8_lossy(bytes).into_owned()
}

/// `s` without what precedes and includes the first line break; nothing where there is none.
pub open spec fn after_first_line(s: Seq<char>) -> Seq<char> {
    if text::find(s, '\n') < s.len() {
        s.skip(text::find(s, '\n') as int + 1)
    } else {
        Seq::empty()
    }
}

/// The whole lines of a text that was read from `start` on. A text that was not read from the
/// beginning starts within a line, which is left out.
pub open spec fn whole_lines_of(s: Seq<char>, start: u64) -> Seq<char> {
    if start == 0 {
        s
    } else {
        after_first_line(s)
    }
}

/// The whole lines of a text that was read from `start` on.
pub fn whole_lines(s: &str, start: u64) -> (kept: String)
    ensures
        kept@ == whole_lines_of(s@, start),
{
    if start == 0 {
        return s.to_owned();
    }
    let chars = to_chars(s);
    let at: usize = find_char(&chars, 0, '\n');
    proof {
        assert(chars@.skip(0) =~= chars@);
    }
    if at < chars.len() {
        proof {
            assert(chars@.subrange(at + 1, chars@.len() as int) =~= chars@.skip(at + 1));
        }
        to_text(&chars, at + 1, chars.len())
    } else {
        String::new()
    }
}

/// The whole lines in the bytes that were read of a transcript from `start` on.
pub fn read_tail(bytes: &Vec<u8>, start: u64) -> (tail: String)
    ensures
        tail@ == whole_lines_of(lossy(bytes@), start),
        utf8::valid_utf8(bytes@) ==> tail@ == whole_lines_of(utf8::decode_utf8(bytes@), start),
{
    let s = lossy_text(bytes);
    whole_lines(s.as_str(), start)
}

} // verus!
