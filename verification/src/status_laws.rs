//! What holds of every status.

use vstd::prelude::*;

use crate::calendar;
use crate::clock::NANOS;
use crate::json;
use crate::json::JsonModel;
use crate::json_laws;
use crate::numbers;
use crate::numbers_laws;
use crate::status;
use crate::status::{AgentState, Signal, TEXT_GRACE_SECS};
use crate::text;
use crate::text_laws;

verus! {

/// A status shows when records were written and what they signal, and nothing else: transcripts
/// that agree on that have the same status, whatever else their records hold.
pub proof fn lemma_status_shows_signals_only(
    a: Seq<JsonModel>,
    b: Seq<JsonModel>,
    threshold: int,
    now: int,
)
    requires
        a.len() == b.len(),
        forall|i: int|
            0 <= i < a.len() ==> status::stamp_of(#[trigger] a[i]) == status::stamp_of(b[i])
                && status::signal_of(a[i]) == status::signal_of(b[i]),
    ensures
        status::status_model(a, threshold, now) == status::status_model(b, threshold, now),
        status::status_model(a, threshold, now).rendered() == status::status_model(
            b,
            threshold,
            now,
        ).rendered(),
{
    lemma_same_signals(a, b);
}

proof fn lemma_same_signals(a: Seq<JsonModel>, b: Seq<JsonModel>)
    requires
        a.len() == b.len(),
        forall|i: int|
            0 <= i < a.len() ==> status::stamp_of(#[trigger] a[i]) == status::stamp_of(b[i])
                && status::signal_of(a[i]) == status::signal_of(b[i]),
    ensures
        status::last_stamp(a) == status::last_stamp(b),
        status::last_signal(a) == status::last_signal(b),
        status::last_tool(a) == status::last_tool(b),
        status::turn_start(a) == status::turn_start(b),
    decreases a.len(),
{
    if a.len() > 0 {
        let x = a.drop_last();
        let y = b.drop_last();
        assert forall|i: int| 0 <= i < x.len() implies status::stamp_of(#[trigger] x[i])
            == status::stamp_of(y[i]) && status::signal_of(x[i]) == status::signal_of(y[i]) by {
            assert(x[i] == a[i]);
        }
        lemma_same_signals(x, y);
        assert(a.last() == a[a.len() - 1]);
    }
}

/// Whether two records have the same type, agree on holding a tool's result, and have blocks of
/// the same types that name the same tools.
pub open spec fn same_outline(a: JsonModel, b: JsonModel) -> bool {
    &&& a.member_string("type"@) == b.member_string("type"@)
    &&& a.member("toolUseResult"@) is Some <==> b.member("toolUseResult"@) is Some
    &&& match (status::blocks_of(a), status::blocks_of(b)) {
        (Some(x), Some(y)) => same_blocks(x, y),
        (None, None) => true,
        _ => false,
    }
}

/// Whether blocks have the same types and name the same tools.
pub open spec fn same_blocks(x: Seq<JsonModel>, y: Seq<JsonModel>) -> bool {
    &&& x.len() == y.len()
    &&& forall|i: int|
        0 <= i < x.len() ==> (#[trigger] x[i]).member_string("type"@) == y[i].member_string(
            "type"@,
        ) && x[i].member_string("name"@) == y[i].member_string("name"@)
}

/// What a record signals is read off its outline: never off the text of a message, the input of a
/// tool or its output.
pub proof fn lemma_signal_hides_content(a: JsonModel, b: JsonModel)
    requires
        same_outline(a, b),
    ensures
        status::signal_of(a) == status::signal_of(b),
{
    if let Some(x) = status::blocks_of(a) {
        let y = status::blocks_of(b)->0;
        lemma_same_first_tool(x, y);
    }
}

proof fn lemma_same_first_tool(x: Seq<JsonModel>, y: Seq<JsonModel>)
    requires
        same_blocks(x, y),
    ensures
        status::first_tool(x) == status::first_tool(y),
    decreases x.len(),
{
    if x.len() > 0 {
        assert(x[0].member_string("type"@) == y[0].member_string("type"@));
        let u = x.skip(1);
        let v = y.skip(1);
        assert forall|i: int| 0 <= i < u.len() implies (#[trigger] u[i]).member_string("type"@)
            == v[i].member_string("type"@) && u[i].member_string("name"@) == v[i].member_string(
            "name"@,
        ) by {
            assert(u[i] == x[i + 1]);
        }
        lemma_same_first_tool(u, v);
    }
}

/// A record that carries neither a timestamp nor a signal changes nothing.
pub proof fn lemma_noise_changes_nothing(
    values: Seq<JsonModel>,
    noise: JsonModel,
    threshold: int,
    now: int,
)
    requires
        status::stamp_of(noise) is None,
        status::signal_of(noise) is None,
    ensures
        status::status_model(values.push(noise), threshold, now) == status::status_model(
            values,
            threshold,
            now,
        ),
{
    assert(values.push(noise).drop_last() =~= values);
}

/// A line that is blank or no JSON is skipped.
pub proof fn lemma_malformed_line_is_skipped(lines: Seq<Seq<char>>, line: Seq<char>)
    requires
        text::trimmed(line).len() == 0 || json::parsed_json(text::trimmed(line)) is None,
    ensures
        status::values_in(lines.push(line)) == status::values_in(lines),
{
    assert(lines.push(line).drop_last() =~= lines);
    assert(status::values_in(lines) + Seq::<JsonModel>::empty() =~= status::values_in(lines));
}

/// A text that ends with a line break and what follows it have the lines of the one and of the other.
proof fn lemma_lines_concat(a: Seq<char>, b: Seq<char>)
    requires
        a.len() > 0,
        a.last() == '\n',
    ensures
        text::lines_of(a + b) == text::lines_of(a) + text::lines_of(b),
    decreases a.len(),
{
    let n = text::find(a, '\n') as int;
    text::lemma_find(a, '\n');
    assert(a.contains('\n')) by {
        assert(a[a.len() - 1] == '\n');
    }
    assert forall|i: int| 0 <= i < n implies (a + b)[i] != '\n' by {
        assert((a + b)[i] == a[i]);
    }
    text::lemma_find_is(a + b, '\n', n);
    let rest = a.skip(n + 1);
    assert((a + b).take(n) =~= a.take(n));
    assert((a + b).skip(n + 1) =~= rest + b);
    if rest.len() == 0 {
        assert(rest + b =~= b);
        assert(text::lines_of(rest) =~= Seq::empty());
    } else {
        lemma_lines_concat(rest, b);
    }
    assert(text::lines_of(a + b) =~= text::lines_of(a) + text::lines_of(b));
}

/// The end of a transcript is read in whole lines: wherever the reading began, the lines that are
/// kept are the last lines of the transcript, and none of them is cut short at its beginning.
pub proof fn lemma_tail_holds_whole_lines(head: Seq<char>, rest: Seq<char>)
    ensures
        text::lines_of(status::after_first_line(rest)).is_suffix_of(text::lines_of(head + rest)),
{
    let n = text::find(rest, '\n') as int;
    text::lemma_find(rest, '\n');
    let all = text::lines_of(head + rest);
    if n < rest.len() {
        let a = head + rest.take(n + 1);
        let b = rest.skip(n + 1);
        assert(a.last() == '\n');
        lemma_lines_concat(a, b);
        assert(a + b =~= head + rest);
        let kept = text::lines_of(b);
        assert(all.subrange(all.len() - kept.len(), all.len() as int) =~= kept);
    } else {
        assert(all.subrange(all.len() as int, all.len() as int) =~= Seq::<Seq<char>>::empty());
    }
}

/// An agent whose last word was text, and that has been quiet for the period of grace or for an
/// unknown time, is waiting, never stuck, however long ago that was.
pub proof fn lemma_finished_turn_is_waiting(values: Seq<JsonModel>, threshold: int, now: int)
    requires
        status::last_signal(values) == Some(Signal::AssistantText),
        status::age_at(status::last_stamp(values), now) matches Some(age) ==> age
            >= TEXT_GRACE_SECS * NANOS,
    ensures
        status::status_model(values, threshold, now).state == AgentState::WaitingForUser,
        status::status_model(values, threshold, now).elapsed is None,
        status::status_model(values, threshold, now).tool is None,
{
}

/// An agent stalls exactly when it has work under way and was last active longer ago than the
/// threshold.
pub proof fn lemma_stalled_iff_quiet_at_work(values: Seq<JsonModel>, threshold: int, now: int)
    ensures
        status::status_model(values, threshold, now).state == AgentState::Stalled <==> {
            let age = status::age_at(status::last_stamp(values), now);
            &&& status::last_signal(values) is Some
            &&& age is Some
            &&& age->0 > threshold
            &&& status::last_signal(values)->0 is AssistantText ==> age->0 < TEXT_GRACE_SECS
                * NANOS
        },
{
}

/// Nothing is known exactly when no record carries a signal, and a transcript never declares the
/// agent dead.
pub proof fn lemma_unknown_iff_no_signal(values: Seq<JsonModel>, threshold: int, now: int)
    ensures
        status::status_model(values, threshold, now).state == AgentState::Unknown
            <==> status::last_signal(values) is None,
        status::status_model(values, threshold, now).state != AgentState::Dead,
{
}

/// The agent is dead exactly when its process is known to be gone.
pub proof fn lemma_dead_iff_process_gone(
    alive: Option<bool>,
    tail: Option<Seq<char>>,
    threshold: int,
    now: int,
)
    ensures
        status::status_at(alive, tail, threshold, now).state == AgentState::Dead <==> alive == Some(
            false,
        ),
{
    if let Some(s) = tail {
        lemma_unknown_iff_no_signal(status::values_in(text::lines_of(s)), threshold, now);
    }
}

/// Whether a record is what a human wrote: a user's record without the result of a tool.
pub open spec fn is_prompt(value: JsonModel) -> bool {
    json_laws::says(value, "type"@, "user"@) && json_laws::lacks(value, "toolUseResult"@)
}

/// Whether a record is the result of a tool.
pub open spec fn is_result(value: JsonModel) -> bool {
    json_laws::says(value, "type"@, "user"@) && !json_laws::lacks(value, "toolUseResult"@)
}

/// Whether a record is the assistant's, with these blocks.
pub open spec fn has_blocks(value: JsonModel, blocks: Seq<JsonModel>) -> bool {
    json_laws::says(value, "type"@, "assistant"@) && exists|message: JsonModel| #[trigger]
        json_laws::holds(value, "message"@, message) && json_laws::holds(
            message,
            "content"@,
            JsonModel::Array(blocks),
        )
}

/// Whether a block calls a tool.
pub open spec fn is_call(block: JsonModel) -> bool {
    json_laws::says(block, "type"@, "tool_use"@)
}

/// Whether a block names the tool `name`; a tool without a name is unnamed.
pub open spec fn names_tool(block: JsonModel, name: Seq<char>) -> bool {
    ||| json_laws::says(block, "name"@, name)
    ||| (forall|other: Seq<char>| !#[trigger] json_laws::says(block, "name"@, other)) && name
        == "(unnamed)"@
}

/// Whether a record is the assistant's and its first block that calls a tool names `name`.
pub open spec fn calls_tool(value: JsonModel, name: Seq<char>) -> bool {
    exists|blocks: Seq<JsonModel>, at: int|
        #![trigger has_blocks(value, blocks), blocks[at]]
        has_blocks(value, blocks) && 0 <= at < blocks.len() && is_call(blocks[at]) && names_tool(
            blocks[at],
            name,
        ) && forall|i: int| 0 <= i < at ==> !is_call(#[trigger] blocks[i])
}

/// Whether a record is the assistant's and none of its blocks calls a tool.
pub open spec fn is_text(value: JsonModel) -> bool {
    exists|blocks: Seq<JsonModel>| #[trigger]
        has_blocks(value, blocks) && forall|i: int|
            0 <= i < blocks.len() ==> !is_call(#[trigger] blocks[i])
}

/// Whether a record calls some tool.
pub open spec fn calls_some_tool(value: JsonModel) -> bool {
    exists|name: Seq<char>| #[trigger] calls_tool(value, name)
}

/// Whether a record tells anything of liveness.
pub open spec fn tells(value: JsonModel) -> bool {
    is_prompt(value) || is_result(value) || is_text(value) || calls_some_tool(value)
}

proof fn lemma_first_tool(blocks: Seq<JsonModel>)
    ensures
        status::first_tool(blocks) is None ==> forall|i: int|
            0 <= i < blocks.len() ==> !is_call(#[trigger] blocks[i]),
        status::first_tool(blocks) matches Some(name) ==> exists|at: int|
            0 <= at < blocks.len() && is_call(#[trigger] blocks[at]) && names_tool(
                blocks[at],
                name,
            ) && forall|i: int| 0 <= i < at ==> !is_call(#[trigger] blocks[i]),
    decreases blocks.len(),
{
    if blocks.len() > 0 {
        let rest = blocks.skip(1);
        json_laws::lemma_what_is_read(blocks[0], "type"@);
        json_laws::lemma_what_is_read(blocks[0], "name"@);
        assert(is_call(blocks[0]) <==> blocks[0].member_string("type"@) == Some("tool_use"@));
        if is_call(blocks[0]) {
            let name = status::first_tool(blocks)->0;
            if blocks[0].member_string("name"@) is Some {
                assert(json_laws::says(blocks[0], "name"@, name));
            }
            assert(names_tool(blocks[0], name));
        } else {
            lemma_first_tool(rest);
            if status::first_tool(rest) is None {
                assert forall|i: int| 0 <= i < blocks.len() implies !is_call(
                    #[trigger] blocks[i],
                ) by {
                    if i > 0 {
                        assert(rest[i - 1] == blocks[i]);
                    }
                }
            } else {
                let name = status::first_tool(rest)->0;
                let at = choose|at: int|
                    0 <= at < rest.len() && is_call(#[trigger] rest[at]) && names_tool(
                        rest[at],
                        name,
                    ) && forall|i: int| 0 <= i < at ==> !is_call(#[trigger] rest[i]);
                assert(blocks[at + 1] == rest[at]);
                assert forall|i: int| 0 <= i < at + 1 implies !is_call(#[trigger] blocks[i]) by {
                    if i > 0 {
                        assert(rest[i - 1] == blocks[i]);
                    }
                }
            }
        }
    }
}

proof fn lemma_one_name(block: JsonModel, a: Seq<char>, b: Seq<char>)
    requires
        names_tool(block, a),
        names_tool(block, b),
    ensures
        a == b,
{
    json_laws::lemma_what_is_read(block, "name"@);
    assert(json_laws::says(block, "name"@, a) ==> block.member_string("name"@) == Some(a));
    assert(json_laws::says(block, "name"@, b) ==> block.member_string("name"@) == Some(b));
}

proof fn lemma_blocks(value: JsonModel)
    ensures
        forall|blocks: Seq<JsonModel>| #[trigger]
            has_blocks(value, blocks) <==> value.member_string("type"@) == Some("assistant"@)
                && status::blocks_of(value) == Some(blocks),
{
    json_laws::lemma_what_is_read(value, "type"@);
    json_laws::lemma_what_is_read(value, "message"@);
    assert(json_laws::says(value, "type"@, "assistant"@) <==> value.member_string("type"@) == Some(
        "assistant"@,
    ));
    assert forall|blocks: Seq<JsonModel>| #[trigger]
        has_blocks(value, blocks) <==> value.member_string("type"@) == Some("assistant"@)
            && status::blocks_of(value) == Some(blocks) by {
        if let Some(message) = value.member("message"@) {
            json_laws::lemma_what_is_read(message, "content"@);
            assert(json_laws::holds(value, "message"@, message));
            assert(json_laws::holds(message, "content"@, JsonModel::Array(blocks))
                <==> message.member("content"@) == Some(JsonModel::Array(blocks)));
        }
        if has_blocks(value, blocks) {
            let message = choose|message: JsonModel| #[trigger]
                json_laws::holds(value, "message"@, message) && json_laws::holds(
                    message,
                    "content"@,
                    JsonModel::Array(blocks),
                );
            assert(value.member("message"@) == Some(message));
        }
    }
}

/// What a record tells is read off its type, off whether it holds the result of a tool, and off the
/// types of its blocks and the name of the first tool that they call.
pub proof fn lemma_what_a_record_tells(value: JsonModel)
    ensures
        status::signal_of(value) == Some(Signal::UserPrompt) <==> is_prompt(value),
        status::signal_of(value) == Some(Signal::ToolResult) <==> is_result(value),
        status::signal_of(value) == Some(Signal::AssistantText) <==> is_text(value),
        forall|name: Seq<char>|
            status::signal_of(value) == Some(Signal::ToolUse(name)) <==> #[trigger] calls_tool(
                value,
                name,
            ),
        status::signal_of(value) is Some <==> tells(value),
{
    reveal_strlit("user");
    reveal_strlit("assistant");
    assert("user"@.len() == 4 && "assistant"@.len() == 9);
    json_laws::lemma_what_is_read(value, "type"@);
    json_laws::lemma_what_is_read(value, "toolUseResult"@);
    assert(json_laws::says(value, "type"@, "user"@) <==> value.member_string("type"@) == Some(
        "user"@,
    ));
    assert(json_laws::says(value, "type"@, "assistant"@) <==> value.member_string("type"@) == Some(
        "assistant"@,
    ));
    lemma_blocks(value);
    if value.member_string("type"@) == Some("assistant"@) && status::blocks_of(value) is Some {
        let blocks = status::blocks_of(value)->0;
        lemma_first_tool(blocks);
        assert(has_blocks(value, blocks));
        if let Some(name) = status::first_tool(blocks) {
            let at = choose|at: int|
                0 <= at < blocks.len() && is_call(#[trigger] blocks[at]) && names_tool(
                    blocks[at],
                    name,
                ) && forall|i: int| 0 <= i < at ==> !is_call(#[trigger] blocks[i]);
            assert(calls_tool(value, name)) by {
                assert(has_blocks(value, blocks) && is_call(blocks[at]));
            }
            assert forall|other: Seq<char>| #[trigger] calls_tool(value, other) implies other
                == name by {
                let (b, k) = choose|b: Seq<JsonModel>, k: int|
                    #![trigger has_blocks(value, b), b[k]]
                    has_blocks(value, b) && 0 <= k < b.len() && is_call(b[k]) && names_tool(
                        b[k],
                        other,
                    ) && forall|i: int| 0 <= i < k ==> !is_call(#[trigger] b[i]);
                assert(b == blocks);
                if k < at {
                    assert(!is_call(blocks[k]));
                } else if at < k {
                    assert(!is_call(b[at]));
                }
                lemma_one_name(blocks[at], name, other);
            }
        }
    }
}

/// Whether a record was written so many seconds after 1970 began, by its timestamp.
pub open spec fn written_at(value: JsonModel, secs: int) -> bool {
    exists|s: Seq<char>| #[trigger]
        json_laws::says(value, "timestamp"@, s) && calendar::timestamp_of(s) == Some(secs)
}

proof fn lemma_written_at(value: JsonModel)
    ensures
        forall|secs: int| #[trigger] written_at(value, secs) <==> status::stamp_of(value) == Some(
            secs,
        ),
{
    json_laws::lemma_what_is_read(value, "timestamp"@);
    assert forall|secs: int| #[trigger] written_at(value, secs) <==> status::stamp_of(value)
        == Some(secs) by {
        if written_at(value, secs) {
            let s = choose|s: Seq<char>| #[trigger]
                json_laws::says(value, "timestamp"@, s) && calendar::timestamp_of(s) == Some(secs);
            assert(value.member_string("timestamp"@) == Some(s));
        }
        if let Some(s) = value.member_string("timestamp"@) {
            assert(json_laws::says(value, "timestamp"@, s));
        }
    }
}

/// Whether the record at `at` is the last that tells anything.
pub open spec fn last_telling(values: Seq<JsonModel>, at: int) -> bool {
    &&& 0 <= at < values.len()
    &&& tells(values[at])
    &&& forall|i: int| at < i < values.len() ==> !tells(#[trigger] values[i])
}

/// Whether the last record that was written at a known time was written so many seconds after 1970
/// began.
pub open spec fn last_written(values: Seq<JsonModel>, secs: int) -> bool {
    exists|at: int|
        0 <= at < values.len() && written_at(#[trigger] values[at], secs) && forall|i: int, t: int|
            at < i < values.len() ==> !#[trigger] written_at(values[i], t)
}

/// Whether no record was written at a known time.
pub open spec fn never_written(values: Seq<JsonModel>) -> bool {
    forall|i: int, t: int| 0 <= i < values.len() ==> !#[trigger] written_at(values[i], t)
}

/// Whether the record at `at` is the last human prompt.
pub open spec fn last_prompt(values: Seq<JsonModel>, at: int) -> bool {
    &&& 0 <= at < values.len()
    &&& is_prompt(values[at])
    &&& forall|i: int| at < i < values.len() ==> !is_prompt(#[trigger] values[i])
}

/// Whether the tool `name` was called last, and since the last human prompt.
pub open spec fn last_called(values: Seq<JsonModel>, name: Seq<char>) -> bool {
    exists|at: int|
        0 <= at < values.len() && calls_tool(#[trigger] values[at], name) && forall|i: int|
            at < i < values.len() ==> !is_prompt(#[trigger] values[i]) && !calls_some_tool(values[i])
}

/// Whether no tool was called since the last human prompt, or at all where there was none.
pub open spec fn none_called(values: Seq<JsonModel>) -> bool {
    forall|at: int|
        0 <= at < values.len() && calls_some_tool(#[trigger] values[at]) ==> exists|i: int|
            at < i < values.len() && is_prompt(#[trigger] values[i])
}

proof fn lemma_last_signal(values: Seq<JsonModel>)
    ensures
        status::last_signal(values) is None ==> forall|i: int|
            0 <= i < values.len() ==> !tells(#[trigger] values[i]),
        status::last_signal(values) is Some ==> exists|at: int| #[trigger]
            last_telling(values, at) && status::signal_of(values[at]) == status::last_signal(
                values,
            ),
    decreases values.len(),
{
    if values.len() > 0 {
        let rest = values.drop_last();
        let n = values.len() - 1;
        lemma_what_a_record_tells(values[n]);
        if status::signal_of(values[n]) is Some {
            assert(last_telling(values, n));
        } else {
            lemma_last_signal(rest);
            if status::last_signal(rest) is Some {
                let at = choose|at: int| #[trigger]
                    last_telling(rest, at) && status::signal_of(rest[at]) == status::last_signal(
                        rest,
                    );
                assert(values[at] == rest[at]);
                assert forall|i: int| at < i < values.len() implies !tells(
                    #[trigger] values[i],
                ) by {
                    if i < n {
                        assert(rest[i] == values[i]);
                    }
                }
                assert(last_telling(values, at));
            } else {
                assert forall|i: int| 0 <= i < values.len() implies !tells(
                    #[trigger] values[i],
                ) by {
                    if i < n {
                        assert(rest[i] == values[i]);
                    }
                }
            }
        }
    }
}

proof fn lemma_last_stamp(values: Seq<JsonModel>)
    ensures
        status::last_stamp(values) is None ==> never_written(values),
        status::last_stamp(values) matches Some(secs) ==> last_written(values, secs),
    decreases values.len(),
{
    if values.len() > 0 {
        let rest = values.drop_last();
        let n = values.len() - 1;
        lemma_written_at(values[n]);
        if status::stamp_of(values[n]) is Some {
            assert(written_at(values[n], status::stamp_of(values[n])->0));
        } else {
            lemma_last_stamp(rest);
            if let Some(secs) = status::last_stamp(rest) {
                let at = choose|at: int|
                    0 <= at < rest.len() && written_at(#[trigger] rest[at], secs) && forall|
                        i: int,
                        t: int,
                    |
                        at < i < rest.len() ==> !#[trigger] written_at(rest[i], t);
                assert(written_at(values[at], secs));
                assert forall|i: int, t: int| at < i < values.len() implies !#[trigger] written_at(
                    values[i],
                    t,
                ) by {
                    if i < n {
                        assert(!written_at(rest[i], t));
                    }
                }
            } else {
                assert forall|i: int, t: int| 0 <= i < values.len() implies !#[trigger] written_at(
                    values[i],
                    t,
                ) by {
                    if i < n {
                        assert(!written_at(rest[i], t));
                    }
                }
            }
        }
    }
}

proof fn lemma_turn_start(values: Seq<JsonModel>)
    ensures
        forall|at: int| #[trigger]
            last_prompt(values, at) ==> status::turn_start(values) == status::stamp_of(values[at]),
        (forall|i: int| 0 <= i < values.len() ==> !is_prompt(#[trigger] values[i]))
            ==> status::turn_start(values) is None,
    decreases values.len(),
{
    if values.len() > 0 {
        let rest = values.drop_last();
        let n = values.len() - 1;
        lemma_what_a_record_tells(values[n]);
        lemma_turn_start(rest);
        assert forall|at: int| #[trigger] last_prompt(values, at) implies status::turn_start(values)
            == status::stamp_of(values[at]) by {
            if at < n {
                assert(!is_prompt(values[n]));
                assert(rest[at] == values[at]);
                assert forall|i: int| at < i < rest.len() implies !is_prompt(
                    #[trigger] rest[i],
                ) by {
                    assert(rest[i] == values[i]);
                }
                assert(last_prompt(rest, at));
            }
        }
        if forall|i: int| 0 <= i < values.len() ==> !is_prompt(#[trigger] values[i]) {
            assert(!is_prompt(values[n]));
            assert forall|i: int| 0 <= i < rest.len() implies !is_prompt(#[trigger] rest[i]) by {
                assert(rest[i] == values[i]);
            }
        }
    }
}

proof fn lemma_last_tool(values: Seq<JsonModel>)
    ensures
        status::last_tool(values) matches Some(name) ==> last_called(values, name),
        status::last_tool(values) is None ==> none_called(values),
    decreases values.len(),
{
    if values.len() > 0 {
        let rest = values.drop_last();
        let n = values.len() - 1;
        lemma_what_a_record_tells(values[n]);
        match status::signal_of(values[n]) {
            Some(Signal::ToolUse(name)) => {
                assert(calls_tool(values[n], name));
            },
            Some(Signal::UserPrompt) => {
                assert(is_prompt(values[n]));
                assert(!calls_some_tool(values[n])) by {
                    if calls_some_tool(values[n]) {
                        let name = choose|name: Seq<char>| #[trigger] calls_tool(values[n], name);
                    }
                }
            },
            _ => {
                assert(!calls_some_tool(values[n])) by {
                    if calls_some_tool(values[n]) {
                        let name = choose|name: Seq<char>| #[trigger] calls_tool(values[n], name);
                        assert(status::signal_of(values[n]) == Some(Signal::ToolUse(name)));
                    }
                }
                lemma_last_tool(rest);
                if let Some(name) = status::last_tool(rest) {
                    let at = choose|at: int|
                        0 <= at < rest.len() && calls_tool(#[trigger] rest[at], name) && forall|
                            i: int,
                        |
                            at < i < rest.len() ==> !is_prompt(#[trigger] rest[i])
                                && !calls_some_tool(rest[i]);
                    assert(calls_tool(values[at], name));
                    assert forall|i: int| at < i < values.len() implies !is_prompt(
                        #[trigger] values[i],
                    ) && !calls_some_tool(values[i]) by {
                        if i < n {
                            assert(rest[i] == values[i]);
                        }
                    }
                } else {
                    assert forall|at: int|
                        0 <= at < values.len() && calls_some_tool(
                            #[trigger] values[at],
                        ) implies exists|i: int|
                        at < i < values.len() && is_prompt(#[trigger] values[i]) by {
                        assert(rest[at] == values[at]);
                        let i = choose|i: int|
                            at < i < rest.len() && is_prompt(#[trigger] rest[i]);
                        assert(values[i] == rest[i]);
                    }
                }
            },
        }
    }
}

/// How long ago `secs` seconds after 1970 began was, in nanoseconds, if it was.
pub open spec fn ago(secs: int, now: int) -> Option<int> {
    if now >= secs * 1_000_000_000 {
        Some(now - secs * 1_000_000_000)
    } else {
        None
    }
}

/// What the transcript says of the agent. Where no record tells anything, nothing is known. Where
/// the last that does is the assistant's text, the agent waits for the user, unless less than ten
/// seconds ago is known to be the last activity. In any other case it is at work: a tool runs, or
/// the model is thinking about a result or a prompt. Work is stalled exactly if the last activity is
/// longer ago than the threshold.
pub proof fn lemma_what_the_agent_is_doing(
    values: Seq<JsonModel>,
    at: int,
    threshold: int,
    now: int,
)
    requires
        last_telling(values, at),
    ensures
        ({
            let m = status::status_model(values, threshold, now);
            let waits = is_text(values[at]) && !(m.age matches Some(a) && a < 10_000_000_000);
            let quiet = m.age matches Some(a) && a > threshold;
            &&& m.state == if waits {
                AgentState::WaitingForUser
            } else if quiet {
                AgentState::Stalled
            } else {
                AgentState::Working
            }
            &&& forall|secs: int| #[trigger] last_written(values, secs) ==> m.age == ago(secs, now)
            &&& never_written(values) ==> m.age is None
        }),
{
    lemma_last_signal(values);
    lemma_last_stamp(values);
    if status::last_signal(values) is None {
        assert(!tells(values[at]));
    }
    let found = choose|found: int| #[trigger]
        last_telling(values, found) && status::signal_of(values[found]) == status::last_signal(
            values,
        );
    if found < at {
        assert(!tells(values[at]));
    } else if at < found {
        assert(!tells(values[found]));
    }
    lemma_what_a_record_tells(values[at]);
    assert forall|secs: int| #[trigger] last_written(values, secs) implies status::last_stamp(values)
        == Some(secs) by {
        lemma_one_last_stamp(values, secs);
    }
    if never_written(values) {
        if let Some(secs) = status::last_stamp(values) {
            let i = choose|i: int|
                0 <= i < values.len() && written_at(#[trigger] values[i], secs) && forall|
                    k: int,
                    t: int,
                |
                    i < k < values.len() ==> !#[trigger] written_at(values[k], t);
            assert(!written_at(values[i], secs));
        }
    }
}

proof fn lemma_one_last_stamp(values: Seq<JsonModel>, secs: int)
    requires
        last_written(values, secs),
    ensures
        status::last_stamp(values) == Some(secs),
{
    lemma_last_stamp(values);
    let i = choose|i: int|
        0 <= i < values.len() && written_at(#[trigger] values[i], secs) && forall|k: int, t: int|
            i < k < values.len() ==> !#[trigger] written_at(values[k], t);
    if let Some(other) = status::last_stamp(values) {
        let j = choose|j: int|
            0 <= j < values.len() && written_at(#[trigger] values[j], other) && forall|
                k: int,
                t: int,
            |
                j < k < values.len() ==> !#[trigger] written_at(values[k], t);
        if i < j {
            assert(!written_at(values[j], other));
        } else if j < i {
            assert(!written_at(values[i], secs));
        }
        lemma_written_at(values[i]);
        assert(written_at(values[i], secs) && written_at(values[i], other));
    } else {
        assert(!written_at(values[i], secs));
    }
}

/// While the agent is at work, or stalled, the tool is the one that was called last since the last
/// human prompt, and the turn has run since that prompt; in any other state neither is shown.
pub proof fn lemma_what_is_shown_of_the_turn(values: Seq<JsonModel>, threshold: int, now: int)
    ensures
        ({
            let m = status::status_model(values, threshold, now);
            let busy = m.state == AgentState::Working || m.state == AgentState::Stalled;
            &&& !busy ==> m.tool is None && m.elapsed is None
            &&& busy ==> match m.tool {
                Some(name) => last_called(values, name),
                None => none_called(values),
            }
            &&& busy ==> forall|at: int, secs: int|
                #![trigger last_prompt(values, at), written_at(values[at], secs)]
                last_prompt(values, at) && written_at(values[at], secs) ==> m.elapsed == ago(
                    secs,
                    now,
                )
            &&& busy ==> forall|at: int| #[trigger]
                last_prompt(values, at) && (forall|secs: int| !#[trigger] written_at(
                    values[at],
                    secs,
                )) ==> m.elapsed is None
            &&& busy && (forall|i: int| 0 <= i < values.len() ==> !is_prompt(#[trigger] values[i]))
                ==> m.elapsed is None
        }),
{
    lemma_last_tool(values);
    lemma_turn_start(values);
    assert forall|at: int, secs: int|
        #![trigger last_prompt(values, at), written_at(values[at], secs)]
        last_prompt(values, at) && written_at(values[at], secs) implies status::turn_start(values)
        == Some(secs) by {
        lemma_written_at(values[at]);
    }
    assert forall|at: int| #[trigger]
        last_prompt(values, at) && (forall|secs: int| !#[trigger] written_at(
            values[at],
            secs,
        )) implies status::turn_start(values) is None by {
        lemma_written_at(values[at]);
        if let Some(secs) = status::stamp_of(values[at]) {
            assert(written_at(values[at], secs));
        }
    }
}

/// Where no record tells anything, nothing is known, and nothing is shown.
pub proof fn lemma_silent_transcript_is_unknown(values: Seq<JsonModel>, threshold: int, now: int)
    requires
        forall|i: int| 0 <= i < values.len() ==> !tells(#[trigger] values[i]),
    ensures
        status::status_model(values, threshold, now) == (status::StatusModel {
            state: AgentState::Unknown,
            age: None,
            tool: None,
            elapsed: None,
        }),
{
    lemma_last_signal(values);
    if status::last_signal(values) is Some {
        let at = choose|at: int| #[trigger]
            last_telling(values, at) && status::signal_of(values[at]) == status::last_signal(
                values,
            );
        assert(!tells(values[at]));
    }
}

/// An agent whose process is gone is dead, whatever its transcript says; one whose transcript could
/// not be read is in a state that nobody knows; of any other the records in the lines of the
/// transcript tell. Nothing but the state is shown of the first two.
pub proof fn lemma_what_a_look_tells(
    alive: Option<bool>,
    tail: Seq<char>,
    threshold: int,
    now: int,
)
    ensures
        status::status_at(Some(false), Some(tail), threshold, now) == (status::StatusModel {
            state: AgentState::Dead,
            age: None,
            tool: None,
            elapsed: None,
        }),
        status::status_at(Some(false), None, threshold, now).state == AgentState::Dead,
        alive != Some(false) ==> status::status_at(alive, None, threshold, now) == (
        status::StatusModel { state: AgentState::Unknown, age: None, tool: None, elapsed: None }),
        alive != Some(false) ==> status::status_at(alive, Some(tail), threshold, now)
            == status::status_model(
            status::values_in(text::lines_of(tail)),
            threshold,
            now,
        ),
{
}

/// Each line of a transcript that is JSON, blanks around it aside, gives one record, in order; any
/// other gives none.
pub proof fn lemma_each_line_is_a_record(
    lines: Seq<Seq<char>>,
    before: Seq<char>,
    line: Seq<char>,
    behind: Seq<char>,
)
    requires
        text_laws::all_blank(before),
        text_laws::all_blank(behind),
        line.len() > 0,
        !text_laws::blank(line[0]),
        !text_laws::blank(line.last()),
    ensures
        status::values_in(Seq::empty()) == Seq::<JsonModel>::empty(),
        json::parsed_json(line) matches Some(value) ==> status::values_in(
            lines.push(before + line + behind),
        ) == status::values_in(lines).push(value),
        json::parsed_json(line) is None ==> status::values_in(lines.push(before + line + behind))
            == status::values_in(lines),
{
    let last = before + line + behind;
    text_laws::lemma_trimming(before, line, behind);
    assert(lines.push(last).drop_last() =~= lines);
    assert(lines.push(last).last() == last);
    if let Some(value) = json::parsed_json(line) {
        assert(status::values_in(lines.push(last)) =~= status::values_in(lines).push(value));
    } else {
        assert(status::values_in(lines.push(last)) =~= status::values_in(lines));
    }
}

/// Of a text that was not read from the beginning, what follows the first line break is kept, and
/// nothing where there is none; of one that was, all of it.
pub proof fn lemma_cut_line_is_dropped(head: Seq<char>, rest: Seq<char>, start: u64)
    requires
        forall|i: int| 0 <= i < head.len() ==> head[i] != '\n',
    ensures
        status::whole_lines_of(head.push('\n') + rest, start) == if start == 0 {
            head.push('\n') + rest
        } else {
            rest
        },
        start != 0 ==> status::whole_lines_of(head, start).len() == 0,
        status::whole_lines_of(head, 0) == head,
{
    let s = head.push('\n') + rest;
    let n = head.len() as int;
    assert(s[n] == '\n');
    assert forall|i: int| 0 <= i < n implies s[i] != '\n' by {
        assert(s[i] == head[i]);
    }
    text::lemma_find_is(s, '\n', n);
    text::lemma_find_is(head, '\n', n);
    assert(s.skip(n + 1) =~= rest);
}

/// Which states end a working spell, and which of them need an alert.
pub proof fn lemma_states(state: AgentState)
    ensures
        status::terminal(state) <==> state == AgentState::Stalled || state == AgentState::Dead
            || state == AgentState::WaitingForUser,
        status::alarming(state) <==> state == AgentState::Stalled || state == AgentState::Dead,
{
}

/// A length of time is told in seconds below a minute, in minutes and seconds below an hour, and in
/// hours and minutes from there on.
pub proof fn lemma_how_long(hours: nat, minutes: nat, seconds: nat)
    requires
        minutes < 60,
        seconds < 60,
    ensures
        status::duration_words(seconds as int) == numbers::decimal(seconds) + "s"@,
        minutes > 0 ==> status::duration_words((minutes * 60 + seconds) as int)
            == numbers::decimal(minutes) + "m "@ + numbers::decimal(seconds) + "s"@,
        hours > 0 ==> status::duration_words((hours * 3600 + minutes * 60 + seconds) as int)
            == numbers::decimal(hours) + "h "@ + numbers::decimal(minutes) + "m"@,
{
    let t = (hours * 3600 + minutes * 60 + seconds) as int;
    assert(t / 3600 == hours && t % 3600 == minutes * 60 + seconds);
    let u = (minutes * 60 + seconds) as int;
    assert(u / 60 == minutes && u % 60 == seconds);
}

/// What is shown of a status: the state, and, each in a line of its own and only if it is known, how
/// long ago the last activity was, the last tool and how long the turn has run.
pub proof fn lemma_what_is_shown(m: status::StatusModel)
    ensures
        ({
            let state = match m.state {
                AgentState::Working => "working"@,
                AgentState::WaitingForUser => "waiting for you"@,
                AgentState::Stalled => "stalled"@,
                AgentState::Dead => "not running"@,
                AgentState::Unknown => "unknown"@,
            };
            let age = match m.age {
                Some(n) => "\nLast activity: "@ + status::duration_words(n / 1_000_000_000)
                    + " ago"@,
                None => Seq::empty(),
            };
            let tool = match m.tool {
                Some(name) => "\nLast tool:     "@ + name,
                None => Seq::empty(),
            };
            let turn = match m.elapsed {
                Some(n) => "\nTurn elapsed:  "@ + status::duration_words(n / 1_000_000_000),
                None => Seq::empty(),
            };
            &&& status::state_words(m.state) == state
            &&& m.details() == age + tool + turn
            &&& m.rendered() == "Agent:    "@ + state + (age + tool + turn)
        }),
{
}

/// Work counts as stalled after 300 seconds, unless the setting is a number above zero: then after
/// so many.
pub proof fn lemma_when_work_is_stalled(n: u64, s: Seq<char>)
    ensures
        status::stall_seconds(None) == 300,
        n > 0 ==> status::stall_seconds(Some(numbers::decimal(n as nat))) == n,
        status::stall_seconds(Some(numbers::decimal(0))) == 300,
        (exists|i: int| 1 <= i < s.len() && !('0' <= #[trigger] s[i] <= '9')) || s.len() == 0
            ==> status::stall_seconds(Some(s)) == 300,
{
    numbers_laws::lemma_number_round_trip(n);
    numbers_laws::lemma_number_round_trip(0);
    numbers_laws::lemma_read_digit_by_digit(s, '0');
    if exists|i: int| 1 <= i < s.len() && !('0' <= #[trigger] s[i] <= '9') {
        let i = choose|i: int| 1 <= i < s.len() && !('0' <= #[trigger] s[i] <= '9');
        assert(!numbers_laws::is_figure(s[i]));
    } else if s.len() == 0 {
        assert(s =~= Seq::empty());
    }
}

/// What is said of a status, of what a record tells and of records, is what those hold.
pub proof fn lemma_what_statuses_say(
    s: status::AgentStatus,
    record: status::Record,
    values: Seq<json::Json>,
)
    ensures
        s@.state == s.state,
        match s.last_activity_age {
            Some(age) => s@.age == Some(age@),
            None => s@.age is None,
        },
        match s.last_tool {
            Some(tool) => s@.tool == Some(tool@),
            None => s@.tool is None,
        },
        match s.turn_elapsed {
            Some(elapsed) => s@.elapsed == Some(elapsed@),
            None => s@.elapsed is None,
        },
        match record {
            status::Record::ToolUse(name) => record@ == Signal::ToolUse(name@),
            status::Record::ToolResult => record@ == Signal::ToolResult,
            status::Record::AssistantText => record@ == Signal::AssistantText,
            status::Record::UserPrompt => record@ == Signal::UserPrompt,
        },
        status::signal_in(Some(record)) == Some(record@),
        status::signal_in(None) is None,
        status::models(values).len() == values.len(),
        forall|i: int| 0 <= i < values.len() ==> #[trigger] status::models(values)[i] == values[i]@,
{
}

/// The last 64 kilobytes of a transcript are read, and all of a shorter one.
pub proof fn lemma_how_much_is_read()
    ensures
        status::TAIL_BYTES == 64 * 1024,
{
}

} // verus!
