//! Rooms in which the bridge only hears what is addressed to it.

use vstd::prelude::*;

use crate::text;
use crate::text::{contains_text, to_lower};

verus! {

/// Whether `pattern` occurs in `s`, in whatever case either is written.
pub open spec fn occurs_in_any_case(pattern: Seq<char>, s: Seq<char>) -> bool {
    text::occurs_in(text::lowered(pattern), text::lowered(s))
}

/// Whether one of the patterns occurs in `s`, in whatever case they are written.
pub open spec fn any_occurs(patterns: Seq<Seq<char>>, s: Seq<char>) -> bool {
    exists|i: int| 0 <= i < patterns.len() && occurs_in_any_case(#[trigger] patterns[i], s)
}

/// Whether a message has to be searched for the bridge's name: it has to mention the bridge and
/// does not do so by its id.
pub fn needs_name(required: bool, s: &str, own_id: &str) -> (needed: bool)
    ensures
        needed == (required && !text::occurs_in(own_id@, s@)),
{
    required && !contains_text(s, own_id)
}

/// Whether a message is addressed to the bridge, where `by_pattern` tells whether one of the
/// patterns occurs in it: always where it does not have to be, and else by the bridge's id, by its
/// name, if it has one, or by a pattern.
pub open spec fn addressed(
    required: bool,
    s: Seq<char>,
    own_id: Seq<char>,
    own_name: Option<Seq<char>>,
    by_pattern: bool,
) -> bool {
    ||| !required
    ||| text::occurs_in(own_id, s)
    ||| own_name matches Some(name) && text::occurs_in(name, s)
    ||| by_pattern
}

/// Whether one of the texts occurs in `s`, as both are written.
pub fn any_found(list: &Vec<String>, s: &str) -> (found: bool)
    ensures
        found == exists|i: int|
            0 <= i < list@.len() && text::occurs_in((#[trigger] list@[i])@, s@),
{
    let mut i: usize = 0;
    while i < list.len()
        invariant
            i <= list@.len(),
            forall|j: int| 0 <= j < i ==> !text::occurs_in((#[trigger] list@[j])@, s@),
        decreases list@.len() - i,
    {
        if contains_text(s, list[i].as_str()) {
            proof {
                assert(text::occurs_in(list@[i as int]@, s@));
            }
            return true;
        }
        i += 1;
    }
    false
}

/// Whether a message is addressed to the bridge, where `low` is the message in lower case and
/// `low_patterns` holds the patterns in lower case.
pub fn mentioned_with(
    required: bool,
    s: &str,
    own_id: &str,
    own_name: Option<&str>,
    low: &str,
    low_patterns: &Vec<String>,
) -> (yes: bool)
    ensures
        yes == addressed(
            required,
            s@,
            own_id@,
            text::str_in(own_name),
            exists|i: int|
                0 <= i < low_patterns@.len() && text::occurs_in(
                    (#[trigger] low_patterns@[i])@,
                    low@,
                ),
        ),
{
    if !needs_name(required, s, own_id) {
        return true;
    }
    if let Some(name) = own_name {
        if contains_text(s, name) {
            return true;
        }
    }
    any_found(low_patterns, low)
}

/// Patterns in lower case.
fn lower_all(patterns: &Vec<String>) -> (low: Vec<String>)
    ensures
        low@.len() == patterns@.len(),
        forall|i: int|
            0 <= i < low@.len() ==> (#[trigger] low@[i])@ == text::lowered(patterns@[i]@),
{
    let mut low: Vec<String> = Vec::new();
    let mut i: usize = 0;
    while i < patterns.len()
        invariant
            i <= patterns@.len(),
            low@.len() == i,
            forall|j: int| 0 <= j < i ==> (#[trigger] low@[j])@ == text::lowered(patterns@[j]@),
        decreases patterns@.len() - i,
    {
        low.push(to_lower(patterns[i].as_str()));
        i += 1;
    }
    low
}

/// Whether a message is addressed to the bridge: always where it does not have to be, and else by
/// the bridge's id, by its name, if it has one, or by one of the patterns, which is looked for in
/// whatever case it is written.
pub fn mentioned(
    required: bool,
    s: &str,
    own_id: &str,
    own_name: Option<&str>,
    patterns: &Vec<String>,
) -> (yes: bool)
    ensures
        yes == addressed(
            required,
            s@,
            own_id@,
            text::str_in(own_name),
            any_occurs(text::texts(patterns@), s@),
        ),
{
    let low = to_lower(s);
    let low_patterns = lower_all(patterns);
    proof {
        let all = text::texts(patterns@);
        if any_occurs(all, s@) {
            let i = choose|i: int| 0 <= i < all.len() && occurs_in_any_case(#[trigger] all[i], s@);
            assert(text::occurs_in(low_patterns@[i]@, low@));
        }
        assert forall|i: int|
            0 <= i < low_patterns@.len() && text::occurs_in(
                (#[trigger] low_patterns@[i])@,
                low@,
            ) implies any_occurs(all, s@) by {
            assert(occurs_in_any_case(all[i], s@));
        }
    }
    mentioned_with(required, s, own_id, own_name, low.as_str(), &low_patterns)
}

/// Where a mention is required, a message without the bridge's id, its name and the patterns is
/// not for the agent, and one with any of them is.
pub proof fn lemma_mention_rule(
    s: Seq<char>,
    own_id: Seq<char>,
    own_name: Option<Seq<char>>,
    patterns: Seq<Seq<char>>,
)
    ensures
        addressed(true, s, own_id, own_name, any_occurs(patterns, s)) <==> {
            ||| text::occurs_in(own_id, s)
            ||| own_name is Some && text::occurs_in(own_name->0, s)
            ||| exists|i: int|
                0 <= i < patterns.len() && text::occurs_in(
                    text::lowered(#[trigger] patterns[i]),
                    text::lowered(s),
                )
        },
{
    assert(forall|i: int|
        0 <= i < patterns.len() ==> occurs_in_any_case(#[trigger] patterns[i], s)
            == text::occurs_in(text::lowered(patterns[i]), text::lowered(s)));
}

/// How a message and a pattern that are all ASCII are written, in capital or in small letters,
/// makes no difference to whether the one is found in the other.
pub proof fn lemma_case_makes_no_difference(
    pattern: Seq<char>,
    other: Seq<char>,
    s: Seq<char>,
    t: Seq<char>,
)
    requires
        text::is_ascii_text(pattern),
        text::is_ascii_text(other),
        text::is_ascii_text(s),
        text::is_ascii_text(t),
        text::ascii_lowered(pattern) == text::ascii_lowered(other),
        text::ascii_lowered(s) == text::ascii_lowered(t),
    ensures
        occurs_in_any_case(pattern, s) == occurs_in_any_case(other, t),
{
}

} // verus!
