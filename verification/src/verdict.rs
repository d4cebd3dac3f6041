//! Verdicts on permission requests: messages such as `yes abcde` or `no abcde`.

use vstd::prelude::*;

use crate::content;
use crate::content::strip_fallback;
use crate::text;
use crate::text::{same_text, skip_word, to_chars, to_lower, to_text, trim};

verus! {

/// A verdict on a permission request.
#[derive(Debug, Clone)]
pub struct PermissionVerdict {
    pub request_id: String,
    /// Either `allow` or `deny`.
    pub behavior: String,
}

/// A verdict on a permission request.
pub struct VerdictModel {
    pub request: Seq<char>,
    pub behavior: Seq<char>,
}

impl View for PermissionVerdict {
    type V = VerdictModel;

    open spec fn view(&self) -> VerdictModel {
        VerdictModel { request: self.request_id@, behavior: self.behavior@ }
    }
}

/// What an optional verdict says.
pub open spec fn verdict_in(verdict: Option<PermissionVerdict>) -> Option<VerdictModel> {
    match verdict {
        Some(v) => Some(v@),
        None => None,
    }
}

/// A letter that a request id may hold: one of a to z but for l.
pub open spec fn is_id_letter(c: char) -> bool {
    'a' <= c <= 'z' && c != 'l'
}

/// Whether `id` has the form of a request id: five letters.
pub open spec fn is_request_id(id: Seq<char>) -> bool {
    id.len() == 5 && forall|i: int| 0 <= i < 5 ==> is_id_letter(#[trigger] id[i])
}

/// What a word in lower case says to a request.
pub open spec fn behavior_of(word: Seq<char>) -> Option<Seq<char>> {
    if word == "y"@ || word == "yes"@ {
        Some("allow"@)
    } else if word == "n"@ || word == "no"@ {
        Some("deny"@)
    } else {
        None
    }
}

/// The verdict that a word in lower case and what follows it make.
pub open spec fn verdict_of(word: Seq<char>, rest: Seq<char>) -> Option<VerdictModel> {
    match behavior_of(word) {
        Some(behavior) => if is_request_id(text::trimmed(rest)) {
            Some(VerdictModel { request: text::trimmed(rest), behavior })
        } else {
            None
        },
        None => None,
    }
}

fn valid_request_id(id: &str) -> (valid: bool)
    ensures
        valid == is_request_id(id@),
{
    let chars = to_chars(id);
    if chars.len() != 5 {
        return false;
    }
    let mut i: usize = 0;
    while i < 5
        invariant
            i <= 5,
            chars@ == id@,
            chars@.len() == 5,
            forall|j: int| 0 <= j < i ==> is_id_letter(#[trigger] id@[j]),
        decreases 5 - i,
    {
        let c: char = chars[i];
        if c < 'a' || c > 'z' || c == 'l' {
            proof {
                assert(!is_id_letter(id@[i as int]));
            }
            return false;
        }
        i += 1;
    }
    true
}

/// The verdict that a word in lower case and what follows it make, if they make one.
pub fn verdict_from(word: &str, rest: &str) -> (verdict: Option<PermissionVerdict>)
    ensures
        verdict_in(verdict) == verdict_of(word@, rest@),
{
    let behavior: String = if same_text(word, "y") || same_text(word, "yes") {
        "allow".to_owned()
    } else if same_text(word, "n") || same_text(word, "no") {
        "deny".to_owned()
    } else {
        return None;
    };
    let id = trim(rest);
    if valid_request_id(id.as_str()) {
        Some(PermissionVerdict { request_id: id, behavior })
    } else {
        None
    }
}

/// The verdict in a message, where the quote of another message at its beginning is left aside:
/// a word for yes or no, white space, and a request id.
pub open spec fn verdict_in_message(s: Seq<char>) -> Option<VerdictModel> {
    let core = text::trimmed(content::without_fallback(s));
    let n = text::word_len(core) as int;
    if n >= core.len() {
        None
    } else {
        verdict_of(text::lowered(core.take(n)), core.skip(n + 1))
    }
}

/// The verdict in a message, if it is one.
pub fn parse_permission_verdict(s: &str) -> (verdict: Option<PermissionVerdict>)
    ensures
        verdict_in(verdict) == verdict_in_message(s@),
{
    let core = trim(strip_fallback(s));
    let chars = to_chars(core.as_str());
    let n: usize = skip_word(&chars, 0);
    proof {
        assert(chars@.skip(0) =~= chars@);
    }
    if n >= chars.len() {
        return None;
    }
    let word = to_text(&chars, 0, n);
    let rest = to_text(&chars, n + 1, chars.len());
    proof {
        assert(chars@.subrange(0, n as int) =~= chars@.take(n as int));
        assert(chars@.subrange(n + 1, chars@.len() as int) =~= chars@.skip(n + 1));
    }
    verdict_from(to_lower(word.as_str()).as_str(), rest.as_str())
}

/// Every verdict either allows or denies, and names a request.
pub proof fn lemma_verdict_is_well_formed(s: Seq<char>)
    requires
        verdict_in_message(s) is Some,
    ensures
        verdict_in_message(s)->0.behavior == "allow"@ || verdict_in_message(s)->0.behavior
            == "deny"@,
        is_request_id(verdict_in_message(s)->0.request),
{
}

} // verus!
