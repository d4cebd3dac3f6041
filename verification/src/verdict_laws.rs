//! Which messages are verdicts, letter by letter.

use vstd::prelude::*;

use crate::content;
use crate::content_laws;
use crate::text;
use crate::text_laws;
use crate::verdict;
use crate::verdict::VerdictModel;

verus! {

/// Whether a text is five letters from a to z, none of them an l.
pub open spec fn five_letters(id: Seq<char>) -> bool {
    &&& id.len() == 5
    &&& forall|i: int| 0 <= i < 5 ==> 'a' <= #[trigger] id[i] <= 'z' && id[i] != 'l'
}

/// Whether `word` is `letters`, in whatever case.
pub open spec fn spells(word: Seq<char>, letters: Seq<char>) -> bool {
    &&& word.len() == letters.len()
    &&& forall|i: int| 0 <= i < word.len() ==> text_laws::same_letter(#[trigger] word[i], letters[i])
}

/// Whether a word says yes.
pub open spec fn says_yes(word: Seq<char>) -> bool {
    spells(word, seq!['y']) || spells(word, seq!['y', 'e', 's'])
}

/// Whether a word says no.
pub open spec fn says_no(word: Seq<char>) -> bool {
    spells(word, seq!['n']) || spells(word, seq!['n', 'o'])
}

proof fn lemma_words()
    ensures
        "y"@ == seq!['y'],
        "yes"@ == seq!['y', 'e', 's'],
        "n"@ == seq!['n'],
        "no"@ == seq!['n', 'o'],
        "allow"@ != "deny"@,
{
    reveal_strlit("y");
    reveal_strlit("yes");
    reveal_strlit("n");
    reveal_strlit("no");
    reveal_strlit("allow");
    reveal_strlit("deny");
    assert("y"@ =~= seq!['y']);
    assert("yes"@ =~= seq!['y', 'e', 's']);
    assert("n"@ =~= seq!['n']);
    assert("no"@ =~= seq!['n', 'o']);
    assert("allow"@.len() == 5 && "deny"@.len() == 4);
}

/// A small word, in lower case, is itself exactly if it is spelt so in some case.
proof fn lemma_spelt(word: Seq<char>, letters: Seq<char>)
    requires
        text_laws::plain(word),
        forall|i: int| 0 <= i < letters.len() ==> 'a' <= #[trigger] letters[i] <= 'z',
    ensures
        text::lowered(word) == letters <==> spells(word, letters),
{
    assert(text_laws::plain(letters));
    text_laws::lemma_lower_case(word, letters);
    text_laws::lemma_lower_case(letters, letters);
    assert(text::lowered(letters) =~= letters);
}

proof fn lemma_answer_words(word: Seq<char>)
    requires
        text_laws::plain(word),
    ensures
        verdict::behavior_of(text::lowered(word)) == if says_yes(word) {
            Some("allow"@)
        } else if says_no(word) {
            Some("deny"@)
        } else {
            None
        },
{
    lemma_words();
    lemma_spelt(word, seq!['y']);
    lemma_spelt(word, seq!['y', 'e', 's']);
    lemma_spelt(word, seq!['n']);
    lemma_spelt(word, seq!['n', 'o']);
}

/// A message that is a word for yes or no and, behind blanks, a request id of five letters from a to
/// z without l is the verdict on that request, whatever blanks stand around it.
pub proof fn lemma_answers_are_verdicts(
    before: Seq<char>,
    word: Seq<char>,
    gap: Seq<char>,
    id: Seq<char>,
    behind: Seq<char>,
)
    requires
        text_laws::all_blank(before),
        says_yes(word) || says_no(word),
        gap.len() > 0,
        text_laws::all_blank(gap),
        five_letters(id),
        text_laws::all_blank(behind),
    ensures
        verdict::verdict_in_message(before + word + gap + id + behind) == Some(
            VerdictModel {
                request: id,
                behavior: if says_yes(word) {
                    "allow"@
                } else {
                    "deny"@
                },
            },
        ),
{
    let s = before + word + gap + id + behind;
    let core = word + gap + id;
    assert(text_laws::plain(word)) by {
        assert forall|i: int| 0 <= i < word.len() implies #[trigger] word[i] <= '\u{7f}' by {}
    }
    assert(text_laws::no_blank(word));
    assert(s =~= before + core + behind);
    assert(core[0] == word[0]);
    assert(core.last() == id[4]);
    text_laws::lemma_trimming(before, core, behind);
    assert(!content_laws::is_reply(s)) by {
        if before.len() > 0 {
            assert(text_laws::blank(before[0]));
            assert(s[0] == before[0]);
        } else {
            assert(s[0] == word[0]);
        }
    }
    content_laws::lemma_quote_is_left_aside(s);
    assert(core =~= word + (gap + id));
    assert((gap + id)[0] == gap[0]);
    text_laws::lemma_word_ends_at_a_blank(word, gap + id);
    let n = word.len() as int;
    assert(core.take(n) =~= word);
    let rest = core.skip(n + 1);
    let inner = gap.skip(1);
    assert forall|i: int| 0 <= i < inner.len() implies text_laws::blank(#[trigger] inner[i]) by {
        assert(inner[i] == gap[i + 1]);
    }
    assert(rest =~= inner + id + Seq::empty());
    text_laws::lemma_trimming(inner, id, Seq::empty());
    lemma_answer_words(word);
    assert(verdict::is_request_id(id));
}

/// For every request id of five letters from a to z without l, `yes` and the id allow the request,
/// and `no` and the id deny it.
pub proof fn lemma_yes_allows_and_no_denies(id: Seq<char>)
    requires
        five_letters(id),
    ensures
        verdict::verdict_in_message("yes "@ + id) == Some(
            VerdictModel { request: id, behavior: "allow"@ },
        ),
        verdict::verdict_in_message("no "@ + id) == Some(
            VerdictModel { request: id, behavior: "deny"@ },
        ),
{
    reveal_strlit("yes ");
    reveal_strlit("no ");
    let none = Seq::<char>::empty();
    let yes = seq!['y', 'e', 's'];
    let no = seq!['n', 'o'];
    let gap = seq![' '];
    assert("yes "@ + id =~= none + yes + gap + id + none);
    assert("no "@ + id =~= none + no + gap + id + none);
    assert(!says_yes(no));
    lemma_answers_are_verdicts(none, yes, gap, id, none);
    lemma_answers_are_verdicts(none, no, gap, id, none);
}

/// A verdict is only ever found in a message that says for itself, blanks aside, a word for yes or
/// no, blanks, and a request id of five letters from a to z without l; it is on that request, and
/// it allows or denies as the word says.
pub proof fn lemma_verdicts_are_answers(s: Seq<char>) -> (parts: (
    Seq<char>,
    Seq<char>,
    Seq<char>,
    Seq<char>,
))
    requires
        verdict::verdict_in_message(s) is Some,
    ensures
        ({
            let (before, word, gap, behind) = parts;
            let found = verdict::verdict_in_message(s)->0;
            &&& five_letters(found.request)
            &&& content_laws::says_for_itself(s, before + word + gap + found.request + behind)
            &&& text_laws::all_blank(before)
            &&& text_laws::no_blank(word)
            &&& gap.len() > 0 && text_laws::all_blank(gap)
            &&& text_laws::all_blank(behind)
            &&& text_laws::plain(word) ==> says_yes(word) || says_no(word)
            &&& text_laws::plain(word) ==> found.behavior == if says_yes(word) {
                "allow"@
            } else {
                "deny"@
            }
            &&& found.behavior == "allow"@ || found.behavior == "deny"@
        }),
{
    let found = verdict::verdict_in_message(s)->0;
    let left = content::without_fallback(s);
    content_laws::lemma_quote_is_left_aside(s);
    let (before, behind) = text_laws::lemma_trimmed_parts(left);
    let core = text::trimmed(left);
    let n = text::word_len(core) as int;
    text_laws::lemma_word_parts(core);
    let word = core.take(n);
    let rest = core.skip(n + 1);
    let (inner, tail) = text_laws::lemma_trimmed_parts(rest);
    let gap = seq![core[n]] + inner;
    let id = found.request;
    assert(id == text::trimmed(rest));
    assert(five_letters(id)) by {
        assert forall|i: int| 0 <= i < 5 implies 'a' <= #[trigger] id[i] <= 'z' && id[i] != 'l' by {
            assert(verdict::is_id_letter(id[i]));
        }
    }
    assert(rest == inner + id + tail);
    assert(core =~= word + (seq![core[n]] + rest));
    assert(core =~= word + gap + id + tail);
    let end = tail + behind;
    assert forall|i: int| 0 <= i < end.len() implies text_laws::blank(#[trigger] end[i]) by {
        if i < tail.len() {
            assert(end[i] == tail[i]);
        } else {
            assert(end[i] == behind[i - tail.len()]);
        }
    }
    assert forall|i: int| 0 <= i < gap.len() implies text_laws::blank(#[trigger] gap[i]) by {
        if i > 0 {
            assert(gap[i] == inner[i - 1]);
        }
    }
    assert(left =~= before + word + gap + id + end);
    if text_laws::plain(word) {
        lemma_answer_words(word);
    }
    (before, word, gap, end)
}

/// What is said of a verdict is what it holds.
pub proof fn lemma_what_a_verdict_says(v: verdict::PermissionVerdict)
    ensures
        v@.request == v.request_id@,
        v@.behavior == v.behavior@,
        verdict::verdict_in(Some(v)) == Some(v@),
        verdict::verdict_in(None) is None,
{
}

/// A message that starts with the quote of another is a verdict exactly if what it says for itself
/// is, and then the same one.
pub proof fn lemma_quotes_do_not_matter(s: Seq<char>, left: Seq<char>)
    requires
        content_laws::says_for_itself(s, left),
        !content_laws::is_reply(left),
    ensures
        verdict::verdict_in_message(s) == verdict::verdict_in_message(left),
{
    content_laws::lemma_quote_is_left_aside(s);
    content_laws::lemma_says_one_thing(s, left, content::without_fallback(s));
    content_laws::lemma_quote_is_left_aside(left);
}

} // verus!
