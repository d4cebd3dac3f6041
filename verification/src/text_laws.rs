//! What holds of blanks, words, lines and searches, character by character.

use vstd::prelude::*;

use crate::text;

verus! {

/// Whether a character is one of the White_Space characters.
pub open spec fn blank(c: char) -> bool {
    '\u{9}' <= c <= '\u{d}' || c == ' ' || c == '\u{85}' || c == '\u{a0}' || c == '\u{1680}'
        || '\u{2000}' <= c <= '\u{200a}' || c == '\u{2028}' || c == '\u{2029}' || c == '\u{202f}'
        || c == '\u{205f}' || c == '\u{3000}'
}

/// Whether a text holds blanks alone.
pub open spec fn all_blank(s: Seq<char>) -> bool {
    forall|i: int| 0 <= i < s.len() ==> blank(#[trigger] s[i])
}

/// Whether a text holds no blank.
pub open spec fn no_blank(s: Seq<char>) -> bool {
    forall|i: int| 0 <= i < s.len() ==> !blank(#[trigger] s[i])
}

/// The characters that count as blank are those of White_Space, and no others.
pub proof fn lemma_what_is_blank(c: char)
    ensures
        text::white_space(c) <==> blank(c),
{
}

/// Trimming takes away the blanks around a text, all of them, and nothing else.
pub proof fn lemma_trimming(before: Seq<char>, core: Seq<char>, behind: Seq<char>)
    requires
        all_blank(before),
        all_blank(behind),
        core.len() > 0 ==> !blank(core[0]) && !blank(core.last()),
    ensures
        text::trimmed(before + core + behind) == core,
{
    let s = before + core + behind;
    assert forall|i: int| 0 <= i < before.len() implies text::white_space(#[trigger] s[i]) by {
        assert(s[i] == before[i]);
    }
    text::lemma_trim_start(s, before.len() as int);
    let rest = core + behind;
    assert(s.skip(before.len() as int) =~= rest);
    if core.len() > 0 {
        assert(rest[0] == core[0]);
        assert(text::trim_start(rest) == rest);
        assert forall|i: int| core.len() <= i < rest.len() implies text::white_space(
            #[trigger] rest[i],
        ) by {
            assert(rest[i] == behind[i - core.len()]);
        }
        text::lemma_trim_end(rest, core.len() as int);
        assert(rest.take(core.len() as int) =~= core);
    } else {
        assert(rest =~= behind);
        assert forall|i: int| 0 <= i < behind.len() implies text::white_space(
            #[trigger] behind[i],
        ) by {}
        text::lemma_trim_start(behind, behind.len() as int);
        assert(behind.skip(behind.len() as int) =~= core);
    }
}

/// Every text is what trimming leaves of it, with blanks before and behind.
pub proof fn lemma_trimmed_parts(s: Seq<char>) -> (parts: (Seq<char>, Seq<char>))
    ensures
        all_blank(parts.0),
        all_blank(parts.1),
        s == parts.0 + text::trimmed(s) + parts.1,
        text::trimmed(s).len() > 0 ==> !blank(text::trimmed(s)[0]) && !blank(
            text::trimmed(s).last(),
        ),
    decreases s.len(),
{
    if s.len() > 0 && blank(s[0]) {
        let (a, b) = lemma_trimmed_parts(s.skip(1));
        assert(text::trim_start(s) == text::trim_start(s.skip(1)));
        let before = seq![s[0]] + a;
        assert(s =~= seq![s[0]] + s.skip(1));
        assert(s =~= before + text::trimmed(s) + b);
        (before, b)
    } else {
        let b = lemma_trimmed_end_parts(s);
        assert(text::trim_start(s) == s);
        let a = Seq::<char>::empty();
        assert(s =~= a + text::trimmed(s) + b);
        if text::trimmed(s).len() > 0 {
            assert(text::trimmed(s)[0] == s[0]);
        }
        (a, b)
    }
}

proof fn lemma_trimmed_end_parts(s: Seq<char>) -> (behind: Seq<char>)
    ensures
        all_blank(behind),
        s == text::trim_end(s) + behind,
        text::trim_end(s).len() > 0 ==> !blank(text::trim_end(s).last()),
    decreases s.len(),
{
    if s.len() > 0 && blank(s.last()) {
        let b = lemma_trimmed_end_parts(s.drop_last());
        let behind = b.push(s.last());
        assert(s =~= s.drop_last().push(s.last()));
        assert(s =~= text::trim_end(s) + behind);
        behind
    } else {
        let behind = Seq::<char>::empty();
        assert(s =~= text::trim_end(s) + behind);
        behind
    }
}

/// A word ends at the first blank behind it, or with the text.
pub proof fn lemma_word_ends_at_a_blank(word: Seq<char>, rest: Seq<char>)
    requires
        no_blank(word),
        rest.len() > 0 ==> blank(rest[0]),
    ensures
        text::word_len(word + rest) == word.len(),
{
    let s = word + rest;
    assert forall|i: int| 0 <= i < word.len() implies !text::white_space(#[trigger] s[i]) by {
        assert(s[i] == word[i]);
    }
    if rest.len() > 0 {
        assert(s[word.len() as int] == rest[0]);
    }
    text::lemma_word_len(s, word.len() as int);
}

/// Every text is its first word, which is all of it or has a blank behind it.
pub proof fn lemma_word_parts(s: Seq<char>)
    ensures
        text::word_len(s) <= s.len(),
        no_blank(s.take(text::word_len(s) as int)),
        text::word_len(s) < s.len() ==> blank(s[text::word_len(s) as int]),
    decreases s.len(),
{
    if s.len() > 0 && !blank(s[0]) {
        lemma_word_parts(s.skip(1));
        let n = text::word_len(s) as int;
        assert forall|i: int| 0 <= i < n implies !blank(#[trigger] s.take(n)[i]) by {
            if i > 0 {
                assert(s.skip(1).take(n - 1)[i - 1] == s[i]);
            }
        }
        if n < s.len() {
            assert(s.skip(1)[n - 1] == s[n]);
        }
    }
}

/// The first word of a text: the blanks before it do not count, and it ends at a blank.
pub proof fn lemma_first_word(before: Seq<char>, word: Seq<char>, rest: Seq<char>)
    requires
        all_blank(before),
        no_blank(word),
        word.len() > 0,
        rest.len() > 0 ==> blank(rest[0]),
    ensures
        text::first_word_of(before + word + rest) == word,
{
    let s = before + word + rest;
    assert forall|i: int| 0 <= i < before.len() implies text::white_space(#[trigger] s[i]) by {
        assert(s[i] == before[i]);
    }
    text::lemma_trim_start(s, before.len() as int);
    assert(s.skip(before.len() as int) =~= word + rest);
    assert((word + rest)[0] == word[0]);
    assert(text::trim_start(word + rest) == word + rest);
    lemma_word_ends_at_a_blank(word, rest);
    assert((word + rest).take(word.len() as int) =~= word);
}

/// The lines of a text: up to a line feed each, without a carriage return right before it; the last
/// may lack the line feed.
pub proof fn lemma_lines(line: Seq<char>, rest: Seq<char>)
    requires
        forall|i: int| 0 <= i < line.len() ==> line[i] != '\n',
    ensures
        text::lines_of(Seq::empty()) == Seq::<Seq<char>>::empty(),
        line.len() > 0 ==> text::lines_of(line) == seq![line],
        text::lines_of(line.push('\n') + rest) == seq![
            if line.len() > 0 && line.last() == '\r' {
                line.take(line.len() - 1)
            } else {
                line
            },
        ] + text::lines_of(rest),
{
    text::lemma_find_is(line, '\n', line.len() as int);
    let s = line.push('\n') + rest;
    let n = line.len() as int;
    assert(s[n] == '\n');
    assert forall|i: int| 0 <= i < n implies s[i] != '\n' by {
        assert(s[i] == line[i]);
    }
    text::lemma_find_is(s, '\n', n);
    assert(s.take(n) =~= line);
    assert(s.skip(n + 1) =~= rest);
    if n > 0 {
        assert(line.drop_last() =~= line.take(n - 1));
    }
}

/// Whether `needle` stands in `hay` from `at` on.
pub open spec fn stands_at(needle: Seq<char>, hay: Seq<char>, at: int) -> bool {
    &&& 0 <= at
    &&& at + needle.len() <= hay.len()
    &&& forall|j: int| 0 <= j < needle.len() ==> hay[at + j] == #[trigger] needle[j]
}

/// A text occurs in another exactly if it stands there somewhere, character by character.
pub proof fn lemma_what_occurs(needle: Seq<char>, hay: Seq<char>)
    ensures
        text::occurs_in(needle, hay) <==> exists|at: int| #[trigger] stands_at(needle, hay, at),
{
    if text::occurs_in(needle, hay) {
        let at = choose|at: int|
            0 <= at <= hay.len() && needle.is_prefix_of(#[trigger] hay.skip(at));
        assert forall|j: int| 0 <= j < needle.len() implies hay[at + j] == #[trigger] needle[j] by {
            assert(hay.skip(at).subrange(0, needle.len() as int)[j] == needle[j]);
        }
        assert(stands_at(needle, hay, at));
    }
    if exists|at: int| #[trigger] stands_at(needle, hay, at) {
        let at = choose|at: int| #[trigger] stands_at(needle, hay, at);
        assert(needle =~= hay.skip(at).subrange(0, needle.len() as int));
        assert(needle.is_prefix_of(hay.skip(at)));
    }
}

/// Whether two characters are the same but for the case of a letter from A to Z.
pub open spec fn same_letter(a: char, b: char) -> bool {
    ||| a == b
    ||| 'A' <= a <= 'Z' && b as int == a as int + 32
    ||| 'A' <= b <= 'Z' && a as int == b as int + 32
}

/// Whether a text holds ASCII characters alone.
pub open spec fn plain(s: Seq<char>) -> bool {
    forall|i: int| 0 <= i < s.len() ==> #[trigger] s[i] <= '\u{7f}'
}

proof fn lemma_lower_char(c: char)
    ensures
        text::ascii_lower(c) as int == if 'A' <= c <= 'Z' {
            c as int + 32
        } else {
            c as int
        },
        c <= '\u{7f}' <==> c as u32 <= 0x7f,
{
}

proof fn lemma_plain(s: Seq<char>)
    ensures
        plain(s) <==> text::is_ascii_text(s),
{
    assert forall|i: int| 0 <= i < s.len() implies (#[trigger] s[i] <= '\u{7f}' <==> s[i] as u32
        <= 0x7f) by {
        lemma_lower_char(s[i]);
    }
}

/// Two ASCII texts are the same in lower case exactly if they are as long and agree, character by
/// character, but for the case of letters; and lower case changes no character but the letters
/// from A to Z.
pub proof fn lemma_lower_case(a: Seq<char>, b: Seq<char>)
    requires
        plain(a),
        plain(b),
    ensures
        text::lowered(a) == text::lowered(b) <==> a.len() == b.len() && forall|i: int|
            0 <= i < a.len() ==> same_letter(#[trigger] a[i], b[i]),
        text::lowered(a).len() == a.len(),
        forall|i: int|
            0 <= i < a.len() ==> (#[trigger] text::lowered(a)[i]) as int == if 'A' <= a[i] <= 'Z' {
                a[i] as int + 32
            } else {
                a[i] as int
            },
{
    let x = text::lowered(a);
    let y = text::lowered(b);
    lemma_plain(a);
    lemma_plain(b);
    assert forall|i: int| 0 <= i < a.len() implies (#[trigger] x[i]) as int == if 'A' <= a[i]
        <= 'Z' {
        a[i] as int + 32
    } else {
        a[i] as int
    } by {
        lemma_lower_char(a[i]);
    }
    assert forall|i: int| 0 <= i < b.len() implies (#[trigger] y[i]) as int == if 'A' <= b[i]
        <= 'Z' {
        b[i] as int + 32
    } else {
        b[i] as int
    } by {
        lemma_lower_char(b[i]);
    }
    assert(x.len() == a.len() && y.len() == b.len());
    if x == y {
        assert forall|i: int| 0 <= i < a.len() implies same_letter(#[trigger] a[i], b[i]) by {
            assert(x[i] == y[i]);
        }
    }
    if a.len() == b.len() && (forall|i: int| 0 <= i < a.len() ==> same_letter(#[trigger] a[i], b[i])) {
        assert forall|i: int| 0 <= i < a.len() implies x[i] == y[i] by {
            assert(same_letter(a[i], b[i]));
            assert(x[i] as int == y[i] as int);
        }
        assert(x =~= y);
    }
}

/// As much of a text is kept within a number of bytes as there is room for: what is kept takes no
/// more, and with the next character it would.
pub proof fn lemma_what_fits(s: Seq<char>, limit: int)
    requires
        0 <= limit,
    ensures
        ({
            let n = text::fit(s, limit) as int;
            &&& n <= s.len()
            &&& vstd::utf8::encode_utf8(s.take(n)).len() <= limit
            &&& n < s.len() ==> vstd::utf8::encode_utf8(s.take(n + 1)).len() > limit
        }),
{
    text::lemma_fit(s, limit);
}

/// A text that is not all ASCII is put in lower case by the rule for all of Unicode.
pub proof fn lemma_lower_case_beyond_ascii(s: Seq<char>)
    requires
        !plain(s),
    ensures
        text::lowered(s) == text::lowercase(s),
{
    lemma_plain(s);
}

/// The texts of a list are what its strings hold, each in its place.
pub proof fn lemma_texts_of_a_list(list: Seq<String>, held: Option<String>)
    ensures
        text::texts(list).len() == list.len(),
        forall|i: int| 0 <= i < list.len() ==> #[trigger] text::texts(list)[i] == list[i]@,
        held matches Some(s) ==> text::text_in(held) == Some(s@),
        held is None ==> text::text_in(held) is None,
{
}

} // verus!
