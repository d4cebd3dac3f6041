//! Text primitives: characters, sizes, searching, trimming and lines.

use vstd::prelude::*;
use vstd::utf8;

verus! {

/// `String::push` appends the one given character to the string.
pub assume_specification[ String::push ](s: &mut String, c: char)
    ensures
        final(s)@ == old(s)@.push(c),
;

/// The characters of `text`, in order.
pub fn to_chars(text: &str) -> (chars: Vec<char>)
    ensures
        chars@ == text@,
{
    let mut chars: Vec<char> = Vec::new();
    for c in it: text.chars()
        invariant
            it.seq() == text@,
            chars@ == text@.take(it.index()),
    {
        proof {
            assert(text@.take(it.index()).push(c) =~= text@.take(it.index() + 1));
        }
        chars.push(c);
    }
    proof {
        assert(text@.take(text@.len() as int) =~= text@);
    }
    chars
}

/// The characters from `from` up to, but not including, `to`, as a string.
pub fn to_text(chars: &Vec<char>, from: usize, to: usize) -> (text: String)
    requires
        from <= to <= chars@.len(),
    ensures
        text@ == chars@.subrange(from as int, to as int),
{
    let mut text = String::new();
    let mut i: usize = from;
    while i < to
        invariant
            from <= i <= to <= chars@.len(),
            text@ == chars@.subrange(from as int, i as int),
        decreases to - i,
    {
        text.push(chars[i]);
        i += 1;
        proof {
            assert(chars@.subrange(from as int, i as int) =~= chars@.subrange(
                from as int,
                i - 1,
            ).push(chars@[i - 1]));
        }
    }
    text
}

/// How many bytes `s` takes in UTF-8.
pub open spec fn size(s: Seq<char>) -> nat {
    utf8::encode_utf8(s).len()
}

/// How many bytes `c` takes in UTF-8.
pub open spec fn width(c: char) -> nat {
    if c as u32 <= 0x7f {
        1
    } else if c as u32 <= 0x7ff {
        2
    } else if c as u32 <= 0xffff {
        3
    } else {
        4
    }
}

/// How many bytes `c` takes in UTF-8.
pub fn char_width(c: char) -> (bytes: usize)
    ensures
        bytes == width(c),
{
    let code: u32 = c as u32;
    if code <= 0x7f {
        1
    } else if code <= 0x7ff {
        2
    } else if code <= 0xffff {
        3
    } else {
        4
    }
}

/// The size of a text is the sum of the widths of its characters.
pub proof fn lemma_size_push(s: Seq<char>, c: char)
    ensures
        size(s.push(c)) == size(s) + width(c),
    decreases s.len(),
{
    if s.len() == 0 {
        assert(s.push(c).drop_first() =~= Seq::empty());
        assert(utf8::encode_utf8(Seq::empty()).len() == 0);
        assert(utf8::encode_utf8(s.push(c)) == utf8::encode_scalar(c as u32) + utf8::encode_utf8(
            s.push(c).drop_first(),
        ));
    } else {
        lemma_size_push(s.drop_first(), c);
        assert(s.push(c).drop_first() =~= s.drop_first().push(c));
    }
}

/// A part of a text is no larger than the text.
pub proof fn lemma_size_take(s: Seq<char>, n: int)
    requires
        0 <= n <= s.len(),
    ensures
        size(s.take(n)) <= size(s),
        n < s.len() ==> size(s.take(n)) < size(s),
    decreases s.len() - n,
{
    if n == s.len() {
        assert(s.take(n) =~= s);
    } else {
        lemma_size_take(s, n + 1);
        lemma_size_push(s.take(n), s[n]);
        assert(s.take(n + 1) =~= s.take(n).push(s[n]));
    }
}

/// How many bytes `text` takes.
pub fn byte_len(text: &str) -> (bytes: usize)
    ensures
        bytes == size(text@),
{
    text.as_bytes().len()
}

/// How many of the first characters of `s` fit into `limit` bytes.
pub open spec fn fit(s: Seq<char>, limit: int) -> nat
    decreases s.len(),
{
    if s.len() == 0 {
        0
    } else if size(s) <= limit {
        s.len()
    } else {
        fit(s.drop_last(), limit)
    }
}

/// The characters that fit take at most `limit` bytes, and one more would not fit.
pub proof fn lemma_fit(s: Seq<char>, limit: int)
    requires
        0 <= limit,
    ensures
        fit(s, limit) <= s.len(),
        size(s.take(fit(s, limit) as int)) <= limit,
        fit(s, limit) < s.len() ==> size(s.take(fit(s, limit) as int + 1)) > limit,
        fit(s, limit) == s.len() <==> size(s) <= limit,
    decreases s.len(),
{
    if s.len() == 0 {
        assert(s.take(0) =~= Seq::empty());
    } else if size(s) <= limit {
        assert(s.take(s.len() as int) =~= s);
    } else {
        lemma_fit(s.drop_last(), limit);
        let n = fit(s, limit) as int;
        assert(s.drop_last().take(n) =~= s.take(n));
        if n < s.len() - 1 {
            assert(s.drop_last().take(n + 1) =~= s.take(n + 1));
        } else {
            assert(s.take(n + 1) =~= s);
        }
    }
}

/// The characters that fit are those that take at most `limit` bytes where one more would not.
pub proof fn lemma_fit_is(s: Seq<char>, limit: int, n: int)
    requires
        0 <= limit,
        0 <= n <= s.len(),
        size(s.take(n)) <= limit,
        n < s.len() ==> size(s.take(n + 1)) > limit,
    ensures
        fit(s, limit) == n,
{
    lemma_fit(s, limit);
    let m = fit(s, limit) as int;
    if n < m {
        lemma_size_take(s.take(m), n + 1);
        assert(s.take(m).take(n + 1) =~= s.take(n + 1));
    } else if m < n {
        lemma_size_take(s.take(n), m + 1);
        assert(s.take(n).take(m + 1) =~= s.take(m + 1));
    }
}

/// Cuts `text` down to the characters that fit into `limit` bytes.
pub fn truncated(text: &str, limit: usize) -> (head: String)
    ensures
        head@ == text@.take(fit(text@, limit as int) as int),
{
    let chars = to_chars(text);
    let mut used: usize = 0;
    let mut at: usize = 0;
    proof {
        assert(chars@.take(0) =~= Seq::empty());
        assert(size(Seq::empty()) == 0);
    }
    while at < chars.len() && char_width(chars[at]) <= limit - used
        invariant
            at <= chars@.len(),
            used == size(chars@.take(at as int)),
            used <= limit,
        decreases chars@.len() - at,
    {
        proof {
            lemma_size_push(chars@.take(at as int), chars@[at as int]);
            assert(chars@.take(at + 1) =~= chars@.take(at as int).push(chars@[at as int]));
        }
        used += char_width(chars[at]);
        at += 1;
    }
    proof {
        if at < chars@.len() {
            lemma_size_push(chars@.take(at as int), chars@[at as int]);
            assert(chars@.take(at + 1) =~= chars@.take(at as int).push(chars@[at as int]));
        }
        lemma_fit_is(chars@, limit as int, at as int);
        assert(chars@.subrange(0, at as int) =~= chars@.take(at as int));
    }
    to_text(&chars, 0, at)
}

/// Two texts with the same UTF-8 encoding are the same text.
pub proof fn lemma_encoding_determines_text(a: Seq<char>, b: Seq<char>)
    ensures
        utf8::encode_utf8(a) == utf8::encode_utf8(b) <==> a == b,
{
    utf8::encode_utf8_decode_utf8(a);
    utf8::encode_utf8_decode_utf8(b);
}

/// Whether two texts hold the same characters.
pub fn same_text(a: &str, b: &str) -> (same: bool)
    ensures
        same == (a@ == b@),
{
    let x = a.as_bytes();
    let y = b.as_bytes();
    proof {
        lemma_encoding_determines_text(a@, b@);
    }
    if x.len() != y.len() {
        return false;
    }
    let mut i: usize = 0;
    while i < x.len()
        invariant
            x@ == utf8::encode_utf8(a@),
            y@ == utf8::encode_utf8(b@),
            x@.len() == y@.len(),
            i <= x@.len(),
            forall|j: int| 0 <= j < i ==> x@[j] == y@[j],
            utf8::encode_utf8(a@) == utf8::encode_utf8(b@) <==> a@ == b@,
        decreases x@.len() - i,
    {
        if x[i] != y[i] {
            return false;
        }
        i += 1;
    }
    proof {
        assert(x@ =~= y@);
    }
    true
}

/// The text in an optional string.
pub open spec fn text_in(held: Option<String>) -> Option<Seq<char>> {
    match held {
        Some(s) => Some(s@),
        None => None,
    }
}

/// The text in an optional string slice.
pub open spec fn str_in(s: Option<&str>) -> Option<Seq<char>> {
    match s {
        Some(t) => Some(t@),
        None => None,
    }
}

/// The texts that a list of strings holds.
pub open spec fn texts(list: Seq<String>) -> Seq<Seq<char>> {
    list.map_values(|item: String| item@)
}

/// Whether some string of `list` holds exactly `text`.
pub fn list_contains(list: &Vec<String>, text: &str) -> (found: bool)
    ensures
        found == texts(list@).contains(text@),
{
    let mut i: usize = 0;
    while i < list.len()
        invariant
            i <= list@.len(),
            forall|j: int| 0 <= j < i ==> texts(list@)[j] != text@,
        decreases list@.len() - i,
    {
        if same_text(list[i].as_str(), text) {
            proof {
                assert(texts(list@)[i as int] == text@);
            }
            return true;
        }
        i += 1;
    }
    false
}

/// How many characters of `s` stand before its first `c`; all of them where there is none.
pub open spec fn find(s: Seq<char>, c: char) -> nat
    decreases s.len(),
{
    if s.len() == 0 || s[0] == c {
        0
    } else {
        1 + find(s.skip(1), c)
    }
}

/// The first occurrence is where `find` says, and nowhere earlier.
pub proof fn lemma_find(s: Seq<char>, c: char)
    ensures
        find(s, c) <= s.len(),
        find(s, c) < s.len() ==> s[find(s, c) as int] == c,
        forall|i: int| 0 <= i < find(s, c) ==> s[i] != c,
        s.contains(c) <==> find(s, c) < s.len(),
    decreases s.len(),
{
    if s.len() != 0 && s[0] != c {
        let rest = s.skip(1);
        lemma_find(rest, c);
        assert forall|i: int| 0 <= i < find(s, c) implies s[i] != c by {
            if i > 0 {
                assert(rest[i - 1] == s[i]);
            }
        }
        if s.contains(c) {
            let i = choose|i: int| 0 <= i < s.len() && s[i] == c;
            assert(rest[i - 1] == c);
        }
    }
}

/// An index that holds the first `c` is the one `find` gives.
pub proof fn lemma_find_is(s: Seq<char>, c: char, at: int)
    requires
        0 <= at <= s.len(),
        at < s.len() ==> s[at] == c,
        forall|i: int| 0 <= i < at ==> s[i] != c,
    ensures
        find(s, c) == at,
{
    lemma_find(s, c);
}

/// The index of the first `c` at or after `from`; the length where there is none.
pub fn find_char(chars: &Vec<char>, from: usize, c: char) -> (at: usize)
    requires
        from <= chars@.len(),
    ensures
        at == from + find(chars@.skip(from as int), c),
        from <= at <= chars@.len(),
{
    let mut at: usize = from;
    while at < chars.len() && chars[at] != c
        invariant
            from <= at <= chars@.len(),
            forall|i: int| from <= i < at ==> chars@[i] != c,
        decreases chars@.len() - at,
    {
        at += 1;
    }
    proof {
        let rest = chars@.skip(from as int);
        assert forall|i: int| 0 <= i < at - from implies rest[i] != c by {
            assert(rest[i] == chars@[from + i]);
        }
        lemma_find_is(rest, c, at - from);
    }
    at
}

/// Whether `prefix` is how `chars` goes on at `from`.
pub fn matches_at(chars: &Vec<char>, from: usize, prefix: &Vec<char>) -> (matched: bool)
    requires
        from <= chars@.len(),
    ensures
        matched == prefix@.is_prefix_of(chars@.skip(from as int)),
{
    let total: usize = chars.len();
    if total - from < prefix.len() {
        return false;
    }
    let mut i: usize = 0;
    while i < prefix.len()
        invariant
            total == chars@.len(),
            from + prefix@.len() <= chars@.len(),
            i <= prefix@.len(),
            forall|j: int| 0 <= j < i ==> chars@[from + j] == prefix@[j],
        decreases prefix@.len() - i,
    {
        if chars[from + i] != prefix[i] {
            proof {
                assert(chars@.skip(from as int)[i as int] == chars@[from + i]);
                assert(chars@.skip(from as int).take(prefix@.len() as int)[i as int]
                    != prefix@[i as int]);
            }
            return false;
        }
        i += 1;
    }
    proof {
        assert(prefix@ =~= chars@.skip(from as int).subrange(0, prefix@.len() as int));
    }
    true
}

/// Whether `text` starts with `prefix`.
pub fn starts_with(text: &str, prefix: &str) -> (matched: bool)
    ensures
        matched == prefix@.is_prefix_of(text@),
{
    let chars = to_chars(text);
    let wanted = to_chars(prefix);
    proof {
        assert(chars@.skip(0) =~= chars@);
    }
    matches_at(&chars, 0, &wanted)
}

/// Whether `needle` occurs somewhere in `hay`.
pub open spec fn occurs_in(needle: Seq<char>, hay: Seq<char>) -> bool {
    exists|at: int| 0 <= at <= hay.len() && needle.is_prefix_of(#[trigger] hay.skip(at))
}

/// Whether `needle` occurs somewhere in `hay`.
pub fn contains_text(hay: &str, needle: &str) -> (found: bool)
    ensures
        found == occurs_in(needle@, hay@),
{
    let chars = to_chars(hay);
    let wanted = to_chars(needle);
    let mut at: usize = 0;
    loop
        invariant
            chars@ == hay@,
            wanted@ == needle@,
            at <= chars@.len(),
            forall|i: int| 0 <= i < at ==> !wanted@.is_prefix_of(#[trigger] chars@.skip(i)),
        decreases chars@.len() - at,
    {
        if matches_at(&chars, at, &wanted) {
            return true;
        }
        if at == chars.len() {
            return false;
        }
        at += 1;
    }
}

/// `c` in lower case, if it is one of the letters A to Z.
pub open spec fn ascii_lower(c: char) -> char {
    if 'A' <= c <= 'Z' {
        ((c as u32) + 32) as char
    } else {
        c
    }
}

/// `s` with the letters A to Z in lower case.
pub open spec fn ascii_lowered(s: Seq<char>) -> Seq<char> {
    s.map_values(|c: char| ascii_lower(c))
}

fn lower_letter(c: char) -> (lower: char)
    ensures
        lower == ascii_lower(c),
{
    if 'A' <= c && c <= 'Z' {
        let code: u8 = c as u8;
        (code + 32) as char
    } else {
        c
    }
}

/// `s` with the letters A to Z in lower case.
pub fn lower_letters(s: &str) -> (lower: String)
    ensures
        lower@ == ascii_lowered(s@),
{
    let chars = to_chars(s);
    let mut lower = String::new();
    let mut i: usize = 0;
    while i < chars.len()
        invariant
            i <= chars@.len(),
            chars@ == s@,
            lower@ == ascii_lowered(s@).take(i as int),
        decreases chars@.len() - i,
    {
        lower.push(lower_letter(chars[i]));
        i += 1;
        proof {
            let all = ascii_lowered(s@);
            assert(all.take(i as int) =~= all.take(i - 1).push(all[i - 1]));
        }
    }
    proof {
        assert(ascii_lowered(s@).take(i as int) =~= ascii_lowered(s@));
    }
    lower
}

/// Whether `s` is all ASCII.
pub open spec fn is_ascii_text(s: Seq<char>) -> bool {
    forall|i: int| 0 <= i < s.len() ==> (#[trigger] s[i]) as u32 <= 0x7f
}

/// A text that is all ASCII takes as many bytes as it has characters.
pub proof fn lemma_ascii_size(s: Seq<char>)
    requires
        is_ascii_text(s),
    ensures
        size(s) == s.len(),
    decreases s.len(),
{
    if s.len() > 0 {
        assert(is_ascii_text(s.drop_last())) by {
            assert forall|i: int| 0 <= i < s.len() - 1 implies (#[trigger] s.drop_last()[i]) as u32
                <= 0x7f by {
                assert(s.drop_last()[i] == s[i]);
            }
        }
        lemma_ascii_size(s.drop_last());
        lemma_size_push(s.drop_last(), s.last());
        assert(s.drop_last().push(s.last()) =~= s);
    }
}

/// Whether `i` is the first place where `a` and `b` differ, with the smaller character in `a`.
pub open spec fn smaller_at(a: Seq<char>, b: Seq<char>, i: int) -> bool {
    &&& 0 <= i < a.len()
    &&& i < b.len()
    &&& a[i] < b[i]
    &&& forall|j: int| 0 <= j < i ==> a[j] == b[j]
}

/// Whether `a` comes before `b` in the order of texts: by the first place where they differ, and a
/// text before those that it is the beginning of.
pub open spec fn sorts_before(a: Seq<char>, b: Seq<char>) -> bool {
    ||| exists|i: int| #[trigger] smaller_at(a, b, i)
    ||| a.len() < b.len() && a.is_prefix_of(b)
}

/// A text in lower case.
pub uninterp spec fn lowercase(s: Seq<char>) -> Seq<char>;

/// A text in lower case; where it is all ASCII, only the letters A to Z change.
pub open spec fn lowered(s: Seq<char>) -> Seq<char> {
    if is_ascii_text(s) {
        ascii_lowered(s)
    } else {
        lowercase(s)
    }
}

/// `str::to_lowercase`: the text in lower case, by a rule that depends on the text alone and that
/// changes, in a text that is all ASCII, the letters A to Z and nothing else.
#[verifier::external_body]
pub(crate) fn to_lower(s: &str) -> (lower: String)
    ensures
        lower@ == lowercase(s@),
        is_ascii_text(s@) ==> lower@ == ascii_lowered(s@),
{
    s.to_lowercase()
}

/// The Unicode White_Space characters.
pub open spec fn white_space(c: char) -> bool {
    ||| '\u{9}' <= c <= '\u{d}'
    ||| c == '\u{20}'
    ||| c == '\u{85}'
    ||| c == '\u{a0}'
    ||| c == '\u{1680}'
    ||| '\u{2000}' <= c <= '\u{200a}'
    ||| c == '\u{2028}'
    ||| c == '\u{2029}'
    ||| c == '\u{202f}'
    ||| c == '\u{205f}'
    ||| c == '\u{3000}'
}

/// Whether `c` is a White_Space character.
pub fn is_white_space(c: char) -> (blank: bool)
    ensures
        blank == white_space(c),
{
    let code: u32 = c as u32;
    (0x9 <= code && code <= 0xd) || code == 0x20 || code == 0x85 || code == 0xa0 || code == 0x1680
        || (0x2000 <= code && code <= 0x200a) || code == 0x2028 || code == 0x2029 || code == 0x202f
        || code == 0x205f || code == 0x3000
}

/// How many characters of `s` stand before its first blank; all of them where there is none.
pub open spec fn word_len(s: Seq<char>) -> nat
    decreases s.len(),
{
    if s.len() == 0 || white_space(s[0]) {
        0
    } else {
        1 + word_len(s.skip(1))
    }
}

/// `s` without the blanks that it starts with.
pub open spec fn trim_start(s: Seq<char>) -> Seq<char>
    decreases s.len(),
{
    if s.len() != 0 && white_space(s[0]) {
        trim_start(s.skip(1))
    } else {
        s
    }
}

/// `s` without the blanks that it ends with.
pub open spec fn trim_end(s: Seq<char>) -> Seq<char>
    decreases s.len(),
{
    if s.len() != 0 && white_space(s.last()) {
        trim_end(s.drop_last())
    } else {
        s
    }
}

/// `s` without the blanks at either end.
pub open spec fn trimmed(s: Seq<char>) -> Seq<char> {
    trim_end(trim_start(s))
}

/// Leading blanks, however many, are what `trim_start` takes away.
pub proof fn lemma_trim_start(s: Seq<char>, blanks: int)
    requires
        0 <= blanks <= s.len(),
        forall|i: int| 0 <= i < blanks ==> white_space(#[trigger] s[i]),
    ensures
        trim_start(s) == trim_start(s.skip(blanks)),
    decreases blanks,
{
    if blanks == 0 {
        assert(s.skip(0) =~= s);
    } else {
        let rest = s.skip(1);
        assert forall|i: int| 0 <= i < blanks - 1 implies white_space(#[trigger] rest[i]) by {
            assert(rest[i] == s[i + 1]);
        }
        lemma_trim_start(rest, blanks - 1);
        assert(rest.skip(blanks - 1) =~= s.skip(blanks));
        assert(white_space(s[0]));
    }
}

/// Trailing blanks, however many, are what `trim_end` takes away.
pub proof fn lemma_trim_end(s: Seq<char>, keep: int)
    requires
        0 <= keep <= s.len(),
        forall|i: int| keep <= i < s.len() ==> white_space(#[trigger] s[i]),
    ensures
        trim_end(s) == trim_end(s.take(keep)),
    decreases s.len() - keep,
{
    if keep == s.len() {
        assert(s.take(keep) =~= s);
    } else {
        assert(white_space(s[s.len() - 1]));
        lemma_trim_end(s.drop_last(), keep);
        assert(s.drop_last().take(keep) =~= s.take(keep));
    }
}

/// The index of the first character at or after `from` that is not blank; the length where there
/// is none.
pub fn skip_blanks(chars: &Vec<char>, from: usize) -> (at: usize)
    requires
        from <= chars@.len(),
    ensures
        from <= at <= chars@.len(),
        trim_start(chars@.skip(from as int)) == chars@.skip(at as int),
{
    let mut at: usize = from;
    while at < chars.len() && is_white_space(chars[at])
        invariant
            from <= at <= chars@.len(),
            forall|i: int| from <= i < at ==> white_space(#[trigger] chars@[i]),
        decreases chars@.len() - at,
    {
        at += 1;
    }
    proof {
        let rest = chars@.skip(from as int);
        assert forall|i: int| 0 <= i < at - from implies white_space(#[trigger] rest[i]) by {
            assert(rest[i] == chars@[from + i]);
        }
        lemma_trim_start(rest, at - from);
        assert(rest.skip(at - from) =~= chars@.skip(at as int));
    }
    at
}

/// The first blank is where `word_len` says.
pub proof fn lemma_word_len(s: Seq<char>, at: int)
    requires
        0 <= at <= s.len(),
        at < s.len() ==> white_space(s[at]),
        forall|i: int| 0 <= i < at ==> !white_space(#[trigger] s[i]),
    ensures
        word_len(s) == at,
    decreases at,
{
    if at > 0 {
        let rest = s.skip(1);
        assert forall|i: int| 0 <= i < at - 1 implies !white_space(#[trigger] rest[i]) by {
            assert(rest[i] == s[i + 1]);
        }
        lemma_word_len(rest, at - 1);
        assert(!white_space(s[0]));
    }
}

/// The index of the first blank at or after `from`; the length where there is none.
pub fn skip_word(chars: &Vec<char>, from: usize) -> (at: usize)
    requires
        from <= chars@.len(),
    ensures
        from <= at <= chars@.len(),
        at == from + word_len(chars@.skip(from as int)),
{
    let mut at: usize = from;
    while at < chars.len() && !is_white_space(chars[at])
        invariant
            from <= at <= chars@.len(),
            forall|i: int| from <= i < at ==> !white_space(#[trigger] chars@[i]),
        decreases chars@.len() - at,
    {
        at += 1;
    }
    proof {
        let rest = chars@.skip(from as int);
        assert forall|i: int| 0 <= i < at - from implies !white_space(#[trigger] rest[i]) by {
            assert(rest[i] == chars@[from + i]);
        }
        lemma_word_len(rest, at - from);
    }
    at
}

/// `text` without the blanks at either end.
pub fn trim(text: &str) -> (core: String)
    ensures
        core@ == trimmed(text@),
{
    let chars = to_chars(text);
    let start: usize = skip_blanks(&chars, 0);
    let mut end: usize = chars.len();
    while end > start && is_white_space(chars[end - 1])
        invariant
            start <= end <= chars@.len(),
            forall|i: int| end <= i < chars@.len() ==> white_space(#[trigger] chars@[i]),
        decreases end,
    {
        end -= 1;
    }
    proof {
        assert(chars@.skip(0) =~= chars@);
        let rest = chars@.skip(start as int);
        assert forall|i: int| end - start <= i < rest.len() implies white_space(
            #[trigger] rest[i],
        ) by {
            assert(rest[i] == chars@[start + i]);
        }
        lemma_trim_end(rest, end - start);
        assert(rest.take(end - start) =~= chars@.subrange(start as int, end as int));
    }
    to_text(&chars, start, end)
}

/// The first blank-separated word of `s`; nothing where `s` is blank throughout.
pub open spec fn first_word_of(s: Seq<char>) -> Seq<char> {
    trim_start(s).take(word_len(trim_start(s)) as int)
}

/// The first blank-separated word of `text`; nothing where `text` is blank throughout.
pub fn first_word(text: &str) -> (word: String)
    ensures
        word@ == first_word_of(text@),
{
    let chars = to_chars(text);
    let start: usize = skip_blanks(&chars, 0);
    let end: usize = skip_word(&chars, start);
    proof {
        assert(chars@.skip(0) =~= chars@);
        assert(chars@.skip(start as int).take(end - start) =~= chars@.subrange(
            start as int,
            end as int,
        ));
    }
    to_text(&chars, start, end)
}

/// `s` without one carriage return at its end.
pub open spec fn strip_return(s: Seq<char>) -> Seq<char> {
    if s.len() != 0 && s.last() == '\r' {
        s.drop_last()
    } else {
        s
    }
}

/// The lines of `s`: each ends at a line feed, or at a carriage return and a line feed, and a last
/// line needs no ending.
pub open spec fn lines_of(s: Seq<char>) -> Seq<Seq<char>>
    decreases s.len(),
{
    if s.len() == 0 {
        Seq::empty()
    } else if find(s, '\n') >= s.len() {
        seq![s]
    } else {
        seq![strip_return(s.take(find(s, '\n') as int))] + lines_of(
            s.skip(find(s, '\n') as int + 1),
        )
    }
}

/// The lines of `text`.
pub fn lines(text: &str) -> (found: Vec<String>)
    ensures
        texts(found@) == lines_of(text@),
{
    let chars = to_chars(text);
    let mut found: Vec<String> = Vec::new();
    let mut from: usize = 0;
    proof {
        assert(chars@.skip(0) =~= chars@);
        assert(texts(found@) + lines_of(chars@) =~= lines_of(text@));
    }
    while from < chars.len()
        invariant
            chars@ == text@,
            from <= chars@.len(),
            texts(found@) + lines_of(chars@.skip(from as int)) == lines_of(text@),
        decreases chars@.len() - from,
    {
        let ghost rest = chars@.skip(from as int);
        let ghost before = texts(found@);
        let at: usize = find_char(&chars, from, '\n');
        if at == chars.len() {
            found.push(to_text(&chars, from, at));
            proof {
                assert(chars@.subrange(from as int, at as int) =~= rest);
                assert(texts(found@) =~= before.push(rest));
                assert(chars@.skip(at as int) =~= Seq::<char>::empty());
                assert(texts(found@) + lines_of(chars@.skip(at as int)) =~= before + seq![rest]);
            }
            from = at;
        } else {
            let end: usize = if at > from && chars[at - 1] == '\r' {
                at - 1
            } else {
                at
            };
            found.push(to_text(&chars, from, end));
            proof {
                let line = rest.take(at - from);
                assert(rest.skip(at - from + 1) =~= chars@.skip(at + 1));
                assert(chars@.subrange(from as int, end as int) =~= strip_return(line));
                assert(texts(found@) =~= before.push(strip_return(line)));
                assert(texts(found@) + lines_of(chars@.skip(at + 1)) =~= before + (seq![
                    strip_return(line),
                ] + lines_of(chars@.skip(at + 1))));
            }
            from = at + 1;
        }
    }
    proof {
        assert(chars@.skip(from as int) =~= Seq::<char>::empty());
        assert(texts(found@) + lines_of(chars@.skip(from as int)) =~= texts(found@));
    }
    found
}

} // verus!
