//! Cutting a long message into pieces that a room takes.

use vstd::prelude::*;

use crate::access::ChunkMode;
use crate::text;
use crate::text::{char_width, to_chars};

verus! {

/// The largest piece, in bytes, where no other limit is set.
pub const MAX_CHUNK_SIZE: usize = 4000;

/// What pieces are measured in.
#[derive(Debug, Clone, Copy, PartialEq, Eq, Structural)]
pub enum Unit {
    Chars,
    Bytes,
}

/// How much of a unit a text takes.
pub open spec fn measure(s: Seq<char>, unit: Unit) -> nat {
    match unit {
        Unit::Chars => s.len(),
        Unit::Bytes => text::size(s),
    }
}

/// The smallest limit: the widest character has to fit.
pub open spec fn least(unit: Unit) -> int {
    match unit {
        Unit::Chars => 1,
        Unit::Bytes => 4,
    }
}

/// How many of the first characters of `s` fit into the limit.
pub open spec fn window_len(s: Seq<char>, limit: int, unit: Unit) -> int {
    match unit {
        Unit::Chars => if s.len() <= limit {
            s.len() as int
        } else {
            limit
        },
        Unit::Bytes => text::fit(s, limit) as int,
    }
}

/// The position right behind the last `c` in `s`; 0 where there is none.
pub open spec fn after_last(s: Seq<char>, c: char) -> nat
    decreases s.len(),
{
    if s.len() == 0 {
        0
    } else if s.last() == c {
        s.len()
    } else {
        after_last(s.drop_last(), c)
    }
}

/// How many characters of a message that does not fit as a whole go into its first piece: in
/// newline mode those up to the last line break that fits, or else up to the last space that fits;
/// otherwise all that fit.
pub open spec fn cut(s: Seq<char>, limit: int, mode: ChunkMode, unit: Unit) -> nat {
    let window = s.take(window_len(s, limit, unit));
    if mode == ChunkMode::Newline && after_last(window, '\n') > 0 {
        after_last(window, '\n')
    } else if mode == ChunkMode::Newline && after_last(window, ' ') > 0 {
        after_last(window, ' ')
    } else {
        window.len()
    }
}

/// The pieces of a message.
pub open spec fn chunks_of(s: Seq<char>, limit: int, mode: ChunkMode, unit: Unit) -> Seq<
    Seq<char>,
>
    decreases s.len(),
{
    if measure(s, unit) <= limit || cut(s, limit, mode, unit) == 0 || cut(s, limit, mode, unit)
        > s.len() {
        seq![s]
    } else {
        seq![s.take(cut(s, limit, mode, unit) as int)] + chunks_of(
            s.skip(cut(s, limit, mode, unit) as int),
            limit,
            mode,
            unit,
        )
    }
}

proof fn lemma_measure_push(s: Seq<char>, c: char, unit: Unit)
    ensures
        measure(s.push(c), unit) == measure(s, unit) + cost(c, unit),
{
    text::lemma_size_push(s, c);
}

proof fn lemma_measure_take(s: Seq<char>, n: int, unit: Unit)
    requires
        0 <= n <= s.len(),
    ensures
        measure(s.take(n), unit) <= measure(s, unit),
{
    text::lemma_size_take(s, n);
}

/// The characters that fit take at most the limit, and one more would not fit.
proof fn lemma_window(s: Seq<char>, limit: int, unit: Unit)
    requires
        0 <= limit,
    ensures
        0 <= window_len(s, limit, unit) <= s.len(),
        measure(s.take(window_len(s, limit, unit)), unit) <= limit,
        window_len(s, limit, unit) < s.len() ==> measure(
            s.take(window_len(s, limit, unit) + 1),
            unit,
        ) > limit,
        window_len(s, limit, unit) == s.len() <==> measure(s, unit) <= limit,
{
    text::lemma_fit(s, limit);
}

proof fn lemma_window_is(s: Seq<char>, limit: int, unit: Unit, n: int)
    requires
        0 <= limit,
        0 <= n < s.len(),
        measure(s.take(n), unit) <= limit,
        measure(s.take(n + 1), unit) > limit,
    ensures
        window_len(s, limit, unit) == n,
        measure(s, unit) > limit,
{
    lemma_measure_take(s, n + 1, unit);
    if unit == Unit::Bytes {
        text::lemma_fit_is(s, limit, n);
    }
}

/// How much of a unit a character takes.
pub open spec fn cost(c: char, unit: Unit) -> nat {
    match unit {
        Unit::Chars => 1,
        Unit::Bytes => text::width(c),
    }
}

fn char_cost(c: char, unit: Unit) -> (amount: usize)
    ensures
        amount == cost(c, unit),
{
    match unit {
        Unit::Chars => 1,
        Unit::Bytes => char_width(c),
    }
}

proof fn lemma_after_last(s: Seq<char>, c: char)
    ensures
        after_last(s, c) <= s.len(),
        after_last(s, c) > 0 ==> s[after_last(s, c) - 1] == c,
        after_last(s, c) > 0 <==> s.contains(c),
    decreases s.len(),
{
    if s.len() > 0 {
        if s.last() == c {
            assert(s[s.len() - 1] == c);
        } else {
            lemma_after_last(s.drop_last(), c);
            if s.contains(c) {
                let i = choose|i: int| 0 <= i < s.len() && s[i] == c;
                assert(s.drop_last()[i] == c);
            }
        }
    }
}

proof fn lemma_after_last_push(s: Seq<char>, c: char, next: char)
    ensures
        after_last(s.push(next), c) == if next == c {
            s.len() + 1
        } else {
            after_last(s, c)
        },
{
    assert(s.push(next).drop_last() =~= s);
}

/// The first piece is not empty, leaves something over and fits.
proof fn lemma_cut(s: Seq<char>, limit: int, mode: ChunkMode, unit: Unit)
    requires
        least(unit) <= limit < measure(s, unit),
    ensures
        0 < cut(s, limit, mode, unit) < s.len(),
        measure(s.take(cut(s, limit, mode, unit) as int), unit) <= limit,
{
    lemma_window(s, limit, unit);
    let n = window_len(s, limit, unit);
    let window = s.take(n);
    lemma_after_last(window, '\n');
    lemma_after_last(window, ' ');
    assert(s.len() > 0);
    if n == 0 {
        lemma_measure_push(Seq::empty(), s[0], unit);
        assert(s.take(1) =~= Seq::empty().push(s[0]));
        assert(measure(Seq::empty(), unit) == 0);
    }
    let k = cut(s, limit, mode, unit) as int;
    lemma_measure_take(window, k, unit);
    assert(window.take(k) =~= s.take(k));
}

/// Put together again, the pieces of a message are the message.
pub proof fn lemma_chunks_rejoin(s: Seq<char>, limit: int, mode: ChunkMode, unit: Unit)
    ensures
        chunks_of(s, limit, mode, unit).flatten() == s,
    decreases s.len(),
{
    let n = cut(s, limit, mode, unit) as int;
    if measure(s, unit) <= limit || n == 0 || n > s.len() {
        assert(seq![s].drop_first() =~= Seq::<Seq<char>>::empty());
        assert(seq![s].flatten() == seq![s].first() + seq![s].drop_first().flatten());
        assert(seq![s].drop_first().flatten() =~= Seq::<char>::empty());
        assert(seq![s].flatten() =~= s);
    } else {
        let rest = chunks_of(s.skip(n), limit, mode, unit);
        lemma_chunks_rejoin(s.skip(n), limit, mode, unit);
        let all = seq![s.take(n)] + rest;
        assert(all.drop_first() =~= rest);
        assert(all.flatten() == all.first() + all.drop_first().flatten());
        assert(s.take(n) + s.skip(n) =~= s);
    }
}

/// No piece of a message takes more than the limit.
pub proof fn lemma_chunks_fit(s: Seq<char>, limit: int, mode: ChunkMode, unit: Unit)
    requires
        least(unit) <= limit,
    ensures
        forall|i: int|
            0 <= i < chunks_of(s, limit, mode, unit).len() ==> measure(#[trigger] chunks_of(s, limit, mode, unit)[i], unit) <= limit,
    decreases s.len(),
{
    if measure(s, unit) > limit {
        lemma_cut(s, limit, mode, unit);
        let n = cut(s, limit, mode, unit) as int;
        lemma_chunks_fit(s.skip(n), limit, mode, unit);
        let rest = chunks_of(s.skip(n), limit, mode, unit);
        let all = chunks_of(s, limit, mode, unit);
        assert forall|i: int| 0 <= i < all.len() implies measure(#[trigger] all[i], unit) <= limit by {
            if i > 0 {
                assert(all[i] == rest[i - 1]);
            }
        }
    }
}

/// A message has at least one piece, and no piece of a message that is not empty is empty.
pub proof fn lemma_chunks_not_empty(s: Seq<char>, limit: int, mode: ChunkMode, unit: Unit)
    requires
        least(unit) <= limit,
    ensures
        chunks_of(s, limit, mode, unit).len() >= 1,
        s.len() > 0 ==> forall|i: int|
            0 <= i < chunks_of(s, limit, mode, unit).len() ==> (#[trigger] chunks_of(
                s,
                limit,
                mode,
                unit,
            )[i]).len() > 0,
    decreases s.len(),
{
    if measure(s, unit) > limit {
        lemma_cut(s, limit, mode, unit);
        let n = cut(s, limit, mode, unit) as int;
        lemma_chunks_not_empty(s.skip(n), limit, mode, unit);
        let rest = chunks_of(s.skip(n), limit, mode, unit);
        let all = chunks_of(s, limit, mode, unit);
        assert forall|i: int| 0 <= i < all.len() implies (#[trigger] all[i]).len() > 0 by {
            if i > 0 {
                assert(all[i] == rest[i - 1]);
            }
        }
    }
}

/// In newline mode every piece but the last ends with a line break if it holds one, and with a
/// space if it holds a space and no line break.
pub proof fn lemma_chunks_break_at_lines(s: Seq<char>, limit: int, unit: Unit)
    requires
        least(unit) <= limit,
    ensures
        forall|i: int|
            0 <= i < chunks_of(s, limit, ChunkMode::Newline, unit).len() - 1 ==> {
                let piece = #[trigger] chunks_of(s, limit, ChunkMode::Newline, unit)[i];
                if piece.contains('\n') {
                    piece.last() == '\n'
                } else {
                    piece.contains(' ') ==> piece.last() == ' '
                }
            },
    decreases s.len(),
{
    if measure(s, unit) > limit {
        let mode = ChunkMode::Newline;
        lemma_cut(s, limit, mode, unit);
        let n = cut(s, limit, mode, unit) as int;
        lemma_chunks_break_at_lines(s.skip(n), limit, unit);
        let rest = chunks_of(s.skip(n), limit, mode, unit);
        let all = chunks_of(s, limit, mode, unit);
        lemma_window(s, limit, unit);
        let window = s.take(window_len(s, limit, unit));
        lemma_after_last(window, '\n');
        lemma_after_last(window, ' ');
        assert forall|i: int| 0 <= i < all.len() - 1 implies {
            let piece = #[trigger] all[i];
            if piece.contains('\n') {
                piece.last() == '\n'
            } else {
                piece.contains(' ') ==> piece.last() == ' '
            }
        } by {
            if i > 0 {
                assert(all[i] == rest[i - 1]);
            } else {
                let piece = all[0];
                assert(piece =~= window.take(n));
                if piece.contains('\n') {
                    let j = choose|j: int| 0 <= j < piece.len() && piece[j] == '\n';
                    assert(window[j] == '\n');
                } else if piece.contains(' ') {
                    let j = choose|j: int| 0 <= j < piece.len() && piece[j] == ' ';
                    assert(window[j] == ' ');
                    if after_last(window, '\n') > 0 {
                        assert(piece[n - 1] == '\n');
                    }
                }
            }
        }
    }
}

/// In length mode pieces are cut at the limit and nowhere else: every piece of a message that is
/// measured in characters has exactly as many characters as the limit, but for the last.
pub proof fn lemma_length_chunks_are_full(s: Seq<char>, limit: int)
    requires
        1 <= limit,
    ensures
        forall|i: int|
            0 <= i < chunks_of(s, limit, ChunkMode::Length, Unit::Chars).len() - 1 ==> (
            #[trigger] chunks_of(s, limit, ChunkMode::Length, Unit::Chars)[i]).len() == limit,
    decreases s.len(),
{
    let unit = Unit::Chars;
    let mode = ChunkMode::Length;
    if measure(s, unit) > limit {
        lemma_cut(s, limit, mode, unit);
        let n = cut(s, limit, mode, unit) as int;
        assert(n == limit);
        lemma_length_chunks_are_full(s.skip(n), limit);
        let rest = chunks_of(s.skip(n), limit, mode, unit);
        let all = chunks_of(s, limit, mode, unit);
        assert forall|i: int| 0 <= i < all.len() - 1 implies (#[trigger] all[i]).len() == limit by {
            if i > 0 {
                assert(all[i] == rest[i - 1]);
            }
        }
    }
}

/// What the pieces hold.
pub open spec fn held(pieces: Seq<&str>) -> Seq<Seq<char>> {
    pieces.map_values(|piece: &str| piece@)
}

/// Cuts `message` into pieces that are within the limit.
fn chunk_by<'a>(message: &'a str, limit: usize, mode: ChunkMode, unit: Unit) -> (pieces: Vec<
    &'a str,
>)
    requires
        least(unit) <= limit,
    ensures
        held(pieces@) == chunks_of(message@, limit as int, mode, unit),
{
    let chars = to_chars(message);
    let total: usize = chars.len();
    let mut pieces: Vec<&'a str> = Vec::new();
    let mut from: usize = 0;
    proof {
        assert(chars@.skip(0) =~= chars@);
        assert(held(pieces@) + chunks_of(chars@.skip(0), limit as int, mode, unit) =~= chunks_of(
            message@,
            limit as int,
            mode,
            unit,
        ));
    }
    loop
        invariant
            least(unit) <= limit,
            chars@ == message@,
            total == chars@.len(),
            from <= total,
            held(pieces@) + chunks_of(chars@.skip(from as int), limit as int, mode, unit) == chunks_of(
                message@,
                limit as int,
                mode,
                unit,
            ),
        decreases total - from,
    {
        let ghost rest = chars@.skip(from as int);
        let mut used: usize = 0;
        let mut to: usize = from;
        let mut line: usize = from;
        let mut word: usize = from;
        proof {
            assert(rest.take(0) =~= Seq::empty());
            assert(measure(Seq::empty(), unit) == 0);
        }
        while to < total && char_cost(chars[to], unit) <= limit - used
            invariant
                chars@ == message@,
                total == chars@.len(),
                rest == chars@.skip(from as int),
                from <= to <= total,
                used == measure(rest.take(to - from), unit),
                used <= limit,
                line == from + after_last(rest.take(to - from), '\n'),
                word == from + after_last(rest.take(to - from), ' '),
            decreases total - to,
        {
            proof {
                let window = rest.take(to - from);
                let c = chars@[to as int];
                lemma_measure_push(window, c, unit);
                lemma_after_last_push(window, '\n', c);
                lemma_after_last_push(window, ' ', c);
                assert(rest.take(to - from + 1) =~= window.push(c));
            }
            used += char_cost(chars[to], unit);
            to += 1;
            if chars[to - 1] == '\n' {
                line = to;
            } else if chars[to - 1] == ' ' {
                word = to;
            }
        }
        let ghost before = held(pieces@);
        if to == total {
            proof {
                assert(rest.take(to - from) =~= rest);
                assert(chars@.subrange(from as int, total as int) =~= rest);
            }
            pieces.push(message.substring_char(from, total));
            proof {
                assert(held(pieces@) =~= before + seq![rest]);
            }
            return pieces;
        }
        proof {
            lemma_measure_push(rest.take(to - from), rest[to - from], unit);
            assert(rest.take(to - from + 1) =~= rest.take(to - from).push(rest[to - from]));
            lemma_window_is(rest, limit as int, unit, to - from);
            lemma_after_last(rest.take(to - from), '\n');
            lemma_after_last(rest.take(to - from), ' ');
            lemma_cut(rest, limit as int, mode, unit);
        }
        let newline: bool = matches!(mode, ChunkMode::Newline);
        let end: usize = if newline && line > from {
            line
        } else if newline && word > from {
            word
        } else {
            to
        };
        proof {
            assert(end == from + cut(rest, limit as int, mode, unit));
            assert(chars@.subrange(from as int, end as int) =~= rest.take(end - from));
            assert(chars@.skip(end as int) =~= rest.skip(end - from));
        }
        pieces.push(message.substring_char(from, end));
        from = end;
        proof {
            let piece = rest.take(cut(rest, limit as int, mode, unit) as int);
            assert(held(pieces@) =~= before + seq![piece]);
            assert(held(pieces@) + chunks_of(chars@.skip(from as int), limit as int, mode, unit)
                =~= before + chunks_of(rest, limit as int, mode, unit));
        }
    }
}

/// Cuts `message` into pieces of at most `limit` characters.
pub fn chunk_text<'a>(message: &'a str, limit: usize, mode: ChunkMode) -> (pieces: Vec<&'a str>)
    requires
        1 <= limit,
    ensures
        held(pieces@) == chunks_of(message@, limit as int, mode, Unit::Chars),
        pieces@.len() == chunks_of(message@, limit as int, mode, Unit::Chars).len(),
        forall|i: int|
            0 <= i < pieces@.len() ==> (#[trigger] pieces@[i])@ == chunks_of(
                message@,
                limit as int,
                mode,
                Unit::Chars,
            )[i],
{
    let pieces = chunk_by(message, limit, mode, Unit::Chars);
    proof {
        assert forall|i: int| 0 <= i < pieces@.len() implies (#[trigger] pieces@[i])@ == chunks_of(
            message@,
            limit as int,
            mode,
            Unit::Chars,
        )[i] by {
            assert(held(pieces@)[i] == pieces@[i]@);
        }
    }
    pieces
}

/// Cuts `message` into pieces of the usual size, which is given in bytes, at line breaks where
/// there are any.
pub fn chunk_message<'a>(message: &'a str) -> (pieces: Vec<&'a str>)
    ensures
        held(pieces@) == chunks_of(
            message@,
            MAX_CHUNK_SIZE as int,
            ChunkMode::Newline,
            Unit::Bytes,
        ),
        pieces@.len() == chunks_of(message@, 4000, ChunkMode::Newline, Unit::Bytes).len(),
        forall|i: int|
            0 <= i < pieces@.len() ==> (#[trigger] pieces@[i])@ == chunks_of(
                message@,
                4000,
                ChunkMode::Newline,
                Unit::Bytes,
            )[i],
{
    let pieces = chunk_by(message, MAX_CHUNK_SIZE, ChunkMode::Newline, Unit::Bytes);
    proof {
        assert forall|i: int| 0 <= i < pieces@.len() implies (#[trigger] pieces@[i])@ == chunks_of(
            message@,
            4000,
            ChunkMode::Newline,
            Unit::Bytes,
        )[i] by {
            assert(held(pieces@)[i] == pieces@[i]@);
        }
    }
    pieces
}

/// Whether a text is within the limit, in characters or in bytes.
pub open spec fn within(s: Seq<char>, limit: int, unit: Unit) -> bool {
    match unit {
        Unit::Chars => s.len() <= limit,
        Unit::Bytes => vstd::utf8::encode_utf8(s).len() <= limit,
    }
}

/// Whether no longer beginning of `s` than its first `n` characters is within the limit and ends
/// with `c`.
pub open spec fn no_later_end(s: Seq<char>, n: int, c: char, limit: int, unit: Unit) -> bool {
    forall|k: int|
        n < k <= s.len() && within(#[trigger] s.take(k), limit, unit) ==> s[k - 1] != c
}

/// Whether the first `n` characters are the piece to cut off a text that is not within the limit:
/// some of it, within the limit, and in newline mode up to the last line break that is, if there
/// is one, or else up to the last space that is, if there is one, or else as much as possible.
pub open spec fn well_cut(s: Seq<char>, n: int, limit: int, mode: ChunkMode, unit: Unit) -> bool {
    &&& 0 < n < s.len()
    &&& within(s.take(n), limit, unit)
    &&& match mode {
        ChunkMode::Length => !within(s.take(n + 1), limit, unit),
        ChunkMode::Newline => {
            ||| s[n - 1] == '\n' && no_later_end(s, n, '\n', limit, unit)
            ||| no_later_end(s, 0, '\n', limit, unit) && s[n - 1] == ' ' && no_later_end(
                s,
                n,
                ' ',
                limit,
                unit,
            )
            ||| no_later_end(s, 0, '\n', limit, unit) && no_later_end(s, 0, ' ', limit, unit)
                && !within(s.take(n + 1), limit, unit)
        },
    }
}

proof fn lemma_nothing_after_last(s: Seq<char>, c: char)
    ensures
        forall|i: int| after_last(s, c) <= i < s.len() ==> s[i] != c,
    decreases s.len(),
{
    if s.len() > 0 && s.last() != c {
        lemma_nothing_after_last(s.drop_last(), c);
        assert forall|i: int| after_last(s, c) <= i < s.len() implies s[i] != c by {
            if i < s.len() - 1 {
                assert(s.drop_last()[i] == s[i]);
            }
        }
    }
}

proof fn lemma_cut_is_well_cut(s: Seq<char>, limit: int, mode: ChunkMode, unit: Unit)
    requires
        least(unit) <= limit < measure(s, unit),
    ensures
        well_cut(s, cut(s, limit, mode, unit) as int, limit, mode, unit),
{
    let n = cut(s, limit, mode, unit) as int;
    let wide = window_len(s, limit, unit);
    let window = s.take(wide);
    lemma_window(s, limit, unit);
    lemma_cut(s, limit, mode, unit);
    lemma_after_last(window, '\n');
    lemma_after_last(window, ' ');
    lemma_nothing_after_last(window, '\n');
    lemma_nothing_after_last(window, ' ');
    assert forall|k: int| 0 < k <= s.len() && within(#[trigger] s.take(k), limit, unit) implies k
        <= wide && s[k - 1] == window[k - 1] by {
        if k > wide {
            lemma_measure_take(s.take(k), wide + 1, unit);
            assert(s.take(k).take(wide + 1) =~= s.take(wide + 1));
        }
    }
}

/// A message within the limit is one piece. Of any other, each piece but the last is cut off what
/// is left of the message where it has to be: in newline mode behind the last line break that is
/// within the limit, or behind the last space where no line break is, and as late as possible where
/// neither is; in length mode as late as possible.
pub proof fn lemma_pieces_are_as_long_as_they_can_be(
    s: Seq<char>,
    limit: int,
    mode: ChunkMode,
    unit: Unit,
)
    requires
        unit == Unit::Chars ==> 1 <= limit,
        unit == Unit::Bytes ==> 4 <= limit,
    ensures
        ({
            let pieces = chunks_of(s, limit, mode, unit);
            &&& within(s, limit, unit) ==> pieces == seq![s]
            &&& pieces.flatten() == s
            &&& forall|i: int|
                0 <= i < pieces.len() - 1 ==> {
                    let left = (#[trigger] pieces.skip(i)).flatten();
                    !within(left, limit, unit) && pieces[i] == left.take(pieces[i].len() as int)
                        && well_cut(left, pieces[i].len() as int, limit, mode, unit)
                }
        }),
    decreases s.len(),
{
    let pieces = chunks_of(s, limit, mode, unit);
    lemma_chunks_rejoin(s, limit, mode, unit);
    if measure(s, unit) > limit {
        lemma_cut(s, limit, mode, unit);
        lemma_cut_is_well_cut(s, limit, mode, unit);
        let n = cut(s, limit, mode, unit) as int;
        let rest = chunks_of(s.skip(n), limit, mode, unit);
        lemma_pieces_are_as_long_as_they_can_be(s.skip(n), limit, mode, unit);
        assert forall|i: int| 0 <= i < pieces.len() - 1 implies {
            let left = (#[trigger] pieces.skip(i)).flatten();
            !within(left, limit, unit) && pieces[i] == left.take(pieces[i].len() as int)
                && well_cut(left, pieces[i].len() as int, limit, mode, unit)
        } by {
            if i == 0 {
                assert(pieces.skip(0) =~= pieces);
                assert(pieces[0] == s.take(n));
            } else {
                assert(pieces.skip(i) =~= rest.skip(i - 1));
                assert(pieces[i] == rest[i - 1]);
            }
        }
    }
}

/// The usual messages are cut into pieces of at most 4000 bytes, at line breaks.
pub proof fn lemma_usual_pieces(s: Seq<char>)
    ensures
        ({
            let pieces = chunks_of(s, MAX_CHUNK_SIZE as int, ChunkMode::Newline, Unit::Bytes);
            &&& pieces.flatten() == s
            &&& vstd::utf8::encode_utf8(s).len() <= 4000 ==> pieces == seq![s]
            &&& forall|i: int|
                0 <= i < pieces.len() - 1 ==> {
                    let left = (#[trigger] pieces.skip(i)).flatten();
                    vstd::utf8::encode_utf8(left).len() > 4000 && well_cut(
                        left,
                        pieces[i].len() as int,
                        4000,
                        ChunkMode::Newline,
                        Unit::Bytes,
                    )
                }
        }),
{
    lemma_pieces_are_as_long_as_they_can_be(s, 4000, ChunkMode::Newline, Unit::Bytes);
}

} // verus!
