//! What is passed on of a message, character by character.

use vstd::prelude::*;

use crate::content;
use crate::content::{MediaKind, MediaOrigin, MessageBody};
use crate::text;

verus! {

/// Whether the line that starts at `i` quotes something: it starts with `> `.
pub open spec fn quotes_at(s: Seq<char>, i: int) -> bool {
    0 <= i && i + 1 < s.len() && s[i] == '>' && s[i + 1] == ' '
}

/// Whether a line starts at `i`.
pub open spec fn line_starts_at(s: Seq<char>, i: int) -> bool {
    i == 0 || 0 < i <= s.len() && s[i - 1] == '\n'
}

/// Whether a message starts with the quote of a message that it answers: it starts with `> <` or
/// `> * <`, and has more than one line.
pub open spec fn is_reply(s: Seq<char>) -> bool {
    &&& quotes_at(s, 0)
    &&& (s.len() >= 3 && s[2] == '<') || (s.len() >= 5 && s[2] == '*' && s[3] == ' ' && s[4] == '<')
    &&& exists|i: int| 0 <= i < s.len() && s[i] == '\n'
}

/// Whether the quoted lines that a message starts with end at `q`: all of them start with `> `, and
/// the line that starts there, if one does, does not.
pub open spec fn quote_ends_at(s: Seq<char>, q: int) -> bool {
    &&& 0 <= q <= s.len()
    &&& q == s.len() || line_starts_at(s, q) && !quotes_at(s, q)
    &&& forall|i: int| 0 <= i < q && #[trigger] line_starts_at(s, i) ==> quotes_at(s, i)
}

/// Whether `left` is what a message says for itself: all of it, unless it starts with the quote of
/// a message that it answers; then what follows the quoted lines, and one empty line.
pub open spec fn says_for_itself(s: Seq<char>, left: Seq<char>) -> bool {
    if is_reply(s) {
        exists|q: int| #[trigger]
            quote_ends_at(s, q) && left == if q < s.len() && s[q] == '\n' {
                s.skip(q + 1)
            } else {
                s.skip(q)
            }
    } else {
        left == s
    }
}

proof fn lemma_quotes_at_start(s: Seq<char>)
    ensures
        "> "@.is_prefix_of(s) <==> quotes_at(s, 0),
        ("> <"@.is_prefix_of(s) || "> * <"@.is_prefix_of(s)) && s.contains('\n') <==> is_reply(s),
{
    reveal_strlit("> ");
    reveal_strlit("> <");
    reveal_strlit("> * <");
    if s.len() >= 2 {
        assert("> "@ =~= s.subrange(0, 2) <==> s[0] == '>' && s[1] == ' ') by {
            assert("> "@[0] == '>' && "> "@[1] == ' ');
            assert(s.subrange(0, 2)[0] == s[0] && s.subrange(0, 2)[1] == s[1]);
        }
    }
    if s.len() >= 3 {
        assert("> <"@ =~= s.subrange(0, 3) <==> s[0] == '>' && s[1] == ' ' && s[2] == '<') by {
            assert("> <"@[0] == '>' && "> <"@[1] == ' ' && "> <"@[2] == '<');
            assert(s.subrange(0, 3)[0] == s[0] && s.subrange(0, 3)[1] == s[1] && s.subrange(
                0,
                3,
            )[2] == s[2]);
        }
    }
    if s.len() >= 5 {
        assert("> * <"@ =~= s.subrange(0, 5) <==> s[0] == '>' && s[1] == ' ' && s[2] == '*' && s[3]
            == ' ' && s[4] == '<') by {
            let head = s.subrange(0, 5);
            assert("> * <"@[0] == '>' && "> * <"@[1] == ' ' && "> * <"@[2] == '*' && "> * <"@[3]
                == ' ' && "> * <"@[4] == '<');
            assert(head[0] == s[0] && head[1] == s[1] && head[2] == s[2] && head[3] == s[3]
                && head[4] == s[4]);
        }
    }
}

proof fn lemma_quoted_lines(s: Seq<char>) -> (q: int)
    ensures
        quote_ends_at(s, q),
        content::without_quotes(s) == s.skip(q),
    decreases s.len(),
{
    lemma_quotes_at_start(s);
    text::lemma_find(s, '\n');
    let n = text::find(s, '\n') as int;
    if !quotes_at(s, 0) {
        assert(s.skip(0) =~= s);
        0
    } else if n >= s.len() {
        assert(s.skip(s.len() as int) =~= Seq::empty());
        s.len() as int
    } else {
        let rest = s.skip(n + 1);
        let inner = lemma_quoted_lines(rest);
        let q = n + 1 + inner;
        assert(rest.skip(inner) =~= s.skip(q));
        assert forall|i: int| 0 <= i < q && #[trigger] line_starts_at(s, i) implies quotes_at(
            s,
            i,
        ) by {
            if i > n {
                assert(line_starts_at(rest, i - n - 1)) by {
                    if i > n + 1 {
                        assert(rest[i - n - 2] == s[i - 1]);
                    }
                }
                assert(quotes_at(rest, i - n - 1));
            }
        }
        if q < s.len() {
            assert(line_starts_at(rest, inner) && !quotes_at(rest, inner));
            if inner > 0 {
                assert(rest[inner - 1] == s[q - 1]);
            }
        }
        q
    }
}

/// What is left of a message without the quote is what it says for itself.
pub proof fn lemma_quote_is_left_aside(s: Seq<char>)
    ensures
        says_for_itself(s, content::without_fallback(s)),
{
    lemma_quotes_at_start(s);
    let q = lemma_quoted_lines(s);
    assert(quote_ends_at(s, q));
    if q < s.len() {
        assert(s.skip(q)[0] == s[q]);
        assert(s.skip(q).skip(1) =~= s.skip(q + 1));
    }
}

/// A text message is passed on without files, character for character, but for the quote of a
/// message that it answers.
pub proof fn lemma_text_is_passed_on(s: String)
    ensures
        content::description(MessageBody::Text(s)) matches Some((words, files)) && says_for_itself(
            s@,
            words,
        ) && files.len() == 0,
        s@.len() == 0 || s@[0] != '>' ==> content::description(MessageBody::Text(s)) == Some(
            (s@, Seq::<content::AttachmentModel>::empty()),
        ),
{
    lemma_quote_is_left_aside(s@);
}

/// A message with a file is passed on as the word for the kind of file and the text of the message,
/// with that one file: its name is the text of the message, its type and size are those that the
/// message gives, or else the type that is usual for its kind and none, and its source is that of
/// the message.
pub proof fn lemma_file_is_passed_on(media: content::Media)
    ensures
        content::description(MessageBody::Media(media)) matches Some((words, files)) && {
            let file = files[0];
            &&& words == match media.kind {
                MediaKind::Image => "[Image: "@,
                MediaKind::File => "[File: "@,
                MediaKind::Audio => "[Audio: "@,
                MediaKind::Video => "[Video: "@,
            } + media.body@ + "]"@
            &&& files.len() == 1
            &&& file.name == media.body@
            &&& media.mimetype matches Some(t) ==> file.mime_type == t@
            &&& media.mimetype is None ==> file.mime_type == match media.kind {
                MediaKind::Image => "image/unknown"@,
                MediaKind::File => "application/octet-stream"@,
                MediaKind::Audio => "audio/unknown"@,
                MediaKind::Video => "video/unknown"@,
            }
            &&& media.size matches Some(n) ==> file.size == n
            &&& media.size is None ==> file.size == 0
            &&& media.source matches MediaOrigin::Plain(uri) ==> file.mxc_uri == uri@
            &&& media.source matches MediaOrigin::Encrypted(uri) ==> file.mxc_uri == uri@
            &&& media.source_json matches Some(j) ==> file.source_json == Some(j@)
            &&& media.source_json is None ==> file.source_json is None
        },
        content::description(MessageBody::Other) is None,
{
}

/// What is said of files is what their records hold, each in its place.
pub proof fn lemma_what_records_of_files_say(list: Seq<content::AttachmentMeta>)
    ensures
        content::attachment_models(list).len() == list.len(),
        forall|i: int|
            0 <= i < list.len() ==> {
                let said = #[trigger] content::attachment_models(list)[i];
                &&& said.name == list[i].name@
                &&& said.mime_type == list[i].mime_type@
                &&& said.size == list[i].size
                &&& said.mxc_uri == list[i].mxc_uri@
                &&& list[i].source_json matches Some(s) ==> said.source_json == Some(s@)
                &&& list[i].source_json is None ==> said.source_json is None
            },
{
}

/// What a message says for itself is one text.
pub proof fn lemma_says_one_thing(s: Seq<char>, a: Seq<char>, b: Seq<char>)
    requires
        says_for_itself(s, a),
        says_for_itself(s, b),
    ensures
        a == b,
{
    if is_reply(s) {
        let p = choose|q: int| #[trigger]
            quote_ends_at(s, q) && a == if q < s.len() && s[q] == '\n' {
                s.skip(q + 1)
            } else {
                s.skip(q)
            };
        let q = choose|q: int| #[trigger]
            quote_ends_at(s, q) && b == if q < s.len() && s[q] == '\n' {
                s.skip(q + 1)
            } else {
                s.skip(q)
            };
        if p < q {
            assert(line_starts_at(s, p));
        } else if q < p {
            assert(line_starts_at(s, q));
        }
    }
}

} // verus!
