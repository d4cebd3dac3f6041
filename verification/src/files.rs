//! Files that are sent to a room, or fetched from one.

use vstd::prelude::*;

use crate::ids;
use crate::ids::{event_id_valid, room_id_valid};
use crate::outbound::{ToolError, MAX_ATTACHMENT_SIZE};
use crate::text;
use crate::text::{to_chars, to_text};
use crate::paths;

verus! {

/// What stands against sending the file `path`, where paths are given part by part, with no links
/// left in them: it has to lie in the working directory, and not in the bridge's own directory
/// unless it lies in its inbox.
pub open spec fn sendable(
    path: Seq<Seq<u8>>,
    cwd: Seq<Seq<u8>>,
    store: Option<Seq<Seq<u8>>>,
    inbox: Seq<u8>,
) -> Result<(), ToolError> {
    if !cwd.is_prefix_of(path) {
        Err(ToolError::FileOutsideWorkingDirectory)
    } else if store matches Some(s) && s.is_prefix_of(path) && !s.push(inbox).is_prefix_of(path) {
        Err(ToolError::FileInDataDirectory)
    } else {
        Ok(())
    }
}

/// What the parts of a path hold.
pub open spec fn parts(path: Seq<Vec<u8>>) -> Seq<Seq<u8>> {
    path.map_values(|part: Vec<u8>| part@)
}

/// The name of the inbox.
pub open spec fn inbox_name() -> Seq<u8> {
    seq![105u8, 110u8, 98u8, 111u8, 120u8]
}

fn same_bytes(a: &Vec<u8>, b: &Vec<u8>) -> (same: bool)
    ensures
        same == (a@ == b@),
{
    if a.len() != b.len() {
        return false;
    }
    let mut i: usize = 0;
    while i < a.len()
        invariant
            i <= a@.len(),
            a@.len() == b@.len(),
            forall|j: int| 0 <= j < i ==> a@[j] == b@[j],
        decreases a@.len() - i,
    {
        if a[i] != b[i] {
            return false;
        }
        i += 1;
    }
    proof {
        assert(a@ =~= b@);
    }
    true
}

fn path_starts_with(path: &Vec<Vec<u8>>, base: &Vec<Vec<u8>>) -> (below: bool)
    ensures
        below == parts(base@).is_prefix_of(parts(path@)),
{
    let ghost whole = parts(path@);
    let ghost head = parts(base@);
    if path.len() < base.len() {
        return false;
    }
    let mut i: usize = 0;
    while i < base.len()
        invariant
            i <= base@.len() <= path@.len(),
            whole == parts(path@),
            head == parts(base@),
            forall|j: int| 0 <= j < i ==> whole[j] == head[j],
        decreases base@.len() - i,
    {
        if !same_bytes(&path[i], &base[i]) {
            proof {
                assert(whole[i as int] != head[i as int]);
                if head.is_prefix_of(whole) {
                    assert(head[i as int] == whole.subrange(0, head.len() as int)[i as int]);
                }
            }
            return false;
        }
        i += 1;
    }
    proof {
        assert(head =~= whole.subrange(0, head.len() as int));
    }
    true
}

/// Checks where a file lies that is to be sent. Paths are given part by part, with no links left
/// in them; `store` is missing where the bridge has no directory of its own.
pub fn check_location(
    path: &Vec<Vec<u8>>,
    cwd: &Vec<Vec<u8>>,
    store: Option<&Vec<Vec<u8>>>,
) -> (pass: Result<(), ToolError>)
    ensures
        pass == sendable(
            parts(path@),
            parts(cwd@),
            match store {
                Some(s) => Some(parts(s@)),
                None => None,
            },
            inbox_name(),
        ),
{
    if !path_starts_with(path, cwd) {
        return Err(ToolError::FileOutsideWorkingDirectory);
    }
    if let Some(own) = store {
        if path_starts_with(path, own) {
            let ghost whole = parts(path@);
            let ghost head = parts(own@);
            let inbox: Vec<u8> = vec![105u8, 110u8, 98u8, 111u8, 120u8];
            let n: usize = own.len();
            proof {
                assert(inbox@ =~= inbox_name());
                if whole.len() > n && whole[n as int] == inbox_name() {
                    assert(head.push(inbox_name()) =~= whole.subrange(0, n + 1));
                } else if head.push(inbox_name()).is_prefix_of(whole) {
                    assert(head.push(inbox_name())[n as int] == whole.subrange(0, n + 1)[n as int]);
                }
            }
            if path.len() <= n || !same_bytes(&path[n], &inbox) {
                return Err(ToolError::FileInDataDirectory);
            }
        }
    }
    Ok(())
}

/// Checks the size of a file that is to be sent.
pub fn check_file_size(size: u64) -> (pass: Result<(), ToolError>)
    ensures
        pass == if size > MAX_ATTACHMENT_SIZE {
            Err::<(), ToolError>(ToolError::FileTooLarge(size))
        } else {
            Ok(())
        },
{
    if size > MAX_ATTACHMENT_SIZE {
        Err(ToolError::FileTooLarge(size))
    } else {
        Ok(())
    }
}

/// Checks the size of a file that was fetched.
pub fn check_attachment_size(size: u64) -> (pass: Result<(), ToolError>)
    ensures
        pass == if size > MAX_ATTACHMENT_SIZE {
            Err::<(), ToolError>(ToolError::AttachmentTooLarge(size))
        } else {
            Ok(())
        },
{
    if size > MAX_ATTACHMENT_SIZE {
        Err(ToolError::AttachmentTooLarge(size))
    } else {
        Ok(())
    }
}

/// The type that a file's name suggests.
pub uninterp spec fn guessed_type(path: Seq<char>) -> Seq<char>;

/// `mime_guess::from_path` and `first_or_octet_stream`: the type that the extension of the path
/// suggests, which depends on the path alone. A path without a full stop has no extension, and
/// then nothing more is known of the file than that it holds bytes.
#[verifier::external_body]
fn guess_type(path: &str) -> (mime: String)
    ensures
        mime@ == guessed_type(path@),
        !path@.contains('.') ==> mime@ == "application/octet-stream"@,
{
    mime_guess::from_path(path).first_or_octet_stream().to_string()
}

/// What follows the last slash in a path; all of it where there is none.
pub open spec fn after_last_slash(path: Seq<char>) -> Seq<char>
    decreases path.len(),
{
    if path.len() == 0 || path.last() == '/' {
        Seq::empty()
    } else {
        after_last_slash(path.drop_last()).push(path.last())
    }
}

/// Whether `name` is the name of a file or a directory, and not a way to go from one to another.
pub open spec fn is_plain_name(name: Seq<char>) -> bool {
    name.len() != 0 && name != "."@ && name != ".."@ && !name.contains('/')
}

/// The last name in a path: slashes and single full stops at its end lead nowhere, and two full
/// stops are no name.
pub open spec fn last_name(path: Seq<char>) -> Option<Seq<char>>
    decreases path.len(),
{
    let tail = after_last_slash(path);
    if path.len() == 0 || tail == ".."@ {
        None
    } else if tail.len() == 0 || tail == "."@ {
        last_name(path.drop_last())
    } else {
        Some(tail)
    }
}

/// Where what follows the last slash in the first `end` characters starts.
fn tail_start(chars: &Vec<char>, end: usize) -> (start: usize)
    requires
        end <= chars@.len(),
    ensures
        start <= end,
        after_last_slash(chars@.take(end as int)) == chars@.subrange(start as int, end as int),
{
    let ghost path = chars@.take(end as int);
    let mut start: usize = end;
    proof {
        assert(path.take(start as int) =~= path);
        assert(after_last_slash(path) =~= after_last_slash(path.take(start as int))
            + path.skip(start as int));
    }
    while start > 0 && chars[start - 1] != '/'
        invariant
            start <= end <= chars@.len(),
            path == chars@.take(end as int),
            after_last_slash(path) == after_last_slash(path.take(start as int)) + path.skip(
                start as int,
            ),
        decreases start,
    {
        proof {
            let head = path.take(start as int);
            assert(head.drop_last() =~= path.take(start - 1));
            assert(head.last() == path[start - 1]);
            assert(after_last_slash(path.take(start - 1)).push(path[start - 1]) + path.skip(
                start as int,
            ) =~= after_last_slash(path.take(start - 1)) + path.skip(start - 1));
        }
        start -= 1;
    }
    proof {
        if start > 0 {
            assert(path.take(start as int).last() == '/');
        }
        assert(after_last_slash(path) =~= path.skip(start as int));
        assert(path.skip(start as int) =~= chars@.subrange(start as int, end as int));
    }
    start
}

/// The last name in a path, if it ends in one.
pub fn file_name(path: &str) -> (name: Option<String>)
    ensures
        text::text_in(name) == last_name(path@),
{
    let chars = to_chars(path);
    let mut end: usize = chars.len();
    proof {
        assert(chars@.take(end as int) =~= chars@);
        reveal_strlit(".");
        reveal_strlit("..");
    }
    while end > 0
        invariant
            end <= chars@.len(),
            last_name(chars@.take(end as int)) == last_name(path@),
            "."@ == seq!['.'],
            ".."@ == seq!['.', '.'],
        decreases end,
    {
        let start: usize = tail_start(&chars, end);
        let ghost tail = chars@.subrange(start as int, end as int);
        proof {
            assert(chars@.take(end as int).drop_last() =~= chars@.take(end - 1));
            if tail.len() == 1 && tail[0] == '.' {
                assert(tail =~= "."@);
            }
            if tail.len() == 2 && tail[0] == '.' && tail[1] == '.' {
                assert(tail =~= ".."@);
            }
        }
        if end - start == 2 && chars[start] == '.' && chars[start + 1] == '.' {
            return None;
        }
        if end - start > 1 || (end - start == 1 && chars[start] != '.') {
            return Some(to_text(&chars, start, end));
        }
        end -= 1;
    }
    None
}

/// Where what follows the last slash in a path is a name, it is the last name.
pub proof fn lemma_last_name_follows_the_last_slash(path: Seq<char>)
    requires
        is_plain_name(after_last_slash(path)),
    ensures
        last_name(path) == Some(after_last_slash(path)),
{
}

/// A file that may be sent, but for its bytes.
#[derive(Debug)]
pub struct Outgoing {
    pub filename: String,
    pub mime: String,
}

/// Checks a file that is to be sent: where it lies, then its size. `asked` is the path as it was
/// asked for, `canonical` the path without links, of which `path` holds the parts.
pub fn validate_file_for_sending(
    asked: &str,
    canonical: &str,
    path: &Vec<Vec<u8>>,
    cwd: &Vec<Vec<u8>>,
    store: Option<&Vec<Vec<u8>>>,
    size: u64,
) -> (outcome: Result<Outgoing, ToolError>)
    ensures
        ({
            let location = sendable(
                parts(path@),
                parts(cwd@),
                match store {
                    Some(s) => Some(parts(s@)),
                    None => None,
                },
                inbox_name(),
            );
            match outcome {
                Ok(file) => {
                    &&& location is Ok
                    &&& size <= MAX_ATTACHMENT_SIZE
                    &&& file.mime@ == guessed_type(canonical@)
                    &&& !canonical@.contains('.') ==> file.mime@ == "application/octet-stream"@
                    &&& file.filename@ == match last_name(asked@) {
                        Some(n) => n,
                        None => "file"@,
                    }
                },
                Err(e) => match location {
                    Err(wrong) => e == wrong,
                    Ok(_) => size > MAX_ATTACHMENT_SIZE && e == ToolError::FileTooLarge(size),
                },
            }
        }),
{
    match check_location(path, cwd, store) {
        Ok(_) => {},
        Err(e) => return Err(e),
    }
    match check_file_size(size) {
        Ok(_) => {},
        Err(e) => return Err(e),
    }
    let filename: String = match file_name(asked) {
        Some(n) => n,
        None => "file".to_owned(),
    };
    Ok(Outgoing { filename, mime: guess_type(canonical) })
}

/// `c`, or an underscore where `c` would lead out of a directory.
pub open spec fn harmless_char(c: char) -> char {
    if c == '/' || c == '\\' {
        '_'
    } else {
        c
    }
}

/// `name` without the full stops at its beginning.
pub open spec fn without_dots(name: Seq<char>) -> Seq<char>
    decreases name.len(),
{
    if name.len() > 0 && name[0] == '.' {
        without_dots(name.skip(1))
    } else {
        name
    }
}

/// A name that leads nowhere but into the directory that it is put into.
pub open spec fn harmless(name: Seq<char>) -> Seq<char> {
    let rest = without_dots(name.map_values(|c: char| harmless_char(c)));
    if rest.len() == 0 {
        "attachment"@
    } else {
        rest
    }
}

/// A name that leads nowhere but into the directory that it is put into.
pub fn sanitize_filename(name: &str) -> (safe: String)
    ensures
        safe@ == harmless(name@),
{
    let chars = to_chars(name);
    let ghost mapped = name@.map_values(|c: char| harmless_char(c));
    let mut clean: Vec<char> = Vec::new();
    let mut i: usize = 0;
    while i < chars.len()
        invariant
            i <= chars@.len(),
            chars@ == name@,
            mapped == name@.map_values(|c: char| harmless_char(c)),
            clean@ == mapped.take(i as int),
        decreases chars@.len() - i,
    {
        let c: char = chars[i];
        if c == '/' || c == '\\' {
            clean.push('_');
        } else {
            clean.push(c);
        }
        i += 1;
        proof {
            assert(mapped.take(i as int) =~= mapped.take(i - 1).push(mapped[i - 1]));
        }
    }
    proof {
        assert(mapped.take(i as int) =~= mapped);
    }
    let mut from: usize = 0;
    proof {
        assert(clean@.skip(0) =~= clean@);
    }
    while from < clean.len() && clean[from] == '.'
        invariant
            from <= clean@.len(),
            without_dots(clean@.skip(from as int)) == without_dots(mapped),
        decreases clean@.len() - from,
    {
        proof {
            assert(clean@.skip(from as int).skip(1) =~= clean@.skip(from + 1));
        }
        from += 1;
    }
    if from == clean.len() {
        "attachment".to_owned()
    } else {
        proof {
            assert(clean@.subrange(from as int, clean@.len() as int) =~= clean@.skip(from as int));
        }
        to_text(&clean, from, clean.len())
    }
}

/// The name under which a fetched file is kept: the name that was asked for, or else the last part
/// of its address.
pub fn inbox_filename(asked: Option<&str>, mxc_uri: &str) -> (name: String)
    ensures
        name@ == harmless(
            match asked {
                Some(n) => n@,
                None => after_last_slash(mxc_uri@),
            },
        ),
{
    match asked {
        Some(n) => sanitize_filename(n),
        None => {
            let chars = to_chars(mxc_uri);
            let from: usize = tail_start(&chars, chars.len());
            proof {
                assert(chars@.take(chars@.len() as int) =~= chars@);
            }
            sanitize_filename(to_text(&chars, from, chars.len()).as_str())
        },
    }
}

proof fn lemma_without_dots(name: Seq<char>)
    requires
        !name.contains('/'),
        !name.contains('\\'),
    ensures
        !without_dots(name).contains('/'),
        !without_dots(name).contains('\\'),
        without_dots(name).len() > 0 ==> without_dots(name)[0] != '.',
    decreases name.len(),
{
    if name.len() > 0 && name[0] == '.' {
        let rest = name.skip(1);
        assert forall|i: int| 0 <= i < rest.len() implies rest[i] != '/' && rest[i] != '\\' by {
            assert(rest[i] == name[i + 1]);
            assert(name.contains(name[i + 1]));
        }
        lemma_without_dots(rest);
    }
}

/// A fetched file is kept in the inbox and nowhere else: its name is not empty, holds nothing that
/// separates directories and does not start with a full stop, so that it is a name, and the path
/// of it below a directory is the directory, a slash and the name.
pub proof fn lemma_fetched_file_stays_in_the_inbox(name: Seq<char>, dir: Seq<char>)
    requires
        dir.len() > 0 && dir.last() != '/',
    ensures
        is_plain_name(harmless(name)),
        !harmless(name).contains('\\'),
        harmless(name)[0] != '.',
        paths::joined(dir, harmless(name)) == dir + "/"@ + harmless(name),
{
    reveal_strlit("attachment");
    reveal_strlit(".");
    reveal_strlit("..");
    let mapped = name.map_values(|c: char| harmless_char(c));
    assert forall|i: int| 0 <= i < mapped.len() implies mapped[i] != '/' && mapped[i] != '\\' by {
        assert(mapped[i] == harmless_char(name[i]));
    }
    lemma_without_dots(mapped);
    let safe = harmless(name);
    if without_dots(mapped).len() == 0 {
        assert forall|i: int| 0 <= i < safe.len() implies safe[i] != '/' && safe[i] != '\\' by {}
    }
    assert(!safe.contains('/'));
    assert(safe[0] != '.');
    assert(safe.contains(safe[0]));
}

/// A name that is harmless already is kept.
pub proof fn lemma_harmless_name_is_kept(name: Seq<char>)
    requires
        is_plain_name(name),
        !name.contains('\\'),
        name[0] != '.',
    ensures
        harmless(name) == name,
{
    assert forall|i: int| 0 <= i < name.len() implies harmless_char(name[i]) == name[i] by {
        assert(name.contains(name[i]));
    }
    assert(name.map_values(|c: char| harmless_char(c)) =~= name);
}

/// No file of the bridge's own directory is sent but those in its inbox, and none from outside the
/// working directory.
pub proof fn lemma_own_files_are_not_sent(
    path: Seq<Seq<u8>>,
    cwd: Seq<Seq<u8>>,
    store: Seq<Seq<u8>>,
    inbox: Seq<u8>,
)
    requires
        sendable(path, cwd, Some(store), inbox) is Ok,
    ensures
        cwd.is_prefix_of(path),
        store.is_prefix_of(path) ==> store.push(inbox).is_prefix_of(path),
{
}

/// Where a file is fetched from.
#[derive(Debug, Clone, Copy, PartialEq, Eq, Structural)]
pub enum Route {
    /// From the event that carries it.
    Event,
    /// From its address.
    Address,
}

/// Where a file is fetched from: from the event where both the event and its room are named, and
/// else from its address.
pub open spec fn route_for(event_id: Option<Seq<char>>, room_id: Option<Seq<char>>) -> Result<
    Route,
    ToolError,
> {
    match (event_id, room_id) {
        (Some(event), Some(room)) => if !ids::is_room_id(room) {
            Err(ToolError::InvalidRoomId)
        } else if !ids::is_event_id(event) {
            Err(ToolError::InvalidEventId)
        } else {
            Ok(Route::Event)
        },
        _ => Ok(Route::Address),
    }
}

/// Where a file is fetched from.
pub fn download_route(event_id: Option<&str>, room_id: Option<&str>) -> (route: Result<
    Route,
    ToolError,
>)
    ensures
        route == route_for(text::str_in(event_id), text::str_in(room_id)),
{
    match (event_id, room_id) {
        (Some(event), Some(room)) => {
            if !room_id_valid(room) {
                Err(ToolError::InvalidRoomId)
            } else if !event_id_valid(event) {
                Err(ToolError::InvalidEventId)
            } else {
                Ok(Route::Event)
            }
        },
        _ => Ok(Route::Address),
    }
}

/// The source of a file, as the outside crate fetches it; opaque here.
#[verifier::external_type_specification]
#[verifier::external_body]
pub struct ExMediaSource(matrix_sdk::ruma::events::room::MediaSource);

/// The source that a text describes, if it describes one.
pub uninterp spec fn described_source(s: Seq<char>) -> Option<
    matrix_sdk::ruma::events::room::MediaSource,
>;

/// The source of a file that lies under an address as it is.
pub uninterp spec fn plain_source(s: Seq<char>) -> matrix_sdk::ruma::events::room::MediaSource;

/// `serde_json::from_str::<MediaSource>`: the source that the text describes, if it describes one,
/// which depends on the text alone.
#[verifier::external_body]
fn read_source(s: &str) -> (source: Option<matrix_sdk::ruma::events::room::MediaSource>)
    ensures
        source == described_source(s@),
{
    serde_json::from_str::<matrix_sdk::ruma::events::room::MediaSource>(s).ok()
}

/// `MediaSource::Plain` of an `OwnedMxcUri`: the source of a file that lies under an address as it
/// is, which depends on the address alone.
#[verifier::external_body]
fn source_at(uri: &str) -> (source: matrix_sdk::ruma::events::room::MediaSource)
    ensures
        source == plain_source(uri@),
{
    let uri = matrix_sdk::ruma::OwnedMxcUri::from(uri);
    matrix_sdk::ruma::events::room::MediaSource::Plain(uri)
}

/// The JSON for a source.
pub uninterp spec fn source_text(source: matrix_sdk::ruma::events::room::MediaSource) -> Seq<char>;

/// `serde_json::to_string` of a `MediaSource`: the JSON for the source, which depends on the source
/// alone. It never fails on this type, and what it writes describes the source that was written.
#[verifier::external_body]
fn write_source(source: &matrix_sdk::ruma::events::room::MediaSource) -> (json: Option<String>)
    ensures
        text::text_in(json) == Some(source_text(*source)),
        described_source(json->0@) == Some(*source),
{
    serde_json::to_string(source).ok()
}

/// The JSON for a source, to be passed on with what is said of the file: `media_source` gives the
/// source back.
pub fn source_json(source: &matrix_sdk::ruma::events::room::MediaSource) -> (json: Option<String>)
    ensures
        json matches Some(s) && s@ == source_text(*source) && described_source(s@) == Some(*source),
{
    write_source(source)
}

/// The source of a file that is fetched from its address: what `source_json` describes, where it
/// describes a source, and else the address as it is.
pub fn media_source(mxc_uri: &str, source_json: Option<&str>) -> (source:
    matrix_sdk::ruma::events::room::MediaSource)
    ensures
        source == match source_json {
            Some(s) => match described_source(s@) {
                Some(described) => described,
                None => plain_source(mxc_uri@),
            },
            None => plain_source(mxc_uri@),
        },
{
    match source_json {
        Some(s) => match read_source(s) {
            Some(described) => described,
            None => source_at(mxc_uri),
        },
        None => source_at(mxc_uri),
    }
}

/// The report on a file that was sent.
pub fn sent_report(filename: &str) -> (words: String)
    ensures
        words@ == "File '"@ + filename@ + "' sent."@,
{
    let mut words = "File '".to_owned();
    words.append(filename);
    words.append("' sent.");
    words
}

/// Whether `path` lies in the directory `dir`, or is it: it goes on from there, part by part.
pub open spec fn lies_in(path: Seq<Seq<u8>>, dir: Seq<Seq<u8>>) -> bool {
    &&& dir.len() <= path.len()
    &&& forall|i: int| 0 <= i < dir.len() ==> path[i] == #[trigger] dir[i]
}

proof fn lemma_lies_in(path: Seq<Seq<u8>>, dir: Seq<Seq<u8>>)
    ensures
        dir.is_prefix_of(path) <==> lies_in(path, dir),
{
    if dir.is_prefix_of(path) {
        assert forall|i: int| 0 <= i < dir.len() implies path[i] == #[trigger] dir[i] by {
            assert(path.subrange(0, dir.len() as int)[i] == dir[i]);
        }
    }
    if lies_in(path, dir) {
        assert(dir =~= path.subrange(0, dir.len() as int));
    }
}

/// A file may be sent exactly if it lies in the working directory, and does not lie in the bridge's
/// own directory or lies in the inbox there.
pub proof fn lemma_which_files_may_be_sent(
    path: Seq<Seq<u8>>,
    cwd: Seq<Seq<u8>>,
    store: Option<Seq<Seq<u8>>>,
    inbox: Seq<u8>,
)
    ensures
        sendable(path, cwd, store, inbox) == if !lies_in(path, cwd) {
            Err::<(), ToolError>(ToolError::FileOutsideWorkingDirectory)
        } else if store matches Some(own) && lies_in(path, own) && !(path.len() > own.len()
            && path[own.len() as int] == inbox) {
            Err(ToolError::FileInDataDirectory)
        } else {
            Ok(())
        },
        inbox_name() == seq!['i' as u8, 'n' as u8, 'b' as u8, 'o' as u8, 'x' as u8],
{
    lemma_lies_in(path, cwd);
    if let Some(own) = store {
        lemma_lies_in(path, own);
        lemma_lies_in(path, own.push(inbox));
        if lies_in(path, own) {
            if path.len() > own.len() && path[own.len() as int] == inbox {
                assert forall|i: int| 0 <= i < own.push(inbox).len() implies path[i]
                    == #[trigger] own.push(inbox)[i] by {
                    if i < own.len() {
                        assert(own.push(inbox)[i] == own[i]);
                    }
                }
            } else if lies_in(path, own.push(inbox)) {
                assert(own.push(inbox)[own.len() as int] == inbox);
            }
        }
    }
    assert(inbox_name() =~= seq!['i' as u8, 'n' as u8, 'b' as u8, 'o' as u8, 'x' as u8]);
}

proof fn lemma_after_slash(dir: Seq<char>, name: Seq<char>)
    requires
        forall|i: int| 0 <= i < name.len() ==> name[i] != '/',
    ensures
        after_last_slash(dir.push('/') + name) == name,
        after_last_slash(name) == name,
    decreases name.len(),
{
    let path = dir.push('/') + name;
    if name.len() == 0 {
        assert(path =~= dir.push('/'));
    } else {
        let short = name.drop_last();
        assert forall|i: int| 0 <= i < short.len() implies short[i] != '/' by {
            assert(short[i] == name[i]);
        }
        lemma_after_slash(dir, short);
        assert(path.drop_last() =~= dir.push('/') + short);
        assert(path.last() == name.last());
        assert(name.last() == name[name.len() - 1]);
        assert(short.push(name.last()) =~= name);
    }
}

/// What follows the last slash of a path is its last name, unless it is empty or made of one or two
/// full stops alone: slashes at the end, and single full stops behind a slash, are passed over, and
/// a path that ends in two full stops has no name.
pub proof fn lemma_the_name_of_a_file(dir: Seq<char>, name: Seq<char>)
    requires
        name.len() > 0,
        forall|i: int| 0 <= i < name.len() ==> name[i] != '/',
        name != seq!['.'],
        name != seq!['.', '.'],
    ensures
        last_name(name) == Some(name),
        last_name(dir.push('/') + name) == Some(name),
        last_name(dir.push('/')) == last_name(dir),
        last_name(dir + seq!['/', '.']) == last_name(dir),
        last_name(dir + seq!['/', '.', '.']) is None,
        after_last_slash(dir.push('/') + name) == name,
        after_last_slash(name) == name,
{
    reveal_strlit(".");
    reveal_strlit("..");
    assert("."@ =~= seq!['.']);
    assert(".."@ =~= seq!['.', '.']);
    let none = Seq::<char>::empty();
    lemma_after_slash(dir, name);
    lemma_after_slash(dir, none);
    lemma_after_slash(dir, seq!['.']);
    lemma_after_slash(dir, seq!['.', '.']);
    assert(dir.push('/') + none =~= dir.push('/'));
    assert(dir.push('/').drop_last() =~= dir);
    assert(dir.push('/') + seq!['.'] =~= dir + seq!['/', '.']);
    assert((dir + seq!['/', '.']).drop_last() =~= dir.push('/'));
    assert(dir.push('/') + seq!['.', '.'] =~= dir + seq!['/', '.', '.']);
}

/// A fetched file keeps its name, but for the full stops at its beginning, and with an underscore
/// in the place of each slash and backslash; one of which nothing is left is called an attachment.
pub proof fn lemma_how_names_are_made_harmless(dots: nat, rest: Seq<char>)
    requires
        rest.len() > 0 ==> rest[0] != '.',
    ensures
        ({
            let safe = harmless(Seq::new(dots, |i: int| '.') + rest);
            &&& rest.len() == 0 ==> safe == "attachment"@
            &&& rest.len() > 0 ==> safe.len() == rest.len() && forall|i: int|
                0 <= i < rest.len() ==> #[trigger] safe[i] == if rest[i] == '/' || rest[i] == '\\' {
                    '_'
                } else {
                    rest[i]
                }
        }),
{
    let name = Seq::new(dots, |i: int| '.') + rest;
    let mapped = name.map_values(|c: char| harmless_char(c));
    let tail = rest.map_values(|c: char| harmless_char(c));
    assert(mapped =~= Seq::new(dots, |i: int| '.') + tail);
    lemma_dots_go(dots, tail);
}

proof fn lemma_dots_go(dots: nat, tail: Seq<char>)
    requires
        tail.len() > 0 ==> tail[0] != '.',
    ensures
        without_dots(Seq::new(dots, |i: int| '.') + tail) == tail,
    decreases dots,
{
    let name = Seq::new(dots, |i: int| '.') + tail;
    if dots > 0 {
        lemma_dots_go((dots - 1) as nat, tail);
        assert(name.skip(1) =~= Seq::new((dots - 1) as nat, |i: int| '.') + tail);
    } else {
        assert(name =~= tail);
    }
}

/// A file is fetched from its event where the event and its room are both named, and then both names
/// have to be in order, the room's first; and else from its address.
pub proof fn lemma_where_files_come_from(event: Seq<char>, room: Seq<char>)
    ensures
        route_for(Some(event), Some(room)) == if room.len() == 0 || room[0] != '!' {
            Err::<Route, ToolError>(ToolError::InvalidRoomId)
        } else if !ids::is_event_id(event) {
            Err(ToolError::InvalidEventId)
        } else {
            Ok(Route::Event)
        },
        route_for(None, Some(room)) == Ok::<Route, ToolError>(Route::Address),
        route_for(Some(event), None) == Ok::<Route, ToolError>(Route::Address),
        route_for(None, None) == Ok::<Route, ToolError>(Route::Address),
        MAX_ATTACHMENT_SIZE == 20 * 1024 * 1024,
{
}

/// What is said of a path is what its parts hold, each in its place.
pub proof fn lemma_what_paths_say(path: Seq<Vec<u8>>)
    ensures
        parts(path).len() == path.len(),
        forall|i: int| 0 <= i < path.len() ==> #[trigger] parts(path)[i] == path[i]@,
{
}

} // verus!
