//! Finding the transcript of the session, and the process that writes it.

use vstd::prelude::*;

use crate::numbers;
use crate::paths;
use crate::paths::{agent_dir_name, join_path};
use crate::text::to_chars;

verus! {

/// How the transcript was found.
#[derive(Debug, Clone, Copy, PartialEq, Eq, Structural)]
pub enum TranscriptSource {
    /// By the session's id: this session's own transcript.
    SessionId,
    /// There is no session id. This is the transcript that was modified last, which may belong
    /// to another session.
    NewestFallback,
}

/// The words for a source.
pub open spec fn source_words(source: TranscriptSource) -> Seq<char> {
    match source {
        TranscriptSource::SessionId => "session-id"@,
        TranscriptSource::NewestFallback => "newest-fallback"@,
    }
}

impl TranscriptSource {
    /// The words for the source.
    pub fn words(&self) -> (words: &'static str)
        ensures
            words@ == source_words(*self),
    {
        match self {
            TranscriptSource::SessionId => "session-id",
            TranscriptSource::NewestFallback => "newest-fallback",
        }
    }
}

/// A file in the project directory.
#[derive(Debug)]
pub struct Listed {
    pub name: String,
    /// When it was modified, in nanoseconds since 1970 began, where that can be told.
    pub modified: Option<i128>,
}

/// The character that stands for `c` in the name of a project directory.
pub open spec fn slug_char(c: char) -> char {
    if c == '/' || c == '.' || c == '_' {
        '-'
    } else {
        c
    }
}

/// The name of the project directory for a working directory.
pub open spec fn slug(cwd: Seq<char>) -> Seq<char> {
    cwd.map_values(|c: char| slug_char(c))
}

/// The name of the project directory for a working directory: `/home/node/x` becomes
/// `-home-node-x`.
pub fn slug_for_cwd(cwd: &str) -> (name: String)
    ensures
        name@ == slug(cwd@),
{
    let chars = to_chars(cwd);
    let mut name = String::new();
    let mut i: usize = 0;
    while i < chars.len()
        invariant
            i <= chars@.len(),
            chars@ == cwd@,
            name@ == slug(cwd@).take(i as int),
        decreases chars@.len() - i,
    {
        let c: char = chars[i];
        if c == '/' || c == '.' || c == '_' {
            name.push('-');
        } else {
            name.push(c);
        }
        i += 1;
        proof {
            let all = slug(cwd@);
            assert(all.take(i as int) =~= all.take(i - 1).push(all[i - 1]));
        }
    }
    proof {
        assert(slug(cwd@).take(i as int) =~= slug(cwd@));
    }
    name
}

/// The directory that holds the transcripts of the agent's sessions in `cwd`.
pub open spec fn project_path(home: Seq<char>, cwd: Seq<char>, agent: Seq<char>) -> Seq<char> {
    paths::joined(paths::joined(home, paths::agent_dir(agent) + "/projects"@), slug(cwd))
}

/// The directory that holds the transcripts of the agent's sessions in `cwd`.
pub fn project_dir(home: &str, cwd: &str, agent: &str) -> (path: String)
    ensures
        path@ == project_path(home@, cwd@, agent@),
{
    let mut name = agent_dir_name(agent);
    name.append("/projects");
    join_path(join_path(home, name.as_str()).as_str(), slug_for_cwd(cwd).as_str())
}

/// The transcript of the session `id`.
pub open spec fn session_path(dir: Seq<char>, id: Seq<char>) -> Seq<char> {
    paths::joined(dir, id + ".jsonl"@)
}

/// The transcript of the session `id`.
pub fn session_file(dir: &str, id: &str) -> (path: String)
    ensures
        path@ == session_path(dir@, id@),
{
    let mut name = id.to_owned();
    name.append(".jsonl");
    join_path(dir, name.as_str())
}

/// Whether a file name has the extension `jsonl`: a name that is all extension has none.
pub open spec fn is_jsonl(name: Seq<char>) -> bool {
    name.len() > 6 && name.skip(name.len() - 6) == ".jsonl"@
}

fn has_jsonl_extension(name: &str) -> (ends: bool)
    ensures
        ends == is_jsonl(name@),
{
    let chars = to_chars(name);
    let total: usize = chars.len();
    if total <= 6 {
        return false;
    }
    proof {
        reveal_strlit(".jsonl");
        let end = chars@.skip(total - 6);
        if end[0] == '.' && end[1] == 'j' && end[2] == 's' && end[3] == 'o' && end[4] == 'n'
            && end[5] == 'l' {
            assert(end =~= ".jsonl"@);
        }
    }
    chars[total - 6] == '.' && chars[total - 5] == 'j' && chars[total - 4] == 's' && chars[total
        - 3] == 'o' && chars[total - 2] == 'n' && chars[total - 1] == 'l'
}

/// Whether a file may be the transcript: it is a `jsonl` file whose age is known.
pub open spec fn candidate(file: Listed) -> bool {
    is_jsonl(file.name@) && file.modified is Some
}

/// Whether the file at `at` is the first of those candidates that were modified last.
pub open spec fn newest_at(listing: Seq<Listed>, at: int) -> bool {
    &&& 0 <= at < listing.len()
    &&& candidate(listing[at])
    &&& forall|i: int|
        0 <= i < listing.len() && candidate(#[trigger] listing[i]) ==> listing[i].modified->0
            <= listing[at].modified->0 && (i < at ==> listing[i].modified->0
            < listing[at].modified->0)
}

/// The `jsonl` file that was modified last; the first of them where several were.
pub fn newest_jsonl(dir: &str, listing: &Vec<Listed>) -> (path: Option<String>)
    ensures
        match path {
            Some(p) => exists|at: int| #[trigger]
                newest_at(listing@, at) && p@ == paths::joined(dir@, listing@[at].name@),
            None => forall|i: int| 0 <= i < listing@.len() ==> !candidate(#[trigger] listing@[i]),
        },
{
    let mut best: Option<usize> = None;
    let mut age: i128 = 0;
    let mut i: usize = 0;
    while i < listing.len()
        invariant
            i <= listing@.len(),
            match best {
                Some(at) => newest_at(listing@.take(i as int), at as int) && listing@[at as int].modified
                    == Some(age),
                None => forall|j: int| 0 <= j < i ==> !candidate(#[trigger] listing@[j]),
            },
        decreases listing@.len() - i,
    {
        let ghost seen = listing@.take(i as int);
        let ghost more = listing@.take(i + 1);
        proof {
            assert(forall|j: int| 0 <= j < i ==> #[trigger] more[j] == seen[j]);
            assert(forall|j: int| 0 <= j < i ==> #[trigger] seen[j] == listing@[j]);
            assert(more[i as int] == listing@[i as int]);
        }
        if has_jsonl_extension(listing[i].name.as_str()) {
            if let Some(modified) = listing[i].modified {
                if best.is_none() || modified > age {
                    best = Some(i);
                    age = modified;
                }
            }
        }
        i += 1;
    }
    proof {
        assert(listing@.take(i as int) =~= listing@);
    }
    match best {
        Some(at) => Some(join_path(dir, listing[at].name.as_str())),
        None => None,
    }
}

/// Whether `path`, found by way of `source`, is the transcript of this session. With a session id
/// it is the session's own, if that is a file, and no other: a session that nobody has written to
/// since it started has none yet. Without one it is the newest in the directory, if that could be
/// listed.
pub open spec fn resolves_to(
    dir: Seq<char>,
    session_id: Option<&str>,
    is_file: bool,
    listing: Option<&Vec<Listed>>,
    path: Seq<char>,
    source: TranscriptSource,
) -> bool {
    match session_id {
        Some(id) => is_file && path == session_path(dir, id@) && source
            == TranscriptSource::SessionId,
        None => listing is Some && source == TranscriptSource::NewestFallback && exists|at: int|
            #[trigger]
            newest_at(listing->0@, at) && path == paths::joined(dir, listing->0@[at].name@),
    }
}

/// The way to the transcript: by the session id, if there is one.
pub open spec fn source_for(session_id: Option<&str>) -> TranscriptSource {
    if session_id is Some {
        TranscriptSource::SessionId
    } else {
        TranscriptSource::NewestFallback
    }
}

/// Whether there is no transcript of this session.
pub open spec fn unresolved(
    session_id: Option<&str>,
    is_file: bool,
    listing: Option<&Vec<Listed>>,
) -> bool {
    match session_id {
        Some(_) => !is_file,
        None => listing is Some ==> forall|i: int|
            0 <= i < listing->0@.len() ==> !candidate(#[trigger] listing->0@[i]),
    }
}

/// The transcript of this session in `dir`, and how it was found, where `is_file` tells whether
/// the session's own is a file and `listing` holds the files in the directory, if it could be
/// listed.
pub fn resolve_transcript(
    dir: &str,
    session_id: Option<&str>,
    is_file: bool,
    listing: Option<&Vec<Listed>>,
) -> (found: Option<(String, TranscriptSource)>)
    ensures
        match found {
            Some((path, source)) => resolves_to(
                dir@,
                session_id,
                is_file,
                listing,
                path@,
                source,
            ),
            None => unresolved(session_id, is_file, listing),
        },
{
    if let Some(id) = session_id {
        return if is_file {
            Some((session_file(dir, id), TranscriptSource::SessionId))
        } else {
            None
        };
    }
    match listing {
        Some(files) => match newest_jsonl(dir, files) {
            Some(path) => Some((path, TranscriptSource::NewestFallback)),
            None => None,
        },
        None => None,
    }
}

/// The transcript of this session, and how it was found, from the home directory and the working
/// directory, where both are known.
pub fn transcript_path_with_source(
    agent: &str,
    home: Option<&str>,
    cwd: Option<&str>,
    session_id: Option<&str>,
    is_file: bool,
    listing: Option<&Vec<Listed>>,
) -> (found: Option<(String, TranscriptSource)>)
    ensures
        match found {
            Some((path, source)) => home is Some && cwd is Some && resolves_to(
                project_path(home->0@, cwd->0@, agent@),
                session_id,
                is_file,
                listing,
                path@,
                source,
            ),
            None => home is None || cwd is None || unresolved(session_id, is_file, listing),
        },
{
    match (home, cwd) {
        (Some(home), Some(cwd)) => {
            let dir = project_dir(home, cwd, agent);
            resolve_transcript(dir.as_str(), session_id, is_file, listing)
        },
        _ => None,
    }
}

/// The transcript of this session.
pub fn transcript_path(
    agent: &str,
    home: Option<&str>,
    cwd: Option<&str>,
    session_id: Option<&str>,
    is_file: bool,
    listing: Option<&Vec<Listed>>,
) -> (found: Option<String>)
    ensures
        match found {
            Some(path) => home is Some && cwd is Some && resolves_to(
                project_path(home->0@, cwd->0@, agent@),
                session_id,
                is_file,
                listing,
                path@,
                source_for(session_id),
            ),
            None => home is None || cwd is None || unresolved(session_id, is_file, listing),
        },
{
    match transcript_path_with_source(agent, home, cwd, session_id, is_file, listing) {
        Some((path, _)) => Some(path),
        None => None,
    }
}

/// There is a transcript or there is none: both cannot hold.
pub proof fn lemma_resolution_is_exclusive(
    dir: Seq<char>,
    session_id: Option<&str>,
    is_file: bool,
    listing: Option<&Vec<Listed>>,
    path: Seq<char>,
    source: TranscriptSource,
)
    requires
        resolves_to(dir, session_id, is_file, listing, path, source),
    ensures
        !unresolved(session_id, is_file, listing),
{
}

/// With a session id the bridge never reads the transcript of another session: what it finds is
/// the file of that id, whatever else the directory holds.
pub proof fn lemma_own_session_only(
    dir: Seq<char>,
    id: &str,
    is_file: bool,
    listing: Option<&Vec<Listed>>,
    path: Seq<char>,
    source: TranscriptSource,
)
    requires
        resolves_to(dir, Some(id), is_file, listing, path, source),
    ensures
        path == session_path(dir, id@),
        source == TranscriptSource::SessionId,
{
}

/// Whether `id` is all decimal digits.
pub open spec fn all_digits(id: Seq<char>) -> bool {
    forall|i: int| 0 <= i < id.len() ==> numbers::is_digit(#[trigger] id[i])
}

/// The directory that is there for as long as the process `pid` is; nothing where no such process
/// can be named.
pub fn process_dir(pid: Option<&str>) -> (dir: Option<String>)
    ensures
        match dir {
            Some(d) => pid is Some && all_digits(pid->0@) && d@ == "/proc/"@ + pid->0@,
            None => pid matches Some(p) ==> !all_digits(p@),
        },
{
    let id = match pid {
        Some(id) => id,
        None => return None,
    };
    let chars = to_chars(id);
    let mut i: usize = 0;
    while i < chars.len()
        invariant
            i <= chars@.len(),
            chars@ == id@,
            pid == Some(id),
            forall|j: int| 0 <= j < i ==> numbers::is_digit(#[trigger] id@[j]),
        decreases chars@.len() - i,
    {
        if chars[i] < '0' || chars[i] > '9' {
            proof {
                assert(!numbers::is_digit(id@[i as int]));
            }
            return None;
        }
        i += 1;
    }
    let mut dir = "/proc/".to_owned();
    dir.append(id);
    Some(dir)
}

/// Whether the process is there, where `is_dir` tells whether its directory is; unknown where no
/// process can be named, so that nobody is declared dead for want of information.
pub fn claude_alive(pid: Option<&str>, is_dir: bool) -> (alive: Option<bool>)
    ensures
        alive == if pid is Some && all_digits(pid->0@) {
            Some(is_dir)
        } else {
            None
        },
{
    match process_dir(pid) {
        Some(_) => Some(is_dir),
        None => None,
    }
}

/// The project directory is named like the working directory, with a hyphen in the place of each
/// slash, full stop and underscore.
pub proof fn lemma_how_project_directories_are_named(cwd: Seq<char>)
    ensures
        slug(cwd).len() == cwd.len(),
        forall|i: int|
            0 <= i < cwd.len() ==> #[trigger] slug(cwd)[i] == if cwd[i] == '/' || cwd[i] == '.'
                || cwd[i] == '_' {
                '-'
            } else {
                cwd[i]
            },
{
}

/// A file is a transcript by its name exactly if that ends with `.jsonl` and is longer than that.
pub proof fn lemma_which_names_are_transcripts(head: Seq<char>, name: Seq<char>)
    ensures
        head.len() > 0 ==> is_jsonl(head + ".jsonl"@),
        is_jsonl(name) ==> name.len() > 6 && name[name.len() - 6] == '.' && name[name.len() - 5]
            == 'j' && name[name.len() - 4] == 's' && name[name.len() - 3] == 'o' && name[name.len()
            - 2] == 'n' && name[name.len() - 1] == 'l',
{
    reveal_strlit(".jsonl");
    let whole = head + ".jsonl"@;
    assert(whole.skip(whole.len() - 6) =~= ".jsonl"@);
    if is_jsonl(name) {
        let end = name.skip(name.len() - 6);
        assert(end == ".jsonl"@);
        assert(end[0] == name[name.len() - 6] && end[1] == name[name.len() - 5] && end[2]
            == name[name.len() - 4] && end[3] == name[name.len() - 3] && end[4] == name[name.len()
            - 2] && end[5] == name[name.len() - 1]);
        assert(".jsonl"@[0] == '.' && ".jsonl"@[1] == 'j' && ".jsonl"@[2] == 's' && ".jsonl"@[3]
            == 'o' && ".jsonl"@[4] == 'n' && ".jsonl"@[5] == 'l');
    }
}

/// A session's transcript is named by the session's id, and lies in the project directory, which
/// lies among the agent's projects below the home directory.
pub proof fn lemma_where_transcripts_lie(
    home: Seq<char>,
    cwd: Seq<char>,
    agent: Seq<char>,
    dir: Seq<char>,
    id: Seq<char>,
)
    requires
        home.len() > 0,
        home.last() != '/',
        dir.len() > 0,
        dir.last() != '/',
        id.len() > 0,
        id[0] != '/',
    ensures
        project_path(home, cwd, agent) == home.push('/') + paths::agent_dir(agent) + "/projects/"@
            + slug(cwd),
        session_path(dir, id) == dir.push('/') + id + ".jsonl"@,
{
    reveal_strlit(".");
    reveal_strlit("/");
    reveal_strlit("/projects");
    reveal_strlit("/projects/");
    reveal_strlit(".jsonl");
    let own = paths::agent_dir(agent) + "/projects"@;
    assert(own[0] == '.');
    assert(own.last() == 's');
    paths::lemma_names_below_directories(home, own);
    let base = paths::joined(home, own);
    assert(base.last() == 's');
    if cwd.len() > 0 {
        assert(slug(cwd)[0] == slug_char(cwd[0]));
    }
    paths::lemma_names_below_directories(base, slug(cwd));
    assert(base.push('/') + slug(cwd) =~= home.push('/') + paths::agent_dir(agent) + "/projects/"@
        + slug(cwd));
    paths::lemma_names_below_directories(dir, id + ".jsonl"@);
    assert(dir.push('/') + (id + ".jsonl"@) =~= dir.push('/') + id + ".jsonl"@);
}

/// Wherever the home directory lies, the project directory is below the agent's projects there, and a
/// session's transcript below that.
pub proof fn lemma_transcripts_lie_below_home(
    home: Seq<char>,
    cwd: Seq<char>,
    agent: Seq<char>,
    id: Seq<char>,
)
    ensures
        session_path(project_path(home, cwd, agent), id) == paths::joined(
            paths::joined(
                paths::joined(home, paths::agent_dir(agent) + "/projects"@),
                slug(cwd),
            ),
            id + ".jsonl"@,
        ),
{
}

/// Of files that may be the transcript, the newest is one that no other is newer than, and of those
/// the first; there is at most one such.
pub proof fn lemma_the_newest_is_one(listing: Seq<Listed>, a: int, b: int)
    requires
        newest_at(listing, a),
        newest_at(listing, b),
    ensures
        a == b,
        is_jsonl(listing[a].name@),
        listing[a].modified is Some,
        forall|i: int|
            0 <= i < listing.len() && is_jsonl((#[trigger] listing[i]).name@)
                && listing[i].modified is Some ==> listing[i].modified->0
                <= listing[a].modified->0,
{
    assert(candidate(listing[a]) && candidate(listing[b]));
}

/// A process is named by decimal digits alone.
pub proof fn lemma_which_processes_can_be_named(id: Seq<char>)
    ensures
        all_digits(id) <==> forall|i: int| 0 <= i < id.len() ==> '0' <= #[trigger] id[i] <= '9',
{
    if forall|i: int| 0 <= i < id.len() ==> '0' <= #[trigger] id[i] <= '9' {
        assert forall|i: int| 0 <= i < id.len() implies numbers::is_digit(#[trigger] id[i]) by {}
    }
    if all_digits(id) {
        assert forall|i: int| 0 <= i < id.len() implies '0' <= #[trigger] id[i] <= '9' by {
            assert(numbers::is_digit(id[i]));
        }
    }
}

/// With a session id the transcript is the file of that id, and there is none where that is no file.
/// Without one it is the newest file of the directory that is a transcript by its name, and there is
/// none where no file is, or the directory could not be listed.
pub proof fn lemma_which_transcript_is_read(
    dir: Seq<char>,
    session_id: Option<&str>,
    is_file: bool,
    listing: Option<&Vec<Listed>>,
    path: Seq<char>,
    source: TranscriptSource,
)
    ensures
        session_id matches Some(id) ==> (resolves_to(dir, session_id, is_file, listing, path, source)
            <==> is_file && path == paths::joined(dir, id@ + ".jsonl"@) && source
            == TranscriptSource::SessionId) && (unresolved(session_id, is_file, listing)
            <==> !is_file),
        session_id is None && resolves_to(dir, session_id, is_file, listing, path, source) ==> {
            &&& source == TranscriptSource::NewestFallback
            &&& listing matches Some(files) && exists|at: int|
                0 <= at < files@.len() && is_jsonl((#[trigger] files@[at]).name@)
                    && files@[at].modified is Some && path == paths::joined(dir, files@[at].name@)
                    && forall|i: int|
                    0 <= i < files@.len() && is_jsonl((#[trigger] files@[i]).name@)
                        && files@[i].modified is Some ==> files@[i].modified->0
                        <= files@[at].modified->0 && (i < at ==> files@[i].modified->0
                        < files@[at].modified->0)
        },
        session_id is None && listing is None ==> unresolved(session_id, is_file, listing)
            && !resolves_to(dir, session_id, is_file, listing, path, source),
        session_id is None && listing is Some ==> (unresolved(session_id, is_file, listing)
            <==> forall|i: int|
            0 <= i < listing->0@.len() ==> !(is_jsonl((#[trigger] listing->0@[i]).name@)
                && listing->0@[i].modified is Some)),
{
    if session_id is None && resolves_to(dir, session_id, is_file, listing, path, source) {
        let files = listing->0@;
        let at = choose|at: int| #[trigger]
            newest_at(files, at) && path == paths::joined(dir, files[at].name@);
        assert(candidate(files[at]));
        assert forall|i: int|
            0 <= i < files.len() && is_jsonl((#[trigger] files[i]).name@)
                && files[i].modified is Some implies files[i].modified->0 <= files[at].modified->0
            && (i < at ==> files[i].modified->0 < files[at].modified->0) by {
            assert(candidate(files[i]));
        }
    }
    if session_id is None && listing is Some {
        let files = listing->0@;
        if unresolved(session_id, is_file, listing) {
            assert forall|i: int| 0 <= i < files.len() implies !(is_jsonl(
                (#[trigger] files[i]).name@,
            ) && files[i].modified is Some) by {
                assert(!candidate(files[i]));
            }
        }
    }
}

} // verus!
