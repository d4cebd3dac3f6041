//! Paths, as text with slashes between their parts.

use vstd::prelude::*;

use crate::text;
use crate::text::{lower_letters, to_chars};

verus! {

/// The path of `name` below `base`. An absolute `name` stands for itself.
pub open spec fn joined(base: Seq<char>, name: Seq<char>) -> Seq<char> {
    if name.len() > 0 && name[0] == '/' {
        name
    } else if base.len() == 0 || base.last() == '/' {
        base + name
    } else {
        base + "/"@ + name
    }
}

/// The path of `name` below `base`. An absolute `name` stands for itself.
pub fn join_path(base: &str, name: &str) -> (path: String)
    ensures
        path@ == joined(base@, name@),
{
    let inner = to_chars(name);
    if inner.len() > 0 && inner[0] == '/' {
        return name.to_owned();
    }
    let outer = to_chars(base);
    let mut path = base.to_owned();
    if outer.len() > 0 && outer[outer.len() - 1] != '/' {
        path.append("/");
    }
    path.append(name);
    proof {
        assert(path@ =~= joined(base@, name@));
    }
    path
}

/// The directory, below the home directory, that an agent keeps its own files in: its name in lower
/// case behind a full stop.
pub open spec fn agent_dir(agent: Seq<char>) -> Seq<char> {
    "."@ + text::ascii_lowered(agent)
}

/// The directory, below the home directory, that an agent keeps its own files in.
pub fn agent_dir_name(agent: &str) -> (name: String)
    ensures
        name@ == agent_dir(agent@),
{
    let mut name = ".".to_owned();
    name.append(lower_letters(agent).as_str());
    name
}

/// Where the bridge keeps its files: among those of the agent below the home directory, or below
/// the current directory where there is no home directory.
pub open spec fn channel_path(home: Option<Seq<char>>, agent: Seq<char>) -> Seq<char> {
    let base = match home {
        Some(h) => h,
        None => "."@,
    };
    joined(joined(joined(base, agent_dir(agent)), "channels"@), "matrix"@)
}

/// Where the bridge keeps its files.
pub fn channel_dir(home: Option<&str>, agent: &str) -> (path: String)
    ensures
        path@ == channel_path(text::str_in(home), agent@),
{
    let base = match home {
        Some(h) => h,
        None => ".",
    };
    let own = join_path(base, agent_dir_name(agent).as_str());
    let channels = join_path(own.as_str(), "channels");
    join_path(channels.as_str(), "matrix")
}

/// A name below a directory is the directory, a slash and the name; a slash that is there already
/// is not doubled; a name that starts with a slash stands for itself, and a name below nothing too.
pub proof fn lemma_names_below_directories(dir: Seq<char>, name: Seq<char>)
    requires
        name.len() == 0 || name[0] != '/',
    ensures
        dir.len() > 0 && dir.last() != '/' ==> joined(dir, name) == dir.push('/') + name,
        dir.len() > 0 && dir.last() == '/' ==> joined(dir, name) == dir + name,
        joined(Seq::empty(), name) == name,
        joined(dir, seq!['/'] + name) == seq!['/'] + name,
{
    reveal_strlit("/");
    assert("/"@ =~= seq!['/']);
    assert(dir + seq!['/'] =~= dir.push('/'));
    assert(Seq::<char>::empty() + name =~= name);
    assert((seq!['/'] + name)[0] == '/');
}

/// An agent's own directory is named like the agent, in small letters, behind a full stop, and the
/// bridge keeps its files in two directories below that: below the home directory, or below the
/// current one where there is none.
pub proof fn lemma_where_files_are_kept(home: Seq<char>, agent: Seq<char>)
    requires
        home.len() > 0,
        home.last() != '/',
    ensures
        agent_dir(agent).len() == agent.len() + 1,
        agent_dir(agent)[0] == '.',
        forall|i: int|
            0 <= i < agent.len() ==> (#[trigger] agent_dir(agent)[i + 1]) as int == if 'A'
                <= agent[i] <= 'Z' {
                agent[i] as int + 32
            } else {
                agent[i] as int
            },
        agent.len() > 0 && agent.last() != '/' ==> channel_path(Some(home), agent) == home.push('/')
            + agent_dir(agent) + "/channels/matrix"@,
        agent.len() > 0 && agent.last() != '/' ==> channel_path(None, agent) == "./"@ + agent_dir(
            agent,
        ) + "/channels/matrix"@,
{
    reveal_strlit(".");
    reveal_strlit("/");
    reveal_strlit("./");
    reveal_strlit("channels");
    reveal_strlit("matrix");
    reveal_strlit("/channels/matrix");
    let own = agent_dir(agent);
    assert forall|i: int| 0 <= i < agent.len() implies (#[trigger] own[i + 1]) as int == if 'A'
        <= agent[i] <= 'Z' {
        agent[i] as int + 32
    } else {
        agent[i] as int
    } by {
        assert(own[i + 1] == text::ascii_lower(agent[i]));
    }
    assert("/"@ =~= seq!['/']);
    if agent.len() > 0 && agent.last() != '/' {
        assert(own.last() == text::ascii_lower(agent.last()));
        assert(own.last() != '/');
        assert("channels"@.last() == 's');
        let a = joined(home, own);
        assert(a =~= home.push('/') + own);
        let b = joined(a, "channels"@);
        assert(b.last() == 's');
        assert(joined(b, "matrix"@) =~= home.push('/') + own + "/channels/matrix"@);
        let c = joined("."@, own);
        assert(c.last() == own.last());
        let d = joined(c, "channels"@);
        assert(d.last() == 's');
        assert(joined(d, "matrix"@) =~= "./"@ + own + "/channels/matrix"@);
    }
}

/// Wherever the home directory lies, the bridge keeps its files in the same place below it.
pub proof fn lemma_files_are_kept_below_home(home: Seq<char>, agent: Seq<char>)
    ensures
        channel_path(Some(home), agent) == joined(
            joined(joined(home, agent_dir(agent)), "channels"@),
            "matrix"@,
        ),
        channel_path(None, agent) == channel_path(Some("."@), agent),
{
}

} // verus!
