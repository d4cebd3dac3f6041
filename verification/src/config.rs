//! How the bridge reaches its homeserver.

use vstd::prelude::*;

use crate::text;
use crate::text::{lines, starts_with, to_chars, to_text};

verus! {

/// Where the store lies unless set otherwise.
pub fn default_store_path() -> (path: String)
    ensures
        path@ == "./data/matrix_store"@,
{
    "./data/matrix_store".to_owned()
}

/// The connection settings.
#[derive(Debug)]
pub struct Config {
    pub homeserver_url: Option<String>,
    pub user_id: Option<String>,
    pub password: Option<String>,
    pub access_token: Option<String>,
    pub device_id: Option<String>,
    pub store_path: String,
    pub store_passphrase: Option<String>,
}

/// Whether a setting holds something.
pub open spec fn is_set(setting: Option<String>) -> bool {
    setting matches Some(s) && s@.len() > 0
}

fn has_value(setting: &Option<String>) -> (yes: bool)
    ensures
        yes == is_set(*setting),
{
    match setting {
        Some(s) => !s.as_str().is_empty(),
        None => false,
    }
}

/// `id` without the signs at its beginning that mark a user id.
pub open spec fn without_sigil(id: Seq<char>) -> Seq<char>
    decreases id.len(),
{
    if id.len() > 0 && id[0] == '@' {
        without_sigil(id.skip(1))
    } else {
        id
    }
}

/// The local part of a user id: what stands between the sign at its beginning and the first colon.
pub open spec fn localpart_of(id: Seq<char>) -> Seq<char> {
    let name = without_sigil(id);
    name.take(text::find(name, ':') as int)
}

/// The local part of a user id.
pub fn localpart(id: &str) -> (name: String)
    ensures
        name@ == localpart_of(id@),
{
    let chars = to_chars(id);
    let mut from: usize = 0;
    proof {
        assert(chars@.skip(0) =~= chars@);
    }
    while from < chars.len() && chars[from] == '@'
        invariant
            from <= chars@.len(),
            chars@ == id@,
            without_sigil(chars@.skip(from as int)) == without_sigil(id@),
        decreases chars@.len() - from,
    {
        proof {
            assert(chars@.skip(from as int).skip(1) =~= chars@.skip(from + 1));
        }
        from += 1;
    }
    let to: usize = crate::text::find_char(&chars, from, ':');
    proof {
        let rest = chars@.skip(from as int);
        assert(rest == without_sigil(id@));
        assert(chars@.subrange(from as int, to as int) =~= rest.take(to - from));
    }
    to_text(&chars, from, to)
}

impl Config {
    /// Whether the bridge can try to log in: it knows its homeserver and its user id, and has a
    /// password or a token.
    pub fn has_credentials(&self) -> (yes: bool)
        ensures
            yes == (is_set(self.homeserver_url) && is_set(self.user_id) && (is_set(self.password)
                || is_set(self.access_token))),
    {
        has_value(&self.homeserver_url) && has_value(&self.user_id) && (has_value(&self.password)
            || has_value(&self.access_token))
    }

    /// The local part of the bridge's user id.
    pub fn user_localpart(&self) -> (name: Option<String>)
        ensures
            match self.user_id {
                Some(id) => name matches Some(n) && n@ == localpart_of(id@),
                None => name is None,
            },
    {
        match &self.user_id {
            Some(id) => Some(localpart(id.as_str())),
            None => None,
        }
    }
}

/// Whether a line sets the variable that `key` starts the setting of to something.
pub open spec fn sets(line: Seq<char>, key: Seq<char>) -> bool {
    key.is_prefix_of(line) && line.len() > key.len()
}

/// Whether one of the lines sets the variable.
pub open spec fn any_sets(lines: Seq<Seq<char>>, key: Seq<char>) -> bool {
    exists|i: int| 0 <= i < lines.len() && sets(#[trigger] lines[i], key)
}

fn find_setting(list: &Vec<String>, key: &str) -> (found: bool)
    ensures
        found == any_sets(text::texts(list@), key@),
{
    let wanted = to_chars(key);
    let mut i: usize = 0;
    while i < list.len()
        invariant
            i <= list@.len(),
            wanted@ == key@,
            forall|j: int|
                0 <= j < i ==> !sets(#[trigger] text::texts(list@)[j], key@),
        decreases list@.len() - i,
    {
        let line = to_chars(list[i].as_str());
        if starts_with(list[i].as_str(), key) && line.len() > wanted.len() {
            proof {
                assert(sets(text::texts(list@)[i as int], key@));
            }
            return true;
        }
        proof {
            assert(!sets(text::texts(list@)[i as int], key@));
        }
        i += 1;
    }
    false
}

/// Whether a settings file sets what is needed to log in.
pub open spec fn credentials_in(s: Seq<char>) -> bool {
    let lines = text::lines_of(s);
    &&& any_sets(lines, "MATRIX_HOMESERVER_URL="@)
    &&& any_sets(lines, "MATRIX_USER_ID="@)
    &&& any_sets(lines, "MATRIX_PASSWORD="@) || any_sets(lines, "MATRIX_ACCESS_TOKEN="@)
}

/// Whether a settings file, if it could be read, sets what is needed to log in.
pub fn credentials_present(file: Option<&str>) -> (present: bool)
    ensures
        present == (file matches Some(s) && credentials_in(s@)),
{
    match file {
        Some(s) => {
            let found = lines(s);
            find_setting(&found, "MATRIX_HOMESERVER_URL=") && find_setting(
                &found,
                "MATRIX_USER_ID=",
            ) && (find_setting(&found, "MATRIX_PASSWORD=") || find_setting(
                &found,
                "MATRIX_ACCESS_TOKEN=",
            ))
        },
        None => false,
    }
}

/// The local part of a user id is what stands between its at sign and its first colon; without a
/// colon, all that follows.
pub proof fn lemma_what_the_local_part_is(name: Seq<char>, server: Seq<char>)
    requires
        name.len() > 0 ==> name[0] != '@',
        forall|i: int| 0 <= i < name.len() ==> name[i] != ':',
    ensures
        localpart_of(seq!['@'] + name.push(':') + server) == name,
        localpart_of(seq!['@'] + name) == name,
        name.len() > 0 ==> localpart_of(name.push(':') + server) == name,
{
    let id = seq!['@'] + name.push(':') + server;
    let rest = name.push(':') + server;
    assert(id.skip(1) =~= rest);
    assert((seq!['@'] + name).skip(1) =~= name);
    assert(rest[name.len() as int] == ':');
    assert forall|i: int| 0 <= i < name.len() implies rest[i] != ':' by {
        assert(rest[i] == name[i]);
    }
    text::lemma_find_is(rest, ':', name.len() as int);
    text::lemma_find_is(name, ':', name.len() as int);
    assert(rest.take(name.len() as int) =~= name);
    assert(name.take(name.len() as int) =~= name);
    if name.len() > 0 {
        assert(rest[0] == name[0]);
    } else {
        assert(rest[0] == ':');
    }
    assert(without_sigil(rest) == rest);
    assert(without_sigil(name) == name);
    assert(id[0] == '@');
    assert(without_sigil(id) == without_sigil(id.skip(1)));
    assert((seq!['@'] + name)[0] == '@');
    assert(without_sigil(seq!['@'] + name) == without_sigil((seq!['@'] + name).skip(1)));
}

/// Whether a line is `key` and at least one character more.
pub open spec fn goes_beyond(line: Seq<char>, key: Seq<char>) -> bool {
    &&& line.len() > key.len()
    &&& forall|i: int| 0 <= i < key.len() ==> line[i] == #[trigger] key[i]
}

/// Whether a settings file has a line that goes beyond `key`.
pub open spec fn has_line(s: Seq<char>, key: Seq<char>) -> bool {
    exists|i: int|
        0 <= i < text::lines_of(s).len() && goes_beyond(#[trigger] text::lines_of(s)[i], key)
}

proof fn lemma_has_line(s: Seq<char>, key: Seq<char>)
    ensures
        any_sets(text::lines_of(s), key) <==> has_line(s, key),
{
    let lines = text::lines_of(s);
    assert forall|i: int| 0 <= i < lines.len() implies (sets(#[trigger] lines[i], key)
        <==> goes_beyond(lines[i], key)) by {
        let line = lines[i];
        if sets(line, key) {
            assert forall|j: int| 0 <= j < key.len() implies line[j] == #[trigger] key[j] by {
                assert(line.subrange(0, key.len() as int)[j] == key[j]);
            }
        }
        if goes_beyond(line, key) {
            assert(key =~= line.subrange(0, key.len() as int));
        }
    }
    if any_sets(lines, key) {
        let i = choose|i: int| 0 <= i < lines.len() && sets(#[trigger] lines[i], key);
        assert(goes_beyond(lines[i], key));
    }
    if has_line(s, key) {
        let i = choose|i: int|
            0 <= i < text::lines_of(s).len() && goes_beyond(#[trigger] text::lines_of(s)[i], key);
        assert(sets(lines[i], key));
    }
}

/// A settings file suffices exactly if it has a line that sets the homeserver to something, one that
/// sets the user id, and one that sets the password or the access token.
pub proof fn lemma_what_a_settings_file_needs(s: Seq<char>)
    ensures
        credentials_in(s) <==> has_line(s, "MATRIX_HOMESERVER_URL="@) && has_line(
            s,
            "MATRIX_USER_ID="@,
        ) && (has_line(s, "MATRIX_PASSWORD="@) || has_line(s, "MATRIX_ACCESS_TOKEN="@)),
{
    lemma_has_line(s, "MATRIX_HOMESERVER_URL="@);
    lemma_has_line(s, "MATRIX_USER_ID="@);
    lemma_has_line(s, "MATRIX_PASSWORD="@);
    lemma_has_line(s, "MATRIX_ACCESS_TOKEN="@);
}

/// A setting holds something exactly if it is there and not empty.
pub proof fn lemma_which_settings_count(setting: String)
    ensures
        is_set(Some(setting)) <==> setting@.len() > 0,
        !is_set(None),
{
}

/// However many at signs a user id starts with, they are not part of its local part.
pub proof fn lemma_signs_are_not_part_of_the_name(signs: nat, id: Seq<char>)
    requires
        id.len() > 0 ==> id[0] != '@',
    ensures
        localpart_of(Seq::new(signs, |i: int| '@') + id) == localpart_of(id),
    decreases signs,
{
    let whole = Seq::new(signs, |i: int| '@') + id;
    if signs > 0 {
        lemma_signs_are_not_part_of_the_name((signs - 1) as nat, id);
        assert(whole[0] == '@');
        assert(whole.skip(1) =~= Seq::new((signs - 1) as nat, |i: int| '@') + id);
    } else {
        assert(whole =~= id);
    }
}

} // verus!
