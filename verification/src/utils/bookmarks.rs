//! Bookmarks, their commands, and the URLs built from them.
use vstd::prelude::*;
use vstd::string::*;
use vstd::utf8::encode_utf8;
use crate::encode::{fragment_encode, fragment_percent_encode};
use crate::strmap::{
    has_key, insert_entry, keys_unique, lemma_entry_at, lemma_insert_lookup, lookup, remove_entry, StrMap,
};
use crate::text::{contains_seq, lemma_replace_absent, replace_all, replace_str};

verus! {

/// A command of a bookmark: a path appended to the bookmark's URL.
#[derive(Debug)]
pub struct Command {
    pub desc: String,
    pub path: String,
    pub is_default: bool,
}

/// What a [`Command`] holds.
pub struct CommandView {
    pub desc: Seq<char>,
    pub path: Seq<char>,
    pub is_default: bool,
}

impl View for Command {
    type V = CommandView;

    open spec fn view(&self) -> CommandView {
        CommandView { desc: self.desc@, path: self.path@, is_default: self.is_default }
    }
}

impl Default for Command {
    fn default() -> (c: Command)
        ensures
            c@ == (CommandView { desc: Seq::empty(), path: Seq::empty(), is_default: false }),
    {
        Command { desc: String::new(), path: String::new(), is_default: false }
    }
}

/// A bookmark: a name, a URL, and its commands by name.
#[derive(Debug)]
pub struct Bookmark {
    pub name: String,
    pub url: String,
    pub cmds: StrMap<Command>,
}

/// What a [`Bookmark`] holds.
pub struct BookmarkView {
    pub name: Seq<char>,
    pub url: Seq<char>,
    pub cmds: Seq<(Seq<char>, CommandView)>,
}

impl View for Bookmark {
    type V = BookmarkView;

    open spec fn view(&self) -> BookmarkView {
        BookmarkView { name: self.name@, url: self.url@, cmds: self.cmds@ }
    }
}

impl Default for Bookmark {
    fn default() -> (b: Bookmark)
        ensures
            b@ == (BookmarkView { name: Seq::empty(), url: Seq::empty(), cmds: Seq::empty() }),
    {
        Bookmark { name: String::new(), url: String::new(), cmds: StrMap::new() }
    }
}

/// All bookmarks, by shortcut.
pub type Bookmarks = StrMap<Bookmark>;

/// The URL for `query` on `base_url` + `path`: every `{}` in it replaced by the query,
/// percent-encoded.
pub open spec fn url_for(base_url: Seq<char>, path: Seq<char>, query: Seq<char>) -> Seq<char> {
    replace_all(base_url + path, "{}"@, fragment_encode(encode_utf8(query)))
}

/// The path of the first command marked as default, or the empty path when none is.
pub open spec fn default_path(cmds: Seq<(Seq<char>, CommandView)>) -> Seq<char>
    decreases cmds.len(),
{
    if cmds.len() == 0 {
        Seq::empty()
    } else if cmds[0].1.is_default {
        cmds[0].1.path
    } else {
        default_path(cmds.drop_first())
    }
}

/// The non-empty ones of `command` and `query`, joined by a space.
pub open spec fn join_nonempty(command: Seq<char>, query: Seq<char>) -> Seq<char> {
    if command.len() == 0 {
        query
    } else if query.len() == 0 {
        command
    } else {
        command + seq![' '] + query
    }
}

/// The URL that a bookmark gives for a command and a query: its own URL when the command is
/// empty or it has no commands; the command's URL for the query when it has that command;
/// else the default command's URL, for the command and the query joined by a space.
pub open spec fn bookmark_url(bookmark: BookmarkView, command: Seq<char>, query: Seq<char>) -> Seq<char> {
    if command.len() == 0 || bookmark.cmds.len() == 0 {
        bookmark.url
    } else {
        match lookup(bookmark.cmds, command) {
            Some(cmd) => url_for(bookmark.url, cmd.path, query),
            None => url_for(
                bookmark.url,
                default_path(bookmark.cmds),
                join_nonempty(command, query),
            ),
        }
    }
}

/// Builds the URL for `query` from `base_url` and `path`: the two joined, then every `{}`
/// replaced by the query, percent-encoded.
pub fn construct_url(base_url: &str, path: &str, query: &str) -> (url: String)
    ensures
        url@ == url_for(base_url@, path@, query@),
{
    let encoded_query = fragment_percent_encode(query);
    let mut full_url = String::from_str(base_url);
    full_url.append(path);
    proof {
        reveal_strlit("{}");
    }
    replace_str(full_url.as_str(), "{}", encoded_query.as_str())
}

fn default_command_path(cmds: &StrMap<Command>) -> (path: &str)
    ensures
        path@ == default_path(cmds@),
{
    let n = cmds.len();
    let mut i: usize = 0;
    assert(cmds@.skip(0) =~= cmds@);
    while i < n
        invariant
            n == cmds@.len(),
            i <= n,
            default_path(cmds@) == default_path(cmds@.skip(i as int)),
        decreases n - i,
    {
        let cmd = cmds.value_at(i);
        if cmd.is_default {
            return cmd.path.as_str();
        }
        assert(cmds@.skip(i as int).drop_first() =~= cmds@.skip(i + 1));
        i = i + 1;
    }
    proof {
        reveal_strlit("");
    }
    ""
}

fn join_command_and_query(command: &str, query: &str) -> (joined: String)
    ensures
        joined@ == join_nonempty(command@, query@),
{
    if command.is_empty() {
        String::from_str(query)
    } else if query.is_empty() {
        String::from_str(command)
    } else {
        let mut joined = String::from_str(command);
        joined.append(" ");
        joined.append(query);
        proof {
            reveal_strlit(" ");
        }
        joined
    }
}

pub(crate) fn bookmark_url_for(bookmark: &Bookmark, command: &str, query: &str) -> (url: String)
    ensures
        url@ == bookmark_url(bookmark@, command@, query@),
{
    if command.is_empty() || bookmark.cmds.is_empty() {
        return String::from_str(bookmark.url.as_str());
    }
    match bookmark.cmds.get(command) {
        Some(cmd) => construct_url(bookmark.url.as_str(), cmd.path.as_str(), query),
        None => {
            let path = default_command_path(&bookmark.cmds);
            let joined = join_command_and_query(command, query);
            construct_url(bookmark.url.as_str(), path, joined.as_str())
        },
    }
}

/// Builds the URL that `bookmark` gives for a command and the query after it: the bookmark's
/// URL when the command is empty or it has no commands; the URL of that command for the
/// query when it exists; else the URL of the default command (the empty path when none is
/// marked) for the command and the query joined by a space. The bookmark is left as it was.
pub fn construct_bookmark_url(bookmark: &mut Bookmark, parts: (&str, &str)) -> (url: String)
    ensures
        url@ == bookmark_url(old(bookmark)@, parts.0@, parts.1@),
        final(bookmark)@ == old(bookmark)@,
{
    let (command, query) = parts;
    bookmark_url_for(bookmark, command, query)
}

/// The bookmarks after storing `bookmark` under `key`: an existing bookmark takes the new
/// name and URL and keeps its commands; a new one gets the name and URL and no command.
pub open spec fn upsert_bookmark(
    bookmarks: Seq<(Seq<char>, BookmarkView)>,
    key: Seq<char>,
    bookmark: BookmarkView,
) -> Seq<(Seq<char>, BookmarkView)> {
    let cmds = match lookup(bookmarks, key) {
        Some(existing) => existing.cmds,
        None => Seq::empty(),
    };
    insert_entry(bookmarks, key, BookmarkView { name: bookmark.name, url: bookmark.url, cmds })
}

/// The commands with none of them marked as default.
pub open spec fn without_defaults(cmds: Seq<(Seq<char>, CommandView)>) -> Seq<(Seq<char>, CommandView)> {
    cmds.map_values(
        |e: (Seq<char>, CommandView)|
            (e.0, CommandView { desc: e.1.desc, path: e.1.path, is_default: false }),
    )
}

/// The commands after storing `command` under `cmd`; a default command first takes the
/// default mark off all the others.
pub open spec fn upsert_command(
    cmds: Seq<(Seq<char>, CommandView)>,
    cmd: Seq<char>,
    command: CommandView,
) -> Seq<(Seq<char>, CommandView)> {
    let base = if command.is_default {
        without_defaults(cmds)
    } else {
        cmds
    };
    insert_entry(base, cmd, command)
}

/// The bookmarks with the bookmark under `key` given the commands `cmds`.
pub open spec fn with_commands(
    bookmarks: Seq<(Seq<char>, BookmarkView)>,
    key: Seq<char>,
    cmds: Seq<(Seq<char>, CommandView)>,
) -> Seq<(Seq<char>, BookmarkView)> {
    let b = lookup(bookmarks, key).unwrap();
    insert_entry(bookmarks, key, BookmarkView { name: b.name, url: b.url, cmds })
}

/// Stores `bookmark` under `key`. An existing bookmark takes the new name and URL and keeps
/// its own commands; a new bookmark gets the name and URL and no command. The commands of
/// `bookmark` are not stored.
pub fn add_or_update_bookmark(bookmarks: &mut Bookmarks, key: String, bookmark: Bookmark)
    ensures
        final(bookmarks)@ == upsert_bookmark(old(bookmarks)@, key@, bookmark@),
{
    match bookmarks.find(key.as_str()) {
        Some(i) => {
            proof {
                lemma_entry_at(old(bookmarks)@, i as int);
            }
            let existing = bookmarks.replace_value_at(i, Bookmark::default());
            let updated = Bookmark { name: bookmark.name, url: bookmark.url, cmds: existing.cmds };
            bookmarks.replace_value_at(i, updated);
        },
        None => {
            let fresh = Bookmark { name: bookmark.name, url: bookmark.url, cmds: StrMap::new() };
            bookmarks.insert(key, fresh);
        },
    }
}

fn clear_defaults(cmds: &mut StrMap<Command>)
    ensures
        final(cmds)@ == without_defaults(old(cmds)@),
{
    let n = cmds.len();
    let mut i: usize = 0;
    while i < n
        invariant
            n == cmds@.len(),
            n == old(cmds)@.len(),
            i <= n,
            forall|j: int| 0 <= j < i ==> cmds@[j] == without_defaults(old(cmds)@)[j],
            forall|j: int| i <= j < n ==> cmds@[j] == old(cmds)@[j],
        decreases n - i,
    {
        let c = cmds.replace_value_at(i, Command::default());
        let cleared = Command { desc: c.desc, path: c.path, is_default: false };
        cmds.replace_value_at(i, cleared);
        i = i + 1;
    }
    assert(cmds@ =~= without_defaults(old(cmds)@));
}

/// Stores `command` under `cmd` in the bookmark under `key`, which must exist. When the
/// command is the default one, no other command of the bookmark stays marked as default.
pub fn add_or_update_command(bookmarks: &mut Bookmarks, key: String, cmd: String, command: Command)
    requires
        has_key(old(bookmarks)@, key@),
    ensures
        final(bookmarks)@ == with_commands(
            old(bookmarks)@,
            key@,
            upsert_command(lookup(old(bookmarks)@, key@).unwrap().cmds, cmd@, command@),
        ),
{
    match bookmarks.find(key.as_str()) {
        Some(i) => {
            proof {
                lemma_entry_at(old(bookmarks)@, i as int);
            }
            let existing = bookmarks.replace_value_at(i, Bookmark::default());
            let mut cmds = existing.cmds;
            if command.is_default {
                clear_defaults(&mut cmds);
            }
            cmds.insert(cmd, command);
            let updated = Bookmark { name: existing.name, url: existing.url, cmds };
            bookmarks.replace_value_at(i, updated);
        },
        None => {},
    }
}

/// Drops the bookmark under `key`, if there is one.
pub fn remove_bookmark(bookmarks: &mut Bookmarks, key: String)
    ensures
        final(bookmarks)@ == remove_entry(old(bookmarks)@, key@),
{
    bookmarks.remove(key.as_str());
}

/// Drops the command `cmd` of the bookmark under `key`, which must exist.
pub fn remove_command(bookmarks: &mut Bookmarks, key: String, cmd: String)
    requires
        has_key(old(bookmarks)@, key@),
    ensures
        final(bookmarks)@ == with_commands(
            old(bookmarks)@,
            key@,
            remove_entry(lookup(old(bookmarks)@, key@).unwrap().cmds, cmd@),
        ),
{
    match bookmarks.find(key.as_str()) {
        Some(i) => {
            proof {
                lemma_entry_at(old(bookmarks)@, i as int);
            }
            let existing = bookmarks.replace_value_at(i, Bookmark::default());
            let mut cmds = existing.cmds;
            cmds.remove(cmd.as_str());
            let updated = Bookmark { name: existing.name, url: existing.url, cmds };
            bookmarks.replace_value_at(i, updated);
        },
        None => {},
    }
}

/// Without a `{}` in the base URL and the path, the URL is the two joined, whatever the query.
pub proof fn lemma_url_without_placeholder(base_url: Seq<char>, path: Seq<char>, query: Seq<char>)
    requires
        !contains_seq(base_url + path, "{}"@),
    ensures
        url_for(base_url, path, query) == base_url + path,
{
    lemma_replace_absent(base_url + path, "{}"@, fragment_encode(encode_utf8(query)));
}

/// After storing a bookmark, its shortcut gives the new name and URL with the commands it had
/// before (none for a new shortcut); every other shortcut gives what it gave before.
pub proof fn lemma_upsert_bookmark(
    bookmarks: Seq<(Seq<char>, BookmarkView)>,
    key: Seq<char>,
    bookmark: BookmarkView,
    other: Seq<char>,
)
    requires
        keys_unique(bookmarks),
    ensures
        keys_unique(upsert_bookmark(bookmarks, key, bookmark)),
        lookup(upsert_bookmark(bookmarks, key, bookmark), key) == Some(
            BookmarkView {
                name: bookmark.name,
                url: bookmark.url,
                cmds: match lookup(bookmarks, key) {
                    Some(existing) => existing.cmds,
                    None => Seq::empty(),
                },
            },
        ),
        other != key ==> lookup(upsert_bookmark(bookmarks, key, bookmark), other) == lookup(
            bookmarks,
            other,
        ),
{
    let cmds = match lookup(bookmarks, key) {
        Some(existing) => existing.cmds,
        None => Seq::empty(),
    };
    lemma_insert_lookup(bookmarks, key, BookmarkView { name: bookmark.name, url: bookmark.url, cmds }, other);
}

/// Taking the default mark off the commands keeps their keys, descriptions and paths.
pub proof fn lemma_without_defaults(cmds: Seq<(Seq<char>, CommandView)>, k: Seq<char>)
    requires
        keys_unique(cmds),
    ensures
        keys_unique(without_defaults(cmds)),
        lookup(without_defaults(cmds), k) == (match lookup(cmds, k) {
            Some(c) => Some(CommandView { desc: c.desc, path: c.path, is_default: false }),
            None => None,
        }),
{
    let w = without_defaults(cmds);
    assert forall|a: int, b: int|
        0 <= a < w.len() && 0 <= b < w.len() && a != b implies #[trigger] w[a].0
        != #[trigger] w[b].0 by {
        assert(w[a].0 == cmds[a].0 && w[b].0 == cmds[b].0);
    }
    if has_key(cmds, k) {
        let i = crate::strmap::key_index(cmds, k);
        lemma_entry_at(cmds, i);
        lemma_entry_at(w, i);
    } else if has_key(w, k) {
        let i = crate::strmap::key_index(w, k);
        assert(cmds[i].0 == k);
    }
}

/// After storing a default command, it is the only command marked as default, and it is
/// what its name gives; the other commands keep their descriptions and paths.
pub proof fn lemma_single_default(
    cmds: Seq<(Seq<char>, CommandView)>,
    cmd: Seq<char>,
    command: CommandView,
    other: Seq<char>,
)
    requires
        keys_unique(cmds),
        command.is_default,
    ensures
        keys_unique(upsert_command(cmds, cmd, command)),
        forall|i: int|
            0 <= i < upsert_command(cmds, cmd, command).len() ==> (#[trigger] upsert_command(
                cmds,
                cmd,
                command,
            )[i]).1.is_default == (upsert_command(cmds, cmd, command)[i].0 == cmd),
        lookup(upsert_command(cmds, cmd, command), cmd) == Some(command),
        other != cmd ==> lookup(upsert_command(cmds, cmd, command), other) == (match lookup(
            cmds,
            other,
        ) {
            Some(c) => Some(CommandView { desc: c.desc, path: c.path, is_default: false }),
            None => None,
        }),
{
    let w = without_defaults(cmds);
    let r = upsert_command(cmds, cmd, command);
    lemma_without_defaults(cmds, other);
    lemma_insert_lookup(w, cmd, command, other);
    assert forall|i: int| 0 <= i < r.len() implies (#[trigger] r[i]).1.is_default == (r[i].0
        == cmd) by {
        if has_key(w, cmd) {
            let j = crate::strmap::key_index(w, cmd);
            if i != j {
                assert(r[i] == w[i]);
                assert(w[i].0 != w[j].0);
            }
        } else {
            if i < w.len() {
                assert(r[i] == w[i]);
                assert(w[i].0 != cmd);
            }
        }
    }
}

/// Storing a command that is not the default one changes no other command.
pub proof fn lemma_plain_command(
    cmds: Seq<(Seq<char>, CommandView)>,
    cmd: Seq<char>,
    command: CommandView,
    other: Seq<char>,
)
    requires
        keys_unique(cmds),
        !command.is_default,
    ensures
        keys_unique(upsert_command(cmds, cmd, command)),
        lookup(upsert_command(cmds, cmd, command), cmd) == Some(command),
        other != cmd ==> lookup(upsert_command(cmds, cmd, command), other) == lookup(cmds, other),
{
    lemma_insert_lookup(cmds, cmd, command, other);
}

/// An empty command, or a bookmark without commands, leads to the bookmark's own URL.
pub proof fn lemma_bookmark_url_plain(bookmark: BookmarkView, command: Seq<char>, query: Seq<char>)
    requires
        command.len() == 0 || bookmark.cmds.len() == 0,
    ensures
        bookmark_url(bookmark, command, query) == bookmark.url,
{
}

/// When the command at position `i` is marked default and none before it is, the fallback
/// path is that command's path, wherever it stands.
pub proof fn lemma_default_path_is_first_default(cmds: Seq<(Seq<char>, CommandView)>, i: int)
    requires
        0 <= i < cmds.len(),
        cmds[i].1.is_default,
        forall|j: int| 0 <= j < i ==> !(#[trigger] cmds[j]).1.is_default,
    ensures
        default_path(cmds) == cmds[i].1.path,
    decreases i,
{
    if i > 0 {
        let t = cmds.drop_first();
        assert(!cmds[0].1.is_default);
        assert forall|j: int| 0 <= j < i - 1 implies !(#[trigger] t[j]).1.is_default by {
            assert(t[j] == cmds[j + 1]);
        }
        lemma_default_path_is_first_default(t, i - 1);
    }
}

/// With exactly one command marked default, the fallback path is that command's path.
pub proof fn lemma_default_path_of_only_default(cmds: Seq<(Seq<char>, CommandView)>, i: int)
    requires
        0 <= i < cmds.len(),
        cmds[i].1.is_default,
        forall|j: int| 0 <= j < cmds.len() && j != i ==> !(#[trigger] cmds[j]).1.is_default,
    ensures
        default_path(cmds) == cmds[i].1.path,
{
    lemma_default_path_is_first_default(cmds, i);
}

/// With no command marked default, the fallback path is empty.
pub proof fn lemma_default_path_without_default(cmds: Seq<(Seq<char>, CommandView)>)
    requires
        forall|j: int| 0 <= j < cmds.len() ==> !(#[trigger] cmds[j]).1.is_default,
    ensures
        default_path(cmds) == Seq::<char>::empty(),
    decreases cmds.len(),
{
    if cmds.len() > 0 {
        let t = cmds.drop_first();
        assert(!cmds[0].1.is_default);
        assert forall|j: int| 0 <= j < t.len() implies !(#[trigger] t[j]).1.is_default by {
            assert(t[j] == cmds[j + 1]);
        }
        lemma_default_path_without_default(t);
    }
}

/// A command the bookmark does not have, with a non-empty name, leads to the URL of the only
/// default command, for the command and the query joined by a space.
pub proof fn lemma_unknown_command_uses_default(
    bookmark: BookmarkView,
    command: Seq<char>,
    query: Seq<char>,
    i: int,
)
    requires
        command.len() > 0,
        lookup(bookmark.cmds, command) is None,
        0 <= i < bookmark.cmds.len(),
        bookmark.cmds[i].1.is_default,
        forall|j: int| 0 <= j < bookmark.cmds.len() && j != i ==> !(#[trigger] bookmark.cmds[j]).1.is_default,
    ensures
        bookmark_url(bookmark, command, query) == url_for(
            bookmark.url,
            bookmark.cmds[i].1.path,
            join_nonempty(command, query),
        ),
{
    lemma_default_path_of_only_default(bookmark.cmds, i);
}

/// Giving the bookmark under `key` new commands keeps its name and URL; every other shortcut
/// gives what it gave before, and no shortcut occurs twice.
pub proof fn lemma_with_commands(
    bookmarks: Seq<(Seq<char>, BookmarkView)>,
    key: Seq<char>,
    cmds: Seq<(Seq<char>, CommandView)>,
    other: Seq<char>,
)
    requires
        keys_unique(bookmarks),
        has_key(bookmarks, key),
    ensures
        keys_unique(with_commands(bookmarks, key, cmds)),
        lookup(with_commands(bookmarks, key, cmds), key) == Some(
            BookmarkView {
                name: lookup(bookmarks, key).unwrap().name,
                url: lookup(bookmarks, key).unwrap().url,
                cmds,
            },
        ),
        other != key ==> lookup(with_commands(bookmarks, key, cmds), other) == lookup(
            bookmarks,
            other,
        ),
{
    let b = lookup(bookmarks, key).unwrap();
    lemma_insert_lookup(bookmarks, key, BookmarkView { name: b.name, url: b.url, cmds }, other);
}

/// A command the bookmark has leads to that command's URL for the query.
pub proof fn lemma_named_command_url(bookmark: BookmarkView, command: Seq<char>, query: Seq<char>)
    requires
        command.len() > 0,
        lookup(bookmark.cmds, command) is Some,
    ensures
        bookmark_url(bookmark, command, query) == url_for(
            bookmark.url,
            lookup(bookmark.cmds, command).unwrap().path,
            query,
        ),
{
    let i = crate::strmap::key_index(bookmark.cmds, command);
    assert(0 <= i < bookmark.cmds.len());
}

} // verus!
