//! What the web routes decide: the redirect of a search, the bookmarks listed for a query,
//! the checks and changes behind the JSON API, and the replies it sends.
use vstd::prelude::*;
use vstd::string::*;
use crate::strmap::{
    has_key, key_index, keys_unique, lemma_entry_at, lemma_select_all, lemma_select_lookup, lookup, remove_entry,
    select, StrMap,
};
use crate::text::{
    ascii_lower, ascii_upper, contains_seq, contains_str, is_ascii_text, lemma_ascii_lower_of_upper,
    lemma_contains_empty, lemma_contains_transitive, lowercase, str_equal, to_lowercase,
};
use crate::utils::bookmarks::{
    add_or_update_bookmark, add_or_update_command, bookmark_url, lemma_unknown_command_uses_default, bookmark_url_for, upsert_bookmark,
    upsert_command, url_for, with_commands, Bookmark, BookmarkView, Bookmarks, Command, CommandView,
};
use crate::utils::google::{construct_google_search_query, google_search_url};
use crate::utils::{
    command_split, lemma_command_split_at_word, get_command_from_query_string, lemma_command_split, ApiResponse, ApiResponseView, Status,
};

verus! {

/// The text of the root page.
pub fn index() -> (s: &'static str)
    ensures
        s@ == "Hello World!"@,
{
    "Hello World!"
}

/// The text of the page for an unknown route.
pub fn not_found() -> (s: String)
    ensures
        s@ == "That page doesn't exist. Try something else?"@,
{
    String::from_str("That page doesn't exist. Try something else?")
}

/// Where a search for `cmd` leads: when its first word is a bookmark's shortcut, the URL that
/// bookmark gives for the rest, itself split into a command and a query; else the bookmark
/// list for `/help`, and a Google search for anything else.
pub open spec fn search_url(bookmarks: Seq<(Seq<char>, BookmarkView)>, cmd: Seq<char>) -> Seq<char> {
    let (command, rest) = command_split(cmd);
    match lookup(bookmarks, command) {
        Some(bookmark) => {
            let (sub_command, query) = command_split(rest);
            bookmark_url(bookmark, sub_command, query)
        },
        None => if cmd == "/help"@ {
            "/bookmarks"@
        } else {
            google_search_url(cmd)
        },
    }
}

/// The URL that a search for `cmd` redirects to.
pub fn search(bookmarks: &Bookmarks, cmd: &str) -> (url: String)
    ensures
        url@ == search_url(bookmarks@, cmd@),
{
    let (command, query) = get_command_from_query_string(cmd);
    match bookmarks.get(command) {
        Some(bookmark) => {
            let (sub_command, rest) = get_command_from_query_string(query);
            bookmark_url_for(bookmark, sub_command, rest)
        },
        None => {
            if str_equal(cmd, "/help") {
                String::from_str("/bookmarks")
            } else {
                construct_google_search_query(cmd)
            }
        },
    }
}

/// A bookmark name matches a query when its lower-case form contains the query's.
pub open spec fn name_matches(name: Seq<char>, query: Seq<char>) -> bool {
    contains_seq(lowercase(name), lowercase(query))
}

/// For each bookmark, whether the lower-case form of its name contains `lower_query`.
pub open spec fn flags_for(bookmarks: Seq<(Seq<char>, BookmarkView)>, lower_query: Seq<char>) -> Seq<bool> {
    Seq::new(bookmarks.len(), |i: int| contains_seq(lowercase(bookmarks[i].1.name), lower_query))
}

/// For each bookmark, whether its name matches the query.
pub open spec fn name_flags(bookmarks: Seq<(Seq<char>, BookmarkView)>, query: Seq<char>) -> Seq<bool> {
    flags_for(bookmarks, lowercase(query))
}

/// The bookmarks to list: all of them without a query, else those whose name matches it.
/// The empty query lists them all; an ASCII query counts only by its ASCII lower-case form.
pub fn get_bookmarks(bookmarks: Bookmarks, query: Option<&str>) -> (listed: Bookmarks)
    ensures
        query is None ==> listed@ == bookmarks@,
        query matches Some(q) ==> listed@ == select(bookmarks@, name_flags(bookmarks@, q@)),
        query matches Some(q) ==> (q@.len() == 0 ==> listed@ == bookmarks@),
        query matches Some(q) ==> (is_ascii_text(q@) ==> listed@ == select(
            bookmarks@,
            flags_for(bookmarks@, ascii_lower(q@)),
        )),
{
    match query {
        None => bookmarks,
        Some(q) => {
            let lower_query = to_lowercase(q);
            let n = bookmarks.len();
            let mut keep: Vec<bool> = Vec::new();
            let mut i: usize = 0;
            while i < n
                invariant
                    n == bookmarks@.len(),
                    i <= n,
                    lower_query@ == lowercase(q@),
                    keep@.len() == i,
                    forall|j: int| 0 <= j < i ==> keep@[j] == name_flags(bookmarks@, q@)[j],
                decreases n - i,
            {
                let name = to_lowercase(bookmarks.value_at(i).name.as_str());
                keep.push(contains_str(name.as_str(), lower_query.as_str()));
                i = i + 1;
            }
            assert(keep@ =~= name_flags(bookmarks@, q@));
            proof {
                if q@.len() == 0 {
                    assert(ascii_lower(q@) =~= Seq::<char>::empty());
                    assert forall|j: int| 0 <= j < n implies keep@[j] by {
                        lemma_contains_empty(lowercase(bookmarks@[j].1.name));
                    }
                    lemma_select_all(bookmarks@, keep@);
                }
            }
            bookmarks.keep_flagged(&keep)
        },
    }
}

/// Two ASCII queries, one the other upper-cased, list the same bookmarks.
pub proof fn lemma_listing_ignores_ascii_case(
    bookmarks: Seq<(Seq<char>, BookmarkView)>,
    query: Seq<char>,
)
    requires
        is_ascii_text(query),
    ensures
        is_ascii_text(ascii_upper(query)),
        select(bookmarks, flags_for(bookmarks, ascii_lower(ascii_upper(query)))) == select(
            bookmarks,
            flags_for(bookmarks, ascii_lower(query)),
        ),
{
    lemma_ascii_lower_of_upper(query);
}

/// A narrower query lists fewer bookmarks: when the lower-case form of `narrow` contains
/// that of `wide`, every bookmark listed for `narrow` is listed for `wide` too, unchanged.
pub proof fn lemma_narrower_query_lists_fewer(
    bookmarks: Seq<(Seq<char>, BookmarkView)>,
    wide: Seq<char>,
    narrow: Seq<char>,
    key: Seq<char>,
)
    requires
        keys_unique(bookmarks),
        contains_seq(lowercase(narrow), lowercase(wide)),
    ensures
        lookup(select(bookmarks, name_flags(bookmarks, narrow)), key) is Some ==> lookup(
            select(bookmarks, name_flags(bookmarks, wide)),
            key,
        ) == lookup(select(bookmarks, name_flags(bookmarks, narrow)), key),
{
    lemma_listed_bookmarks(bookmarks, narrow, key);
    lemma_listed_bookmarks(bookmarks, wide, key);
    if let Some(b) = lookup(bookmarks, key) {
        if name_matches(b.name, narrow) {
            lemma_contains_transitive(lowercase(b.name), lowercase(narrow), lowercase(wide));
        }
    }
}

/// The bookmark under the lower-case form of `key`, with that form, if there is one.
pub fn stored_bookmark<'a>(bookmarks: &'a Bookmarks, key: &str) -> (r: Option<(String, &'a Bookmark)>)
    ensures
        r is Some == has_key(bookmarks@, lowercase(key@)),
        r matches Some(found) ==> found.0@ == lowercase(key@) && lookup(bookmarks@, lowercase(key@))
            == Some(found.1@),
{
    let shortcut = to_lowercase(key);
    match bookmarks.get(shortcut.as_str()) {
        Some(bookmark) => Some((shortcut, bookmark)),
        None => None,
    }
}

/// How many commands are marked as default.
pub open spec fn default_count(cmds: Seq<(Seq<char>, CommandView)>) -> nat
    decreases cmds.len(),
{
    if cmds.len() == 0 {
        0
    } else {
        default_count(cmds.drop_last()) + (if cmds.last().1.is_default {
            1nat
        } else {
            0nat
        })
    }
}

fn count_defaults(cmds: &StrMap<Command>) -> (n: usize)
    ensures
        n == default_count(cmds@),
{
    let len = cmds.len();
    let mut count: usize = 0;
    let mut i: usize = 0;
    while i < len
        invariant
            len == cmds@.len(),
            i <= len,
            count <= i,
            count == default_count(cmds@.take(i as int)),
        decreases len - i,
    {
        assert(cmds@.take(i + 1).drop_last() =~= cmds@.take(i as int));
        if cmds.value_at(i).is_default {
            count = count + 1;
        }
        i = i + 1;
    }
    assert(cmds@.take(len as int) =~= cmds@);
    count
}

/// The reply to a new bookmark with more than one default command.
pub open spec fn too_many_defaults_reply() -> ApiResponseView {
    ApiResponseView { status: 400, message: "Only one command can be set as default!"@ }
}

/// The reply to a new bookmark whose shortcut is taken.
pub open spec fn shortcut_taken_reply() -> ApiResponseView {
    ApiResponseView { status: 409, message: "A bookmark with this shortcut already exists!"@ }
}

/// Adds a new bookmark under the lower-case form of `key`. It is refused, and nothing
/// changes, when more than one of its commands is marked as default, or else when the
/// shortcut is taken; otherwise it is stored as `add_or_update_bookmark` stores it.
pub fn add_bookmark(bookmarks: &mut Bookmarks, key: &str, bookmark: Bookmark) -> (r: Result<(), ApiResponse>)
    ensures
        default_count(bookmark@.cmds) > 1 ==> {
            &&& r matches Err(reply) && reply@ == too_many_defaults_reply()
            &&& final(bookmarks)@ == old(bookmarks)@
        },
        default_count(bookmark@.cmds) <= 1 && has_key(old(bookmarks)@, lowercase(key@)) ==> {
            &&& r matches Err(reply) && reply@ == shortcut_taken_reply()
            &&& final(bookmarks)@ == old(bookmarks)@
        },
        default_count(bookmark@.cmds) <= 1 && !has_key(old(bookmarks)@, lowercase(key@)) ==> {
            &&& r is Ok
            &&& final(bookmarks)@ == upsert_bookmark(old(bookmarks)@, lowercase(key@), bookmark@)
        },
{
    if count_defaults(&bookmark.cmds) > 1 {
        let reply = ApiResponse::new().set_status(Status::bad_request()).set_message(
            "Only one command can be set as default!",
        );
        return Err(reply);
    }
    let lower_key = to_lowercase(key);
    if bookmarks.contains_key(lower_key.as_str()) {
        let reply = ApiResponse::new().set_status(Status::conflict()).set_message(
            "A bookmark with this shortcut already exists!",
        );
        return Err(reply);
    }
    add_or_update_bookmark(bookmarks, lower_key, bookmark);
    Ok(())
}

/// Stores `bookmark` under the lower-case form of `key`, as `add_or_update_bookmark` does.
pub fn update_bookmark(bookmarks: &mut Bookmarks, key: &str, bookmark: Bookmark)
    ensures
        final(bookmarks)@ == upsert_bookmark(old(bookmarks)@, lowercase(key@), bookmark@),
{
    add_or_update_bookmark(bookmarks, to_lowercase(key), bookmark);
}

/// Stores `command` under the lower-case form of `cmd` in the bookmark under the lower-case
/// form of `key`, which must exist.
pub fn add_command(bookmarks: &mut Bookmarks, key: &str, cmd: &str, command: Command)
    requires
        has_key(old(bookmarks)@, lowercase(key@)),
    ensures
        final(bookmarks)@ == with_commands(
            old(bookmarks)@,
            lowercase(key@),
            upsert_command(
                lookup(old(bookmarks)@, lowercase(key@)).unwrap().cmds,
                lowercase(cmd@),
                command@,
            ),
        ),
{
    add_or_update_command(bookmarks, to_lowercase(key), to_lowercase(cmd), command);
}

/// Drops the bookmark under the lower-case form of `key`, if there is one.
pub fn remove_bookmark(bookmarks: &mut Bookmarks, key: &str)
    ensures
        final(bookmarks)@ == remove_entry(old(bookmarks)@, lowercase(key@)),
{
    crate::utils::bookmarks::remove_bookmark(bookmarks, to_lowercase(key));
}

/// Drops the command under the lower-case form of `cmd` from the bookmark under the
/// lower-case form of `key`, which must exist.
pub fn remove_command(bookmarks: &mut Bookmarks, key: &str, cmd: &str)
    requires
        has_key(old(bookmarks)@, lowercase(key@)),
    ensures
        final(bookmarks)@ == with_commands(
            old(bookmarks)@,
            lowercase(key@),
            remove_entry(lookup(old(bookmarks)@, lowercase(key@)).unwrap().cmds, lowercase(cmd@)),
        ),
{
    crate::utils::bookmarks::remove_command(bookmarks, to_lowercase(key), to_lowercase(cmd));
}

/// Adds the command as `add_command` does when the bookmark under the lower-case form of
/// `key` exists, and tells whether it did; otherwise nothing changes.
pub fn add_command_if_present(bookmarks: &mut Bookmarks, key: &str, cmd: &str, command: Command) -> (added: bool)
    ensures
        added == has_key(old(bookmarks)@, lowercase(key@)),
        added ==> final(bookmarks)@ == with_commands(
            old(bookmarks)@,
            lowercase(key@),
            upsert_command(
                lookup(old(bookmarks)@, lowercase(key@)).unwrap().cmds,
                lowercase(cmd@),
                command@,
            ),
        ),
        !added ==> final(bookmarks)@ == old(bookmarks)@,
{
    let lower_key = to_lowercase(key);
    if bookmarks.contains_key(lower_key.as_str()) {
        add_command(bookmarks, key, cmd, command);
        true
    } else {
        false
    }
}

/// Drops the command as `remove_command` does when the bookmark under the lower-case form of
/// `key` exists, and tells whether it did; otherwise nothing changes.
pub fn remove_command_if_present(bookmarks: &mut Bookmarks, key: &str, cmd: &str) -> (removed: bool)
    ensures
        removed == has_key(old(bookmarks)@, lowercase(key@)),
        removed ==> final(bookmarks)@ == with_commands(
            old(bookmarks)@,
            lowercase(key@),
            remove_entry(lookup(old(bookmarks)@, lowercase(key@)).unwrap().cmds, lowercase(cmd@)),
        ),
        !removed ==> final(bookmarks)@ == old(bookmarks)@,
{
    let lower_key = to_lowercase(key);
    if bookmarks.contains_key(lower_key.as_str()) {
        remove_command(bookmarks, key, cmd);
        true
    } else {
        false
    }
}

/// A change of the stored bookmarks that the JSON API makes.
#[derive(Clone, Copy, Debug, PartialEq, Eq, Structural)]
pub enum Change {
    BookmarkAdded,
    BookmarkUpdated,
    CommandAdded,
    BookmarkRemoved,
    CommandRemoved,
}

/// The reply to a change: 200 with the change's message when it was saved, else 500 with
/// the message of the failure (empty for the changes of commands and removals).
pub open spec fn change_reply(change: Change, saved: bool) -> ApiResponseView {
    if saved {
        ApiResponseView {
            status: 200,
            message: match change {
                Change::BookmarkAdded => "Bookmark added!"@,
                Change::BookmarkUpdated => "Bookmark updated!"@,
                Change::CommandAdded => "Command added!"@,
                Change::BookmarkRemoved => "Bookmark deleted!"@,
                Change::CommandRemoved => Seq::empty(),
            },
        }
    } else {
        ApiResponseView {
            status: 500,
            message: match change {
                Change::BookmarkAdded | Change::BookmarkUpdated => "Something went wrong! Please try again."@,
                _ => Seq::empty(),
            },
        }
    }
}

/// The reply to a change, by whether it was saved.
pub fn change_response(change: Change, saved: bool) -> (reply: ApiResponse)
    ensures
        reply@ == change_reply(change, saved),
{
    if saved {
        let ok = ApiResponse::new().set_status(Status::ok());
        match change {
            Change::BookmarkAdded => ok.set_message("Bookmark added!"),
            Change::BookmarkUpdated => ok.set_message("Bookmark updated!"),
            Change::CommandAdded => ok.set_message("Command added!"),
            Change::BookmarkRemoved => ok.set_message("Bookmark deleted!"),
            Change::CommandRemoved => ok,
        }
    } else {
        let failed = ApiResponse::new().set_status(Status::internal_server_error());
        match change {
            Change::BookmarkAdded | Change::BookmarkUpdated => failed.set_message(
                "Something went wrong! Please try again.",
            ),
            _ => failed,
        }
    }
}

/// The listed bookmarks are exactly those whose name matches the query, unchanged.
pub proof fn lemma_listed_bookmarks(
    bookmarks: Seq<(Seq<char>, BookmarkView)>,
    query: Seq<char>,
    key: Seq<char>,
)
    requires
        keys_unique(bookmarks),
    ensures
        lookup(select(bookmarks, name_flags(bookmarks, query)), key) == (match lookup(bookmarks, key) {
            Some(b) => if name_matches(b.name, query) {
                Some(b)
            } else {
                None
            },
            None => None,
        }),
{
    lemma_select_lookup(bookmarks, name_flags(bookmarks, query), key);
    if has_key(bookmarks, key) {
        lemma_entry_at(bookmarks, key_index(bookmarks, key));
    }
}

/// A search for a bookmark's shortcut alone leads to the bookmark's own URL.
pub proof fn lemma_search_shortcut_alone(bookmarks: Seq<(Seq<char>, BookmarkView)>, cmd: Seq<char>)
    requires
        !cmd.contains(' '),
        lookup(bookmarks, cmd) is Some,
    ensures
        search_url(bookmarks, cmd) == lookup(bookmarks, cmd).unwrap().url,
{
    lemma_command_split(cmd);
    lemma_command_split(Seq::<char>::empty());
}

/// A search whose first word is no shortcut goes to Google, unless it is `/help`.
pub proof fn lemma_search_unknown(bookmarks: Seq<(Seq<char>, BookmarkView)>, cmd: Seq<char>)
    requires
        lookup(bookmarks, command_split(cmd).0) is None,
        cmd != "/help"@,
    ensures
        search_url(bookmarks, cmd) == google_search_url(cmd),
{
}

/// A search `<shortcut> <command> <query>`, where the bookmark has that command, leads to the
/// command's URL for the whole query, every word of it kept.
pub proof fn lemma_search_with_command(
    bookmarks: Seq<(Seq<char>, BookmarkView)>,
    shortcut: Seq<char>,
    command: Seq<char>,
    query: Seq<char>,
)
    requires
        !shortcut.contains(' '),
        !command.contains(' '),
        command.len() > 0,
        lookup(bookmarks, shortcut) is Some,
        lookup(lookup(bookmarks, shortcut).unwrap().cmds, command) is Some,
    ensures
        search_url(bookmarks, shortcut + seq![' '] + command + seq![' '] + query) == url_for(
            lookup(bookmarks, shortcut).unwrap().url,
            lookup(lookup(bookmarks, shortcut).unwrap().cmds, command).unwrap().path,
            query,
        ),
{
    let rest = command + seq![' '] + query;
    assert(shortcut + seq![' '] + command + seq![' '] + query =~= shortcut + seq![' '] + rest);
    lemma_command_split_at_word(shortcut, rest);
    lemma_command_split_at_word(command, query);
    let cmds = lookup(bookmarks, shortcut).unwrap().cmds;
    assert(cmds.len() > 0) by {
        let i = crate::strmap::key_index(cmds, command);
        assert(0 <= i < cmds.len());
    }
}

/// A bookmark is listed for a query exactly when the lower-case form of its whole name
/// contains the lower-case form of the query, and then as it is stored.
pub proof fn lemma_listing_by_whole_name(
    bookmarks: Seq<(Seq<char>, BookmarkView)>,
    query: Seq<char>,
    key: Seq<char>,
)
    requires
        keys_unique(bookmarks),
        lookup(bookmarks, key) is Some,
    ensures
        lookup(select(bookmarks, name_flags(bookmarks, query)), key) is Some == contains_seq(
            lowercase(lookup(bookmarks, key).unwrap().name),
            lowercase(query),
        ),
        lookup(select(bookmarks, name_flags(bookmarks, query)), key) is Some ==> lookup(
            select(bookmarks, name_flags(bookmarks, query)),
            key,
        ) == lookup(bookmarks, key),
{
    lemma_listed_bookmarks(bookmarks, query, key);
}

/// No command is default exactly when the count is zero.
pub proof fn lemma_default_count_zero(cmds: Seq<(Seq<char>, CommandView)>)
    ensures
        (default_count(cmds) == 0) == (forall|j: int| 0 <= j < cmds.len() ==> !(#[trigger] cmds[j]).1.is_default),
    decreases cmds.len(),
{
    if cmds.len() > 0 {
        let d = cmds.drop_last();
        lemma_default_count_zero(d);
        if default_count(cmds) == 0 {
            assert forall|j: int| 0 <= j < cmds.len() implies !(#[trigger] cmds[j]).1.is_default by {
                if j < d.len() {
                    assert(cmds[j] == d[j]);
                }
            }
        } else {
            if forall|j: int| 0 <= j < cmds.len() ==> !(#[trigger] cmds[j]).1.is_default {
                assert forall|j: int| 0 <= j < d.len() implies !(#[trigger] d[j]).1.is_default by {
                    assert(cmds[j] == d[j]);
                }
                assert(!cmds[cmds.len() - 1].1.is_default);
            }
        }
    }
}

/// The count of default commands is more than one exactly when two different commands are
/// both marked default: any number of commands with at most one default counts at most one.
pub proof fn lemma_default_count_many(cmds: Seq<(Seq<char>, CommandView)>)
    ensures
        (default_count(cmds) > 1) == (exists|i: int, j: int|
            0 <= i < j < cmds.len() && (#[trigger] cmds[i]).1.is_default && (#[trigger] cmds[j]).1.is_default),
    decreases cmds.len(),
{
    if cmds.len() > 0 {
        let d = cmds.drop_last();
        let n = cmds.len() - 1;
        lemma_default_count_many(d);
        lemma_default_count_zero(d);
        if default_count(cmds) > 1 {
            if default_count(d) > 1 {
                let (i, j) = choose|i: int, j: int|
                    0 <= i < j < d.len() && (#[trigger] d[i]).1.is_default && (#[trigger] d[j]).1.is_default;
                assert(cmds[i] == d[i] && cmds[j] == d[j]);
            } else {
                assert(cmds[n].1.is_default);
                assert(default_count(d) != 0);
                let i = choose|i: int| 0 <= i < d.len() && !!(#[trigger] d[i]).1.is_default;
                assert(cmds[i] == d[i]);
                assert(cmds[i].1.is_default && cmds[n].1.is_default);
            }
        } else {
            if exists|i: int, j: int|
                0 <= i < j < cmds.len() && (#[trigger] cmds[i]).1.is_default && (#[trigger] cmds[j]).1.is_default {
                let (i, j) = choose|i: int, j: int|
                    0 <= i < j < cmds.len() && (#[trigger] cmds[i]).1.is_default && (#[trigger] cmds[j]).1.is_default;
                assert(cmds[i] == d[i]);
                if j < n {
                    assert(cmds[j] == d[j]);
                } else {
                    assert(!(forall|k: int| 0 <= k < d.len() ==> !(#[trigger] d[k]).1.is_default));
                }
            }
        }
    }
}

/// `/help`, when it is no shortcut, leads to the bookmark list.
pub proof fn lemma_search_help(bookmarks: Seq<(Seq<char>, BookmarkView)>)
    requires
        lookup(bookmarks, "/help"@) is None,
    ensures
        search_url(bookmarks, "/help"@) == "/bookmarks"@,
{
    reveal_strlit("/help");
    lemma_command_split("/help"@);
    assert(!"/help"@.contains(' ')) by {
        if "/help"@.contains(' ') {
            let j = choose|j: int| 0 <= j < "/help"@.len() && "/help"@[j] == ' ';
        }
    }
}

/// A search `<shortcut> <word> <query>`, where the bookmark has no command `word` and exactly
/// one default command, leads to the default command's URL for `word`, a space and the query.
pub proof fn lemma_search_falls_back_to_default(
    bookmarks: Seq<(Seq<char>, BookmarkView)>,
    shortcut: Seq<char>,
    word: Seq<char>,
    query: Seq<char>,
    i: int,
)
    requires
        !shortcut.contains(' '),
        !word.contains(' '),
        word.len() > 0,
        query.len() > 0,
        lookup(bookmarks, shortcut) is Some,
        lookup(lookup(bookmarks, shortcut).unwrap().cmds, word) is None,
        0 <= i < lookup(bookmarks, shortcut).unwrap().cmds.len(),
        lookup(bookmarks, shortcut).unwrap().cmds[i].1.is_default,
        forall|j: int|
            0 <= j < lookup(bookmarks, shortcut).unwrap().cmds.len() && j != i ==> !(
            #[trigger] lookup(bookmarks, shortcut).unwrap().cmds[j]).1.is_default,
    ensures
        search_url(bookmarks, shortcut + seq![' '] + word + seq![' '] + query) == url_for(
            lookup(bookmarks, shortcut).unwrap().url,
            lookup(bookmarks, shortcut).unwrap().cmds[i].1.path,
            word + seq![' '] + query,
        ),
{
    let rest = word + seq![' '] + query;
    assert(shortcut + seq![' '] + word + seq![' '] + query =~= shortcut + seq![' '] + rest);
    lemma_command_split_at_word(shortcut, rest);
    lemma_command_split_at_word(word, query);
    lemma_unknown_command_uses_default(lookup(bookmarks, shortcut).unwrap(), word, query, i);
}

} // verus!
