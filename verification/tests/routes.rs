use bunnylol::routes::{
    add_bookmark, add_command, add_command_if_present, change_response, get_bookmarks, index, not_found, remove_bookmark,
    remove_command, remove_command_if_present, search, stored_bookmark, update_bookmark, Change,
};
use bunnylol::strmap::StrMap;
use bunnylol::utils::bookmarks::{Bookmark, Bookmarks, Command};
use bunnylol::utils::{ApiResponse, Status};

fn command(path: &str, is_default: bool) -> Command {
    Command { desc: String::new(), path: path.to_string(), is_default }
}

fn bookmark(name: &str, url: &str) -> Bookmark {
    Bookmark { name: name.to_string(), url: url.to_string(), cmds: StrMap::new() }
}

fn store() -> Bookmarks {
    let mut bookmarks: Bookmarks = StrMap::new();
    let mut tw = bookmark("Twitter", "https://twitter.com");
    tw.cmds.insert("u".to_string(), command("/{}", false));
    tw.cmds.insert("s".to_string(), command("/search?q={}", true));
    bookmarks.insert("tw".to_string(), tw);
    bookmarks.insert("gh".to_string(), bookmark("GitHub", "https://github.com"));
    bookmarks
}

#[test]
fn index_and_not_found_texts() {
    assert_eq!(index(), "Hello World!");
    assert_eq!(not_found(), "That page doesn't exist. Try something else?");
}

#[test]
fn search_shortcut_alone() {
    assert_eq!(search(&store(), "tw"), "https://twitter.com");
}

#[test]
fn search_shortcut_with_command() {
    assert_eq!(search(&store(), "tw u rustlang"), "https://twitter.com/rustlang");
}

#[test]
fn search_shortcut_with_default_command() {
    assert_eq!(search(&store(), "tw rust lang"), "https://twitter.com/search?q=rust%20lang");
}

#[test]
fn search_help_and_google() {
    assert_eq!(search(&store(), "/help"), "/bookmarks");
    assert_eq!(search(&store(), "what is rust"), "https://google.com/search?q=what%20is%20rust");
    assert_eq!(search(&store(), "/help me"), "https://google.com/search?q=/help%20me");
}

#[test]
fn list_all_or_matching_names() {
    let all = get_bookmarks(store(), None);
    assert_eq!(all.len(), 2);
    let hub = get_bookmarks(store(), Some("HUB"));
    assert_eq!(hub.len(), 1);
    assert_eq!(hub.key_at(0), "gh");
    let none = get_bookmarks(store(), Some("zzz"));
    assert!(none.is_empty());
    let every = get_bookmarks(store(), Some(""));
    assert_eq!(every.len(), 2);
}

#[test]
fn add_bookmark_rejects_two_defaults() {
    let mut bookmarks = store();
    let mut b = bookmark("New", "https://new.com");
    b.cmds.insert("a".to_string(), command("/a", true));
    b.cmds.insert("b".to_string(), command("/b", true));
    let reply = add_bookmark(&mut bookmarks, "new", b).unwrap_err();
    assert_eq!(reply.status(), Status::bad_request());
    assert_eq!(reply.message(), "Only one command can be set as default!");
    assert!(bookmarks.get("new").is_none());
}

#[test]
fn add_bookmark_rejects_taken_shortcut() {
    let mut bookmarks = store();
    let reply = add_bookmark(&mut bookmarks, "TW", bookmark("Other", "https://o.com")).unwrap_err();
    assert_eq!(reply.status().code, 409);
    assert_eq!(reply.message(), "A bookmark with this shortcut already exists!");
    assert_eq!(bookmarks.get("tw").unwrap().name, "Twitter");
}

#[test]
fn add_bookmark_stores_lower_case_shortcut() {
    let mut bookmarks = store();
    assert!(add_bookmark(&mut bookmarks, "DDG", bookmark("DuckDuckGo", "https://ddg.gg")).is_ok());
    assert_eq!(bookmarks.get("ddg").unwrap().url, "https://ddg.gg");
    assert_eq!(bookmarks.len(), 3);
}

#[test]
fn update_add_command_and_remove_use_lower_case() {
    let mut bookmarks = store();
    update_bookmark(&mut bookmarks, "GH", bookmark("Hub", "https://github.com"));
    assert_eq!(bookmarks.get("gh").unwrap().name, "Hub");
    add_command(&mut bookmarks, "GH", "R", command("/{}", true));
    assert!(bookmarks.get("gh").unwrap().cmds.get("r").unwrap().is_default);
    remove_command(&mut bookmarks, "Gh", "r");
    assert!(bookmarks.get("gh").unwrap().cmds.is_empty());
    remove_bookmark(&mut bookmarks, "GH");
    assert!(bookmarks.get("gh").is_none());
}

#[test]
fn replies_to_changes() {
    let r = change_response(Change::BookmarkAdded, true);
    assert_eq!((r.status().code, r.message()), (200, "Bookmark added!"));
    let r = change_response(Change::BookmarkUpdated, false);
    assert_eq!((r.status().code, r.message()), (500, "Something went wrong! Please try again."));
    let r = change_response(Change::CommandAdded, true);
    assert_eq!((r.status().code, r.message()), (200, "Command added!"));
    let r = change_response(Change::BookmarkRemoved, true);
    assert_eq!((r.status().code, r.message()), (200, "Bookmark deleted!"));
    let r = change_response(Change::CommandRemoved, false);
    assert_eq!((r.status().code, r.message()), (500, ""));
}

#[test]
fn api_response_builders() {
    let r = ApiResponse::new();
    assert_eq!(r.status(), Status::ok());
    assert_eq!(r.message(), "");
    let r = r.set_status(Status::conflict()).set_message("taken");
    assert_eq!(r.status().code, 409);
    assert_eq!(r.message(), "taken");
    assert_eq!(Status::internal_server_error().code, 500);
}

#[test]
fn command_changes_need_an_existing_bookmark() {
    let mut bookmarks = store();
    assert!(!add_command_if_present(&mut bookmarks, "nope", "x", command("/x", false)));
    assert!(!remove_command_if_present(&mut bookmarks, "nope", "u"));
    assert_eq!(bookmarks.len(), 2);
    assert!(add_command_if_present(&mut bookmarks, "Tw", "x", command("/x", false)));
    assert_eq!(bookmarks.get("tw").unwrap().cmds.len(), 3);
    assert!(remove_command_if_present(&mut bookmarks, "TW", "X"));
    assert_eq!(bookmarks.get("tw").unwrap().cmds.len(), 2);
}

#[test]
fn listing_ignores_ascii_case_and_narrows() {
    let lower = get_bookmarks(store(), Some("git"));
    let upper = get_bookmarks(store(), Some("GIT"));
    assert_eq!(lower.len(), 1);
    assert_eq!(upper.len(), 1);
    assert_eq!(lower.key_at(0), upper.key_at(0));
    let wide = get_bookmarks(store(), Some("t"));
    assert_eq!(wide.len(), 2);
    let narrow = get_bookmarks(store(), Some("tw"));
    assert_eq!(narrow.len(), 1);
    assert_eq!(narrow.key_at(0), "tw");
}

#[test]
fn stored_bookmark_by_lower_case_shortcut() {
    let bookmarks = store();
    let (shortcut, bookmark) = stored_bookmark(&bookmarks, "TW").unwrap();
    assert_eq!(shortcut, "tw");
    assert_eq!(bookmark.name, "Twitter");
    assert!(stored_bookmark(&bookmarks, "nope").is_none());
}
