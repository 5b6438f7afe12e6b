use bunnylol::strmap::StrMap;
use bunnylol::utils::bookmarks::{
    add_or_update_bookmark, add_or_update_command, construct_bookmark_url, construct_url,
    remove_bookmark, remove_command, Bookmark, Bookmarks, Command,
};

fn command(path: &str, is_default: bool) -> Command {
    Command { desc: String::new(), path: path.to_string(), is_default }
}

fn bookmark(name: &str, url: &str) -> Bookmark {
    Bookmark { name: name.to_string(), url: url.to_string(), cmds: StrMap::new() }
}

fn twitter() -> Bookmark {
    let mut b = bookmark("Twitter", "https://twitter.com");
    b.cmds.insert("u".to_string(), command("/{}", false));
    b.cmds.insert("s".to_string(), command("/search?q={}", true));
    b
}

#[test]
fn construct_url_fills_placeholder() {
    assert_eq!(
        construct_url("https://twitter.com", "/search?q={}", "rust lang"),
        "https://twitter.com/search?q=rust%20lang"
    );
}

#[test]
fn construct_url_without_placeholder_ignores_query() {
    assert_eq!(construct_url("https://a.com", "/x", "ignored words"), "https://a.com/x");
}

#[test]
fn bookmark_url_with_empty_command_is_bookmark_url() {
    let mut b = twitter();
    assert_eq!(construct_bookmark_url(&mut b, ("", "x")), "https://twitter.com");
}

#[test]
fn bookmark_url_without_commands_is_bookmark_url() {
    let mut b = bookmark("Docs", "https://docs.rs");
    assert_eq!(construct_bookmark_url(&mut b, ("serde", "json")), "https://docs.rs");
}

#[test]
fn bookmark_url_named_command() {
    let mut b = twitter();
    assert_eq!(construct_bookmark_url(&mut b, ("u", "rustlang")), "https://twitter.com/rustlang");
}

#[test]
fn bookmark_url_falls_back_to_default_command() {
    let mut b = twitter();
    assert_eq!(
        construct_bookmark_url(&mut b, ("rust", "lang")),
        "https://twitter.com/search?q=rust%20lang"
    );
    assert_eq!(construct_bookmark_url(&mut b, ("rust", "")), "https://twitter.com/search?q=rust");
}

#[test]
fn bookmark_url_without_default_uses_empty_path() {
    let mut b = bookmark("Site", "https://site.com/{}");
    b.cmds.insert("a".to_string(), command("/a", false));
    assert_eq!(construct_bookmark_url(&mut b, ("x", "y")), "https://site.com/x%20y");
}

#[test]
fn update_keeps_commands_and_drops_new_ones() {
    let mut bookmarks: Bookmarks = StrMap::new();
    bookmarks.insert("tw".to_string(), twitter());
    let mut incoming = bookmark("X", "https://x.com");
    incoming.cmds.insert("z".to_string(), command("/z", false));
    add_or_update_bookmark(&mut bookmarks, "tw".to_string(), incoming);
    let stored = bookmarks.get("tw").unwrap();
    assert_eq!(stored.name, "X");
    assert_eq!(stored.url, "https://x.com");
    assert_eq!(stored.cmds.len(), 2);
    assert!(stored.cmds.get("z").is_none());
    assert_eq!(stored.cmds.get("s").unwrap().path, "/search?q={}");
}

#[test]
fn new_bookmark_gets_no_commands() {
    let mut bookmarks: Bookmarks = StrMap::new();
    add_or_update_bookmark(&mut bookmarks, "tw".to_string(), twitter());
    let stored = bookmarks.get("tw").unwrap();
    assert_eq!(stored.name, "Twitter");
    assert!(stored.cmds.is_empty());
}

#[test]
fn default_command_replaces_previous_default() {
    let mut bookmarks: Bookmarks = StrMap::new();
    bookmarks.insert("tw".to_string(), twitter());
    add_or_update_command(&mut bookmarks, "tw".to_string(), "h".to_string(), command("/hashtag/{}", true));
    let cmds = &bookmarks.get("tw").unwrap().cmds;
    assert_eq!(cmds.len(), 3);
    assert!(cmds.get("h").unwrap().is_default);
    assert!(!cmds.get("s").unwrap().is_default);
    assert!(!cmds.get("u").unwrap().is_default);
    assert_eq!(cmds.get("s").unwrap().path, "/search?q={}");
}

#[test]
fn plain_command_keeps_default() {
    let mut bookmarks: Bookmarks = StrMap::new();
    bookmarks.insert("tw".to_string(), twitter());
    add_or_update_command(&mut bookmarks, "tw".to_string(), "u".to_string(), command("/user/{}", false));
    let cmds = &bookmarks.get("tw").unwrap().cmds;
    assert_eq!(cmds.len(), 2);
    assert_eq!(cmds.get("u").unwrap().path, "/user/{}");
    assert!(cmds.get("s").unwrap().is_default);
}

#[test]
fn remove_bookmark_and_command() {
    let mut bookmarks: Bookmarks = StrMap::new();
    bookmarks.insert("tw".to_string(), twitter());
    bookmarks.insert("gh".to_string(), bookmark("GitHub", "https://github.com"));
    remove_command(&mut bookmarks, "tw".to_string(), "u".to_string());
    assert!(bookmarks.get("tw").unwrap().cmds.get("u").is_none());
    assert_eq!(bookmarks.get("tw").unwrap().cmds.len(), 1);
    remove_bookmark(&mut bookmarks, "tw".to_string());
    assert!(bookmarks.get("tw").is_none());
    assert!(bookmarks.get("gh").is_some());
    remove_bookmark(&mut bookmarks, "nothing".to_string());
    assert_eq!(bookmarks.len(), 1);
}

#[test]
fn remove_after_insert_restores() {
    let mut bookmarks: Bookmarks = StrMap::new();
    bookmarks.insert("gh".to_string(), bookmark("GitHub", "https://github.com"));
    add_or_update_bookmark(&mut bookmarks, "tw".to_string(), twitter());
    remove_bookmark(&mut bookmarks, "tw".to_string());
    assert_eq!(bookmarks.len(), 1);
    assert_eq!(bookmarks.key_at(0), "gh");
}

#[test]
fn strmap_keeps_insertion_order() {
    let mut m: StrMap<Command> = StrMap::new();
    m.insert("b".to_string(), command("/b", false));
    m.insert("a".to_string(), command("/a", false));
    m.insert("b".to_string(), command("/b2", false));
    assert_eq!(m.len(), 2);
    assert_eq!(m.key_at(0), "b");
    assert_eq!(m.value_at(0).path, "/b2");
    assert_eq!(m.find("a"), Some(1));
    assert_eq!(m.find("c"), None);
}
