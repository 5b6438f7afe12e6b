//! A search redirector: a query whose first word is a bookmark's shortcut leads to that
//! bookmark's URL, with the rest of the query filled into the URL of one of its commands;
//! any other query leads to a Google search. Bookmarks and their commands are kept in a
//! JSON file and managed through a small API.
//!
//! - [`utils`]: splitting a query, the bookmarks and the URLs built from them, API replies.
//! - [`routes`]: what each web route decides.
//! - [`strmap`]: the ordered string-keyed map that holds bookmarks and commands.
//! - [`encode`]: percent-encoding of a query.
//! - [`text`]: character-level string operations.
pub mod encode;
pub mod routes;
pub mod strmap;
pub mod text;
pub mod utils;
