//! Search URLs for Google.
use vstd::prelude::*;
use vstd::string::*;
use crate::encode::{fragment_encode, fragment_percent_encode};

verus! {

/// The Google search URL for `query`: the fixed prefix, then the query percent-encoded.
pub open spec fn google_search_url(query: Seq<char>) -> Seq<char> {
    "https://google.com/search?q="@ + fragment_encode(vstd::utf8::encode_utf8(query))
}

/// Builds the Google search URL for `query`, its UTF-8 bytes percent-encoded with the
/// fragment encode set.
pub fn construct_google_search_query(query: &str) -> (url: String)
    ensures
        url@ == google_search_url(query@),
{
    let encoded_query = fragment_percent_encode(query);
    let mut google_search_url = String::from_str("https://google.com/search?q=");
    google_search_url.append(encoded_query.as_str());
    google_search_url
}

} // verus!
