//! URLs on GitHub.
use vstd::prelude::*;
use vstd::string::*;
use vstd::utf8::*;
use crate::encode::{fragment_encode, fragment_percent_encode};
use crate::text::str_equal;

verus! {

/// The GitHub URL for a query of the form `gh <path>`: the bare site for `gh` alone, else
/// the site followed by the percent-encoded text that starts at byte 3 of the query.
pub open spec fn github_url(query: Seq<char>) -> Seq<char> {
    if query == "gh"@ {
        "https://github.com"@
    } else {
        let bytes = encode_utf8(query);
        "https://github.com/"@ + fragment_encode(bytes.subrange(3, bytes.len() as int))
    }
}

/// Builds the GitHub URL for `query`: `https://github.com` for `gh`, otherwise the text after
/// its first three bytes, percent-encoded, as a path on `https://github.com/`.
/// Other than `gh`, the query must have a character boundary at byte 3 (it is cut there).
pub fn construct_github_url(query: &str) -> (url: String)
    requires
        query@ != "gh"@ ==> is_char_boundary(query.spec_bytes(), 3),
    ensures
        url@ == github_url(query@),
{
    if str_equal(query, "gh") {
        String::from_str("https://github.com")
    } else {
        let (_, rest) = query.split_at(3);
        proof {
            assert(rest.spec_bytes() == encode_utf8(rest@));
        }
        let encoded_query = fragment_percent_encode(rest);
        let mut github_url = String::from_str("https://github.com/");
        github_url.append(encoded_query.as_str());
        github_url
    }
}

} // verus!
