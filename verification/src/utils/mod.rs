//! Query splitting and API responses.
use vstd::prelude::*;
use vstd::string::*;
use crate::text::chars_of;

pub mod bookmarks;
pub mod github;
pub mod google;

verus! {

/// `k` is the position of the first space in `q`.
pub open spec fn is_first_space(q: Seq<char>, k: int) -> bool {
    &&& 0 <= k < q.len()
    &&& q[k] == ' '
    &&& forall|j: int| 0 <= j < k ==> q[j] != ' '
}

/// A query split at its first space into the command before it and the rest after it;
/// without a space, the whole query is the command and the rest is empty.
pub open spec fn command_split(q: Seq<char>) -> (Seq<char>, Seq<char>) {
    if q.contains(' ') {
        let k = choose|k: int| is_first_space(q, k);
        (q.take(k), q.skip(k + 1))
    } else {
        (q, Seq::empty())
    }
}

/// A query that holds a space has a first one.
pub proof fn lemma_first_space_exists(q: Seq<char>)
    requires
        q.contains(' '),
    ensures
        exists|k: int| is_first_space(q, k),
    decreases q.len(),
{
    if q[0] == ' ' {
        assert(is_first_space(q, 0));
    } else {
        let t = q.drop_first();
        let w = choose|i: int| 0 <= i < q.len() && q[i] == ' ';
        assert(t[w - 1] == ' ');
        lemma_first_space_exists(t);
        let k = choose|k: int| is_first_space(t, k);
        assert forall|j: int| 0 <= j < k + 1 implies q[j] != ' ' by {
            if j > 0 {
                assert(q[j] == t[j - 1]);
            }
        }
        assert(is_first_space(q, k + 1));
    }
}

/// The command holds no space; with a space in the query, the command, a space and the rest
/// make up the query; without one, the command is the whole query and the rest is empty.
pub proof fn lemma_command_split(q: Seq<char>)
    ensures
        !command_split(q).0.contains(' '),
        q.contains(' ') ==> command_split(q).0 + seq![' '] + command_split(q).1 == q,
        !q.contains(' ') ==> command_split(q).0 == q && command_split(q).1.len() == 0,
{
    if q.contains(' ') {
        lemma_first_space_exists(q);
        let k = choose|k: int| is_first_space(q, k);
        let c = q.take(k);
        assert(!c.contains(' ')) by {
            if c.contains(' ') {
                let j = choose|j: int| 0 <= j < c.len() && c[j] == ' ';
                assert(q[j] == ' ');
            }
        }
        assert(c + seq![' '] + q.skip(k + 1) =~= q);
    }
}

/// A word without a space, a space, then anything: the word is the command and the
/// anything, spaces and all, is the rest.
pub proof fn lemma_command_split_at_word(word: Seq<char>, rest: Seq<char>)
    requires
        !word.contains(' '),
    ensures
        command_split(word + seq![' '] + rest) == (word, rest),
{
    let q = word + seq![' '] + rest;
    let n = word.len() as int;
    assert(q[n] == ' ');
    assert forall|j: int| 0 <= j < n implies q[j] != ' ' by {
        assert(q[j] == word[j]);
        if q[j] == ' ' {
            assert(word.contains(' '));
        }
    }
    assert(is_first_space(q, n));
    assert(q.contains(' '));
    let k = choose|k: int| is_first_space(q, k);
    assert(k == n) by {
        if k < n {
            assert(q[k] != ' ');
        } else if k > n {
            assert(q[n] != ' ');
        }
    }
    assert(q.take(n) =~= word);
    assert(q.skip(n + 1) =~= rest);
}

/// Splits a query at its first space into the command and the rest of the query.
pub fn get_command_from_query_string(query: &str) -> (r: (&str, &str))
    ensures
        (r.0@, r.1@) == command_split(query@),
{
    let cs = chars_of(query);
    let mut i: usize = 0;
    while i < cs.len()
        invariant
            cs@ == query@,
            i <= cs@.len(),
            forall|j: int| 0 <= j < i ==> cs@[j] != ' ',
        decreases cs@.len() - i,
    {
        if cs[i] == ' ' {
            proof {
                assert(is_first_space(query@, i as int));
                assert(query@.contains(' '));
                let k = choose|k: int| is_first_space(query@, k);
                assert(k == i);
            }
            return (query.substring_char(0, i), query.substring_char(i + 1, cs.len()));
        }
        i = i + 1;
    }
    proof {
        reveal_strlit("");
        assert(!query@.contains(' '));
    }
    (query, "")
}

/// An HTTP status, by its numeric code.
#[derive(Clone, Copy, Debug, PartialEq, Eq, Structural)]
pub struct Status {
    pub code: u16,
}

impl Status {
    /// 200 OK.
    pub fn ok() -> (s: Status)
        ensures
            s.code == 200,
    {
        Status { code: 200 }
    }

    /// 400 Bad Request.
    pub fn bad_request() -> (s: Status)
        ensures
            s.code == 400,
    {
        Status { code: 400 }
    }

    /// 409 Conflict.
    pub fn conflict() -> (s: Status)
        ensures
            s.code == 409,
    {
        Status { code: 409 }
    }

    /// 500 Internal Server Error.
    pub fn internal_server_error() -> (s: Status)
        ensures
            s.code == 500,
    {
        Status { code: 500 }
    }
}

/// The reply of the JSON API: a status and a message.
#[derive(Debug)]
pub struct ApiResponse {
    status: Status,
    message: String,
}

/// What an [`ApiResponse`] holds.
pub struct ApiResponseView {
    pub status: u16,
    pub message: Seq<char>,
}

impl View for ApiResponse {
    type V = ApiResponseView;

    closed spec fn view(&self) -> ApiResponseView {
        ApiResponseView { status: self.status.code, message: self.message@ }
    }
}

impl ApiResponse {
    /// A 200 response with an empty message.
    pub fn new() -> (r: ApiResponse)
        ensures
            r@ == (ApiResponseView { status: 200, message: Seq::empty() }),
    {
        ApiResponse { status: Status::ok(), message: String::new() }
    }

    /// The same response with another status.
    pub fn set_status(self, status: Status) -> (r: ApiResponse)
        ensures
            r@ == (ApiResponseView { status: status.code, message: self@.message }),
    {
        ApiResponse { status: status, ..self }
    }

    /// The same response with another message.
    pub fn set_message(self, message: &str) -> (r: ApiResponse)
        ensures
            r@ == (ApiResponseView { status: self@.status, message: message@ }),
    {
        ApiResponse { message: String::from_str(message), ..self }
    }

    /// The status of the response.
    pub fn status(&self) -> (s: Status)
        ensures
            s.code == self@.status,
    {
        self.status
    }

    /// The message of the response.
    pub fn message(&self) -> (m: &str)
        ensures
            m@ == self@.message,
    {
        self.message.as_str()
    }
}

} // verus!
