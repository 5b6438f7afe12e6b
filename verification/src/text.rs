//! Character-level helpers on strings: comparison, search, replacement, lower-casing.
use vstd::prelude::*;
use vstd::string::*;
use vstd::utf8::*;

verus! {

broadcast use vstd::utf8::encode_utf8_decode_utf8;

/// `String::push`: appends one character at the end of the string.
#[verifier::external_body]
pub(crate) fn push_char(s: &mut String, c: char)
    ensures
        final(s)@ == old(s)@.push(c),
{
    s.push(c);
}

/// The lower-case form of a string under Unicode's case mapping, as `str::to_lowercase` of
/// the standard library computes it.
pub uninterp spec fn lowercase(s: Seq<char>) -> Seq<char>;

/// Every character is ASCII.
pub open spec fn is_ascii_text(s: Seq<char>) -> bool {
    forall|i: int| 0 <= i < s.len() ==> (#[trigger] s[i] as u32) < 0x80
}

/// An ASCII upper-case letter `A` to `Z` turned into its lower-case letter; any other
/// character unchanged.
pub open spec fn ascii_lower_char(c: char) -> char {
    if 0x41 <= (c as u32) <= 0x5A {
        ((c as u32) + 32) as char
    } else {
        c
    }
}

/// An ASCII lower-case letter `a` to `z` turned into its upper-case letter; any other
/// character unchanged.
pub open spec fn ascii_upper_char(c: char) -> char {
    if 0x61 <= (c as u32) <= 0x7A {
        ((c as u32) - 32) as char
    } else {
        c
    }
}

/// Each character of `s` through `ascii_lower_char`.
pub open spec fn ascii_lower(s: Seq<char>) -> Seq<char> {
    s.map_values(|c: char| ascii_lower_char(c))
}

/// Each character of `s` through `ascii_upper_char`.
pub open spec fn ascii_upper(s: Seq<char>) -> Seq<char> {
    s.map_values(|c: char| ascii_upper_char(c))
}

/// `str::to_lowercase`: the result is the lower-case mapping of the input, named
/// `lowercase`. On ASCII text the Unicode mapping turns `A` to `Z` into `a` to `z` and keeps
/// every other character, one for one (so the empty string stays empty); on other text the
/// contract says nothing beyond the name.
#[verifier::external_body]
pub fn to_lowercase(s: &str) -> (r: String)
    ensures
        r@ == lowercase(s@),
        is_ascii_text(s@) ==> r@ == ascii_lower(s@),
{
    s.to_lowercase()
}

/// Upper-casing ASCII text does not change its lower-case form.
pub proof fn lemma_ascii_lower_of_upper(s: Seq<char>)
    requires
        is_ascii_text(s),
    ensures
        is_ascii_text(ascii_upper(s)),
        ascii_lower(ascii_upper(s)) == ascii_lower(s),
{
    assert forall|i: int| 0 <= i < ascii_upper(s).len() implies (#[trigger] ascii_upper(s)[i] as u32) < 0x80 by {
        assert(ascii_upper(s)[i] == ascii_upper_char(s[i]));
    }
    assert forall|i: int| 0 <= i < s.len() implies #[trigger] ascii_lower(ascii_upper(s))[i] == ascii_lower(s)[i] by {
        let c = s[i];
        assert(ascii_upper(s)[i] == ascii_upper_char(c));
    }
    assert(ascii_lower(ascii_upper(s)) =~= ascii_lower(s));
}

/// The empty pattern occurs in every string.
pub proof fn lemma_contains_empty(s: Seq<char>)
    ensures
        contains_seq(s, Seq::empty()),
{
    assert(s.subrange(0, 0) =~= Seq::<char>::empty());
    assert(occurs_at(s, Seq::empty(), 0));
}

/// A string that holds `b`, where `b` holds `c`, holds `c`.
pub proof fn lemma_contains_transitive(a: Seq<char>, b: Seq<char>, c: Seq<char>)
    requires
        contains_seq(a, b),
        contains_seq(b, c),
    ensures
        contains_seq(a, c),
{
    let i = choose|i: int| occurs_at(a, b, i);
    let j = choose|j: int| occurs_at(b, c, j);
    assert(a.subrange(i + j, i + j + c.len()) =~= b.subrange(j, j + c.len())) by {
        assert forall|k: int| 0 <= k < c.len() implies #[trigger] a.subrange(i + j, i + j + c.len())[k]
            == b.subrange(j, j + c.len())[k] by {
            assert(a.subrange(i, i + b.len())[j + k] == b[j + k]);
        }
    }
    assert(occurs_at(a, c, i + j));
}

/// The characters of a string slice, in order.
pub fn chars_of(s: &str) -> (v: Vec<char>)
    ensures
        v@ == s@,
{
    let mut v: Vec<char> = Vec::new();
    for c in it: s.chars()
        invariant
            v@ == it.seq().take(it.index() as int),
    {
        v.push(c);
    }
    v
}

/// Whether two string slices hold the same characters.
pub fn str_equal(a: &str, b: &str) -> (r: bool)
    ensures
        r == (a@ == b@),
{
    let x = a.as_bytes();
    let y = b.as_bytes();
    proof {
        assert(decode_utf8(encode_utf8(a@)) == a@);
        assert(decode_utf8(encode_utf8(b@)) == b@);
    }
    if x.len() != y.len() {
        return false;
    }
    let mut i: usize = 0;
    while i < x.len()
        invariant
            x@.len() == y@.len(),
            i <= x@.len(),
            x@ == a.spec_bytes(),
            y@ == b.spec_bytes(),
            forall|j: int| 0 <= j < i ==> x@[j] == y@[j],
        decreases x@.len() - i,
    {
        if x[i] != y[i] {
            return false;
        }
        i = i + 1;
    }
    assert(x@ =~= y@);
    true
}

/// Whether `pat` occurs in `s` starting at position `i`.
pub open spec fn occurs_at(s: Seq<char>, pat: Seq<char>, i: int) -> bool {
    0 <= i && i + pat.len() <= s.len() && s.subrange(i, i + pat.len()) == pat
}

/// Whether `pat` occurs anywhere in `s` (the empty pattern occurs in every string).
pub open spec fn contains_seq(s: Seq<char>, pat: Seq<char>) -> bool {
    exists|i: int| occurs_at(s, pat, i)
}

fn matches_at(s: &Vec<char>, pat: &Vec<char>, i: usize) -> (r: bool)
    ensures
        r == occurs_at(s@, pat@, i as int),
{
    if pat.len() > s.len() || i > s.len() - pat.len() {
        return false;
    }
    let mut j: usize = 0;
    while j < pat.len()
        invariant
            i + pat@.len() <= s@.len(),
            s@.len() == s.len(),
            j <= pat@.len(),
            forall|k: int| 0 <= k < j ==> s@[i + k] == pat@[k],
        decreases pat@.len() - j,
    {
        if s[i + j] != pat[j] {
            assert(s@.subrange(i as int, i + pat@.len())[j as int] != pat@[j as int]);
            return false;
        }
        j = j + 1;
    }
    assert(s@.subrange(i as int, i + pat@.len()) =~= pat@);
    true
}

/// Whether `needle` occurs in `haystack`, as `str::contains` with a string pattern.
pub fn contains_str(haystack: &str, needle: &str) -> (r: bool)
    ensures
        r == contains_seq(haystack@, needle@),
{
    let h = chars_of(haystack);
    let n = chars_of(needle);
    if n.len() > h.len() {
        assert(!contains_seq(haystack@, needle@));
        return false;
    }
    let last = h.len() - n.len();
    let mut i: usize = 0;
    while i < last
        invariant
            h@ == haystack@,
            n@ == needle@,
            last == h@.len() - n@.len(),
            i <= last,
            forall|k: int| 0 <= k < i ==> !occurs_at(h@, n@, k),
        decreases last - i,
    {
        if matches_at(&h, &n, i) {
            return true;
        }
        i = i + 1;
    }
    if matches_at(&h, &n, last) {
        return true;
    }
    assert forall|k: int| !occurs_at(h@, n@, k) by {
        if 0 <= k < last as int {
            assert(k < i);
        }
    }
    false
}

/// Every non-overlapping occurrence of the non-empty `pat` in `s`, found from the left,
/// replaced by `rep`, as `str::replace` does.
pub open spec fn replace_all(s: Seq<char>, pat: Seq<char>, rep: Seq<char>) -> Seq<char>
    decreases s.len(),
{
    if s.len() == 0 || pat.len() == 0 {
        s
    } else if occurs_at(s, pat, 0) {
        rep + replace_all(s.skip(pat.len() as int), pat, rep)
    } else {
        seq![s[0]] + replace_all(s.skip(1), pat, rep)
    }
}

/// Replaces every occurrence of the non-empty `from` in `s` by `to`, scanning from the left.
pub fn replace_str(s: &str, from: &str, to: &str) -> (r: String)
    requires
        from@.len() > 0,
    ensures
        r@ == replace_all(s@, from@, to@),
{
    let cs = chars_of(s);
    let pat = chars_of(from);
    let mut out = String::new();
    let mut i: usize = 0;
    assert(cs@.skip(0) =~= cs@);
    while i < cs.len()
        invariant
            cs@ == s@,
            pat@ == from@,
            pat@.len() > 0,
            i <= cs@.len(),
            out@ + replace_all(cs@.skip(i as int), pat@, to@) == replace_all(s@, from@, to@),
        decreases cs@.len() - i,
    {
        let ghost rest = cs@.skip(i as int);
        if matches_at(&cs, &pat, i) {
            proof {
                assert(rest.subrange(0, pat@.len() as int) =~= cs@.subrange(i as int, i + pat@.len()));
                assert(rest.skip(pat@.len() as int) =~= cs@.skip(i + pat@.len()));
            }
            out.append(to);
            i = i + pat.len();
        } else {
            proof {
                if occurs_at(rest, pat@, 0) {
                    assert(rest.subrange(0, pat@.len() as int) =~= cs@.subrange(i as int, i + pat@.len()));
                }
                assert(rest.skip(1) =~= cs@.skip(i + 1));
                assert(out@.push(cs@[i as int]) =~= out@ + seq![rest[0]]);
            }
            push_char(&mut out, cs[i]);
            i = i + 1;
        }
        proof {
            assert(out@ + replace_all(cs@.skip(i as int), pat@, to@) =~= replace_all(s@, from@, to@));
        }
    }
    assert(out@ + replace_all(cs@.skip(i as int), pat@, to@) == out@);
    out
}

/// A string in which the pattern does not occur is left as it is.
pub proof fn lemma_replace_absent(s: Seq<char>, pat: Seq<char>, rep: Seq<char>)
    requires
        !contains_seq(s, pat),
    ensures
        replace_all(s, pat, rep) == s,
    decreases s.len(),
{
    if s.len() > 0 && pat.len() > 0 {
        assert(!occurs_at(s, pat, 0));
        let t = s.skip(1);
        assert forall|i: int| !occurs_at(t, pat, i) by {
            if occurs_at(t, pat, i) {
                assert(s.subrange(i + 1, i + 1 + pat.len()) =~= t.subrange(i, i + pat.len()));
                assert(occurs_at(s, pat, i + 1));
            }
        }
        lemma_replace_absent(t, pat, rep);
        assert(seq![s[0]] + t =~= s);
    }
}

/// The first occurrence of the pattern is replaced, and the replacing goes on after it:
/// when `pat` does not occur before the `pat` that follows `x`, the result is `x`, then
/// `rep`, then the rest replaced in the same way.
pub proof fn lemma_replace_first(x: Seq<char>, pat: Seq<char>, rep: Seq<char>, y: Seq<char>)
    requires
        pat.len() > 0,
        !contains_seq(x + pat.drop_last(), pat),
    ensures
        replace_all(x + pat + y, pat, rep) == x + rep + replace_all(y, pat, rep),
    decreases x.len(),
{
    let s = x + pat + y;
    let m = pat.len() as int;
    if x.len() == 0 {
        assert(s =~= pat + y);
        assert(s.subrange(0, m) =~= pat);
        assert(s.skip(m) =~= y);
        assert(x + rep + replace_all(y, pat, rep) =~= rep + replace_all(y, pat, rep));
    } else {
        let pd = pat.drop_last();
        assert(!occurs_at(s, pat, 0)) by {
            if occurs_at(s, pat, 0) {
                assert((x + pd).subrange(0, m) =~= s.subrange(0, m));
                assert(occurs_at(x + pd, pat, 0));
            }
        }
        let x1 = x.skip(1);
        assert(!contains_seq(x1 + pd, pat)) by {
            if contains_seq(x1 + pd, pat) {
                let i = choose|i: int| occurs_at(x1 + pd, pat, i);
                assert((x + pd).subrange(i + 1, i + 1 + m) =~= (x1 + pd).subrange(i, i + m));
                assert(occurs_at(x + pd, pat, i + 1));
            }
        }
        lemma_replace_first(x1, pat, rep, y);
        assert(s.skip(1) =~= x1 + pat + y);
        assert(x + rep + replace_all(y, pat, rep) =~= seq![s[0]] + (x1 + rep + replace_all(y, pat, rep)));
    }
}

} // verus!
