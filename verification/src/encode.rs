//! Percent-encoding of URL parts with the fragment encode set.
use vstd::prelude::*;
use vstd::string::*;
use crate::text::push_char;

verus! {

/// An upper-case hexadecimal digit for a value below 16.
pub open spec fn hex_digit(n: u8) -> char
    recommends
        n < 16,
{
    seq!['0', '1', '2', '3', '4', '5', '6', '7', '8', '9', 'A', 'B', 'C', 'D', 'E', 'F'][n as int]
}

/// The three characters `%XY` that stand for one byte, with upper-case hex digits.
pub open spec fn percent_triplet(byte: u8) -> Seq<char> {
    seq!['%', hex_digit(byte / 16), hex_digit(byte % 16)]
}

/// `percent_encoding::percent_encode_byte`: returns the percent-encoding `%XY` of the byte,
/// `X` and `Y` its two upper-case hex digits (the crate reads them from a fixed table).
pub assume_specification[ percent_encoding::percent_encode_byte ](byte: u8) -> (r: &'static str)
    ensures
        r@ == percent_triplet(byte),
;

/// The C0 control bytes 0x00 to 0x1F and DEL (0x7F), the `CONTROLS` set of `percent_encoding`.
pub open spec fn is_control(byte: u8) -> bool {
    byte <= 0x1F || byte == 0x7F
}

/// The fragment encode set: the control bytes, the space, `"`, `<`, `>` and the backtick.
pub open spec fn in_fragment_set(byte: u8) -> bool {
    ||| is_control(byte)
    ||| byte == 0x20
    ||| byte == 0x22
    ||| byte == 0x3C
    ||| byte == 0x3E
    ||| byte == 0x60
}

/// A byte is written as `%XY` when it is not ASCII or lies in the fragment set.
pub open spec fn must_encode(byte: u8) -> bool {
    byte >= 0x80 || in_fragment_set(byte)
}

/// What one byte of the input becomes in the output.
pub open spec fn encoded_piece(byte: u8) -> Seq<char> {
    if must_encode(byte) {
        percent_triplet(byte)
    } else {
        seq![byte as char]
    }
}

/// The fragment percent-encoding of a byte sequence: each byte replaced by its piece.
pub open spec fn fragment_encode(bytes: Seq<u8>) -> Seq<char>
    decreases bytes.len(),
{
    if bytes.len() == 0 {
        Seq::empty()
    } else {
        fragment_encode(bytes.drop_last()) + encoded_piece(bytes.last())
    }
}

fn must_encode_exec(byte: u8) -> (r: bool)
    ensures
        r == must_encode(byte),
{
    byte >= 0x80 || byte <= 0x1F || byte == 0x7F || byte == 0x20 || byte == 0x22 || byte == 0x3C
        || byte == 0x3E || byte == 0x60
}

/// Percent-encodes the UTF-8 bytes of `input` with the fragment encode set, as
/// `utf8_percent_encode(input, FRAGMENT)` of the `percent_encoding` crate does.
pub fn fragment_percent_encode(input: &str) -> (r: String)
    ensures
        r@ == fragment_encode(input.spec_bytes()),
{
    let bytes = input.as_bytes();
    let mut out = String::new();
    let mut i: usize = 0;
    while i < bytes.len()
        invariant
            i <= bytes@.len(),
            bytes@ == input.spec_bytes(),
            out@ == fragment_encode(bytes@.take(i as int)),
        decreases bytes@.len() - i,
    {
        let b = bytes[i];
        if must_encode_exec(b) {
            let piece = percent_encoding::percent_encode_byte(b);
            out.append(piece);
        } else {
            push_char(&mut out, b as char);
        }
        assert(bytes@.take(i + 1).drop_last() =~= bytes@.take(i as int));
        i = i + 1;
    }
    assert(bytes@.take(i as int) =~= bytes@);
    out
}

/// Encoding a concatenation encodes each part in turn.
pub proof fn lemma_encode_concat(a: Seq<u8>, b: Seq<u8>)
    ensures
        fragment_encode(a + b) == fragment_encode(a) + fragment_encode(b),
    decreases b.len(),
{
    if b.len() == 0 {
        assert(a + b =~= a);
        assert(fragment_encode(b) =~= Seq::<char>::empty());
        assert(fragment_encode(a) + fragment_encode(b) =~= fragment_encode(a));
    } else {
        assert((a + b).drop_last() =~= a + b.drop_last());
        assert((a + b).last() == b.last());
        lemma_encode_concat(a, b.drop_last());
        assert(fragment_encode(a + b) =~= fragment_encode(a) + fragment_encode(b));
    }
}

/// The encoded text is plain ASCII and holds no character of the fragment set: no control
/// character, space, `"`, `<`, `>` or backtick.
pub proof fn lemma_encoded_is_safe(bytes: Seq<u8>)
    ensures
        forall|i: int|
            0 <= i < fragment_encode(bytes).len() ==> {
                let c = #[trigger] fragment_encode(bytes)[i];
                &&& (c as u32) < 0x80
                &&& !in_fragment_set(c as u8)
            },
    decreases bytes.len(),
{
    if bytes.len() > 0 {
        let prev = fragment_encode(bytes.drop_last());
        let b = bytes.last();
        let piece = encoded_piece(b);
        lemma_encoded_is_safe(bytes.drop_last());
        assert forall|i: int| 0 <= i < piece.len() implies {
            let c = #[trigger] piece[i];
            &&& (c as u32) < 0x80
            &&& !in_fragment_set(c as u8)
        } by {
            if must_encode(b) {
                assert(b / 16 < 16 && b % 16 < 16);
            } else {
                assert(piece[i] == b as char);
                assert((b as char) as u32 == b as u32);
            }
        }
        assert forall|i: int| 0 <= i < fragment_encode(bytes).len() implies {
            let c = #[trigger] fragment_encode(bytes)[i];
            &&& (c as u32) < 0x80
            &&& !in_fragment_set(c as u8)
        } by {
            if i < prev.len() {
                assert(fragment_encode(bytes)[i] == prev[i]);
            } else {
                assert(fragment_encode(bytes)[i] == piece[i - prev.len()]);
            }
        }
    }
}

/// Bytes that need no encoding come out as the same characters.
pub proof fn lemma_encode_plain(bytes: Seq<u8>)
    requires
        forall|i: int| 0 <= i < bytes.len() ==> !must_encode(#[trigger] bytes[i]),
    ensures
        fragment_encode(bytes) == bytes.map_values(|b: u8| b as char),
    decreases bytes.len(),
{
    if bytes.len() > 0 {
        lemma_encode_plain(bytes.drop_last());
        assert(bytes.map_values(|b: u8| b as char) =~= bytes.drop_last().map_values(
            |b: u8| b as char,
        ).push(bytes.last() as char));
        assert(!must_encode(bytes[bytes.len() - 1]));
    }
}

/// The characters allowed in encoded text: visible ASCII other than `"`, `<`, `>` and the
/// backtick.
pub open spec fn is_url_safe_char(c: char) -> bool {
    &&& 0x20 < (c as u32) < 0x7F
    &&& c != '"'
    &&& c != '<'
    &&& c != '>'
    &&& c != '`'
}

/// No character of the encoded text is a control character, a space, `"`, `<`, `>`, a
/// backtick or non-ASCII.
pub proof fn lemma_encoded_has_no_unsafe_char(bytes: Seq<u8>)
    ensures
        forall|i: int| 0 <= i < fragment_encode(bytes).len() ==> is_url_safe_char(#[trigger] fragment_encode(bytes)[i]),
    decreases bytes.len(),
{
    if bytes.len() > 0 {
        let prev = fragment_encode(bytes.drop_last());
        let b = bytes.last();
        let piece = encoded_piece(b);
        lemma_encoded_has_no_unsafe_char(bytes.drop_last());
        assert forall|i: int| 0 <= i < piece.len() implies is_url_safe_char(#[trigger] piece[i]) by {
            if must_encode(b) {
                assert(b / 16 < 16 && b % 16 < 16);
            } else {
                assert(piece[i] == b as char);
                assert((b as char) as u32 == b as u32);
            }
        }
        assert forall|i: int| 0 <= i < fragment_encode(bytes).len() implies is_url_safe_char(
            #[trigger] fragment_encode(bytes)[i],
        ) by {
            if i < prev.len() {
                assert(fragment_encode(bytes)[i] == prev[i]);
            } else {
                assert(fragment_encode(bytes)[i] == piece[i - prev.len()]);
            }
        }
    }
}

/// Visible ASCII characters other than `"`, `<`, `>` and the backtick come out as they are.
pub proof fn lemma_encode_keeps_visible_ascii(bytes: Seq<u8>)
    requires
        forall|i: int|
            0 <= i < bytes.len() ==> {
                let b = #[trigger] bytes[i];
                &&& 0x21 <= b <= 0x7E
                &&& b != 0x22
                &&& b != 0x3C
                &&& b != 0x3E
                &&& b != 0x60
            },
    ensures
        fragment_encode(bytes) == bytes.map_values(|b: u8| b as char),
{
    assert forall|i: int| 0 <= i < bytes.len() implies !must_encode(#[trigger] bytes[i]) by {
        let b = bytes[i];
        assert(0x21 <= b <= 0x7E);
    }
    lemma_encode_plain(bytes);
}

/// A space, a control byte, `"`, `<`, `>`, a backtick or a non-ASCII byte becomes `%` and its
/// two upper-case hex digits.
pub proof fn lemma_encode_escapes(b: u8)
    requires
        b <= 0x20 || b >= 0x7F || b == 0x22 || b == 0x3C || b == 0x3E || b == 0x60,
    ensures
        fragment_encode(seq![b]) == seq!['%', hex_digit(b / 16), hex_digit(b % 16)],
{
    assert(seq![b].drop_last() =~= Seq::<u8>::empty());
    assert(fragment_encode(Seq::<u8>::empty()) =~= Seq::<char>::empty());
    assert(Seq::<char>::empty() + percent_triplet(b) =~= percent_triplet(b));
}

} // verus!
