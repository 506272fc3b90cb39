//! Anchor keys: the stable identifier of a sample anchor is its color
//! written as six lowercase hex digits.  Encoding and decoding go through
//! the `hex` crate.

use vstd::prelude::*;

use crate::pixel::Pixel;

verus! {

/// Whether `c` is a hex digit, upper or lower case.
pub open spec fn is_hex_digit(c: char) -> bool {
    hex_digit_value(c) >= 0
}

/// The numeric value of a hex digit; -1 on any other character.
pub open spec fn hex_digit_value(c: char) -> int {
    if c == '0' { 0 }
    else if c == '1' { 1 }
    else if c == '2' { 2 }
    else if c == '3' { 3 }
    else if c == '4' { 4 }
    else if c == '5' { 5 }
    else if c == '6' { 6 }
    else if c == '7' { 7 }
    else if c == '8' { 8 }
    else if c == '9' { 9 }
    else if c == 'a' || c == 'A' { 10 }
    else if c == 'b' || c == 'B' { 11 }
    else if c == 'c' || c == 'C' { 12 }
    else if c == 'd' || c == 'D' { 13 }
    else if c == 'e' || c == 'E' { 14 }
    else if c == 'f' || c == 'F' { 15 }
    else { -1 }
}

/// The lowercase hex digit for a value below sixteen; '0' otherwise.
pub open spec fn hex_char(v: int) -> char {
    if v == 1 { '1' }
    else if v == 2 { '2' }
    else if v == 3 { '3' }
    else if v == 4 { '4' }
    else if v == 5 { '5' }
    else if v == 6 { '6' }
    else if v == 7 { '7' }
    else if v == 8 { '8' }
    else if v == 9 { '9' }
    else if v == 10 { 'a' }
    else if v == 11 { 'b' }
    else if v == 12 { 'c' }
    else if v == 13 { 'd' }
    else if v == 14 { 'e' }
    else if v == 15 { 'f' }
    else { '0' }
}

/// Relies on hex::decode: an even-length, all-hex-digit input decodes to
/// one byte per digit pair, high digit first; any other input is refused.
#[verifier::external_body]
fn hex_decode(s: &str) -> (r: Option<Vec<u8>>)
    ensures
        r is Some <==> (s@.len() % 2 == 0
            && forall|i: int| 0 <= i < s@.len() ==> is_hex_digit(#[trigger] s@[i])),
        r is Some ==> {
            let v = r->0;
            &&& v@.len() == s@.len() / 2
            &&& forall|i: int| #![trigger v@[i]] 0 <= i < v@.len()
                ==> v@[i] == 16 * hex_digit_value(s@[2 * i]) + hex_digit_value(s@[2 * i + 1])
        },
{
    match hex::decode(s) {
        Ok(v) => Some(v),
        Err(_) => None,
    }
}

/// Relies on hex::encode: two lowercase hex digits per byte, high digit
/// first.
#[verifier::external_body]
fn hex_encode(bytes: &Vec<u8>) -> (r: String)
    ensures
        r@.len() == 2 * bytes@.len(),
        forall|i: int| #![trigger bytes@[i]] 0 <= i < bytes@.len()
            ==> r@[2 * i] == hex_char(bytes@[i] as int / 16)
                && r@[2 * i + 1] == hex_char(bytes@[i] as int % 16),
{
    hex::encode(bytes.as_slice())
}

/// The key of an anchor color: six lowercase hex digits, red first.
pub open spec fn key_of_anchor(p: Pixel) -> Seq<char> {
    seq![
        hex_char(p.r as int / 16),
        hex_char(p.r as int % 16),
        hex_char(p.g as int / 16),
        hex_char(p.g as int % 16),
        hex_char(p.b as int / 16),
        hex_char(p.b as int % 16),
    ]
}

/// The anchor color a key names: `Some` exactly on six hex digits.
pub open spec fn anchor_of_key(s: Seq<char>) -> Option<Pixel> {
    if s.len() == 6 && (forall|i: int| 0 <= i < 6 ==> is_hex_digit(#[trigger] s[i])) {
        Some(Pixel {
            r: (16 * hex_digit_value(s[0]) + hex_digit_value(s[1])) as u8,
            g: (16 * hex_digit_value(s[2]) + hex_digit_value(s[3])) as u8,
            b: (16 * hex_digit_value(s[4]) + hex_digit_value(s[5])) as u8,
        })
    } else {
        None
    }
}

/// Renders an anchor color as its six-hex-digit key.
pub fn anchor_key(p: Pixel) -> (r: String)
    ensures
        r@ == key_of_anchor(p),
{
    let mut bytes: Vec<u8> = Vec::new();
    bytes.push(p.r);
    bytes.push(p.g);
    bytes.push(p.b);
    let s = hex_encode(&bytes);
    proof {
        assert(bytes@[0] == p.r);
        assert(bytes@[1] == p.g);
        assert(bytes@[2] == p.b);
        assert(s@ =~= key_of_anchor(p));
    }
    s
}

/// Parses a six-hex-digit key back to the anchor color it names; `None` on
/// anything else.
pub fn anchor_from_key(s: &str) -> (r: Option<Pixel>)
    ensures
        r == anchor_of_key(s@),
{
    match hex_decode(s) {
        Some(v) => {
            if v.len() == 3 {
                proof {
                    assert(v@[0] == 16 * hex_digit_value(s@[0]) + hex_digit_value(s@[1]));
                    assert(v@[1] == 16 * hex_digit_value(s@[2]) + hex_digit_value(s@[3]));
                    assert(v@[2] == 16 * hex_digit_value(s@[4]) + hex_digit_value(s@[5]));
                }
                Some(Pixel { r: v[0], g: v[1], b: v[2] })
            } else {
                None
            }
        },
        None => None,
    }
}

/// The anchors named by a list of keys, in order, skipping keys that name
/// no anchor.
pub open spec fn parsed_anchors(keys: Seq<Seq<char>>) -> Seq<Pixel>
    decreases keys.len(),
{
    if keys.len() == 0 {
        Seq::empty()
    } else {
        let rest = parsed_anchors(keys.drop_last());
        match anchor_of_key(keys.last()) {
            Some(p) => rest.push(p),
            None => rest,
        }
    }
}

/// Builds the sample palette from a list of keys: each valid six-hex-digit
/// key contributes its anchor color, in enumeration order; invalid keys
/// are skipped.
pub fn parse_anchor_list(keys: &Vec<String>) -> (r: Vec<Pixel>)
    ensures
        r@ == parsed_anchors(keys@.map_values(|k: String| k@)),
{
    let ghost m = keys@.map_values(|k: String| k@);
    let mut out: Vec<Pixel> = Vec::new();
    let mut i: usize = 0;
    while i < keys.len()
        invariant
            i <= keys@.len(),
            m == keys@.map_values(|k: String| k@),
            out@ == parsed_anchors(m.take(i as int)),
        decreases keys@.len() - i,
    {
        proof {
            assert(m.take(i + 1).drop_last() =~= m.take(i as int));
            assert(m.take(i + 1).last() == keys@[i as int]@);
        }
        match anchor_from_key(keys[i].as_str()) {
            Some(p) => {
                out.push(p);
            },
            None => {},
        }
        i += 1;
    }
    proof {
        assert(m.take(keys@.len() as int) =~= m);
    }
    out
}

} // verus!
