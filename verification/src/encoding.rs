//! Byte strings as numbers, comparison in constant structure, and hexadecimal text.

use vstd::prelude::*;

verus! {

/// The number that a byte string denotes when read most significant byte first.
pub open spec fn be_value(bytes: Seq<u8>) -> nat
    decreases bytes.len(),
{
    if bytes.len() == 0 {
        0
    } else {
        be_value(bytes.drop_last()) * 256 + bytes.last() as nat
    }
}

/// Whether every byte of the string is zero.
pub open spec fn all_zero(bytes: Seq<u8>) -> bool {
    forall|i: int| 0 <= i < bytes.len() ==> bytes[i] == 0
}

/// A byte string denotes zero exactly when all its bytes are zero.
pub proof fn lemma_be_value_zero(bytes: Seq<u8>)
    ensures
        be_value(bytes) == 0 <==> all_zero(bytes),
    decreases bytes.len(),
{
    if bytes.len() > 0 {
        let front = bytes.drop_last();
        lemma_be_value_zero(front);
        if all_zero(bytes) {
            assert forall|i: int| 0 <= i < front.len() implies front[i] == 0 by {
                assert(front[i] == bytes[i]);
            }
        }
        if be_value(bytes) == 0 {
            assert(bytes.last() == 0);
            assert(be_value(front) == 0);
            assert forall|i: int| 0 <= i < bytes.len() implies bytes[i] == 0 by {
                if i < front.len() {
                    assert(front[i] == bytes[i]);
                }
            }
        }
    }
}

/// Compares two byte strings without stopping at the first difference: every
/// position is read whichever bytes differ.
pub fn bytes_equal(a: &[u8], b: &[u8]) -> (same: bool)
    ensures
        same == (a@ == b@),
{
    if a.len() != b.len() {
        return false;
    }
    let mut diff: u8 = 0;
    let mut i: usize = 0;
    proof {
        assert(a@.take(0) =~= b@.take(0));
    }
    while i < a.len()
        invariant
            i <= a.len(),
            a.len() == b.len(),
            diff == 0 <==> a@.take(i as int) == b@.take(i as int),
        decreases a.len() - i,
    {
        let x: u8 = a[i];
        let y: u8 = b[i];
        let prev: u8 = diff;
        diff = diff | (x ^ y);
        proof {
            assert((prev | (x ^ y)) == 0 <==> (prev == 0 && x == y)) by (bit_vector);
            let ta = a@.take(i as int + 1);
            let tb = b@.take(i as int + 1);
            assert(ta.drop_last() == a@.take(i as int));
            assert(tb.drop_last() == b@.take(i as int));
            assert(ta.last() == x && tb.last() == y);
            if prev == 0 && x == y {
                assert(ta =~= tb.drop_last().push(y));
                assert(tb =~= tb.drop_last().push(y));
            }
        }
        i += 1;
    }
    proof {
        assert(a@.take(a@.len() as int) == a@);
        assert(b@.take(b@.len() as int) == b@);
    }
    diff == 0
}

/// Whether every byte of the slice is zero, read in constant structure.
pub fn is_all_zero(bytes: &[u8]) -> (zero: bool)
    ensures
        zero == all_zero(bytes@),
        zero == (be_value(bytes@) == 0),
{
    let mut acc: u8 = 0;
    let mut i: usize = 0;
    while i < bytes.len()
        invariant
            i <= bytes.len(),
            acc == 0 <==> all_zero(bytes@.take(i as int)),
        decreases bytes.len() - i,
    {
        let x: u8 = bytes[i];
        let prev: u8 = acc;
        acc = acc | x;
        proof {
            assert((prev | x) == 0 <==> (prev == 0 && x == 0)) by (bit_vector);
            let t = bytes@.take(i as int + 1);
            let p = bytes@.take(i as int);
            if all_zero(t) {
                assert(t[i as int] == 0);
                assert forall|j: int| 0 <= j < p.len() implies p[j] == 0 by {
                    assert(p[j] == t[j]);
                }
            }
            if prev == 0 && x == 0 {
                assert forall|j: int| 0 <= j < t.len() implies t[j] == 0 by {
                    if j < i {
                        assert(t[j] == p[j]);
                    }
                }
            }
        }
        i += 1;
    }
    proof {
        assert(bytes@.take(bytes@.len() as int) == bytes@);
        lemma_be_value_zero(bytes@);
    }
    acc == 0
}

/// The value of a hexadecimal digit, in either case, if the byte is one.
pub open spec fn hex_value(c: u8) -> Option<u8> {
    if 0x30 <= c <= 0x39 {
        Some((c - 0x30) as u8)
    } else if 0x61 <= c <= 0x66 {
        Some((c - 0x61 + 10) as u8)
    } else if 0x41 <= c <= 0x46 {
        Some((c - 0x41 + 10) as u8)
    } else {
        None
    }
}

/// The lower-case hexadecimal digit of a value below 16.
pub open spec fn hex_digit(v: u8) -> u8 {
    if v < 10 {
        (0x30 + v) as u8
    } else {
        (0x61 + v - 10) as u8
    }
}

/// Whether the text is hexadecimal: digits only, and an even number of them.
pub open spec fn is_hex(text: Seq<u8>) -> bool {
    text.len() % 2 == 0 && forall|i: int| 0 <= i < text.len() ==> hex_value(#[trigger] text[i]).is_some()
}

/// The bytes that hexadecimal text denotes, two digits to a byte.
pub open spec fn hex_decoded(text: Seq<u8>) -> Seq<u8> {
    Seq::new(
        text.len() / 2,
        |i: int| (hex_value(text[2 * i]).unwrap() * 16 + hex_value(text[2 * i + 1]).unwrap()) as u8,
    )
}

/// The lower-case hexadecimal text of the bytes.
pub open spec fn hex_encoded(bytes: Seq<u8>) -> Seq<u8> {
    Seq::new(
        2 * bytes.len(),
        |i: int|
            if i % 2 == 0 {
                hex_digit(bytes[i / 2] / 16)
            } else {
                hex_digit(bytes[i / 2] % 16)
            },
    )
}

fn digit_value(c: u8) -> (v: Option<u8>)
    ensures
        v == hex_value(c),
        v matches Some(d) ==> d < 16,
{
    if 0x30 <= c && c <= 0x39 {
        Some(c - 0x30)
    } else if 0x61 <= c && c <= 0x66 {
        Some(c - 0x61 + 10)
    } else if 0x41 <= c && c <= 0x46 {
        Some(c - 0x41 + 10)
    } else {
        None
    }
}

fn digit_of(v: u8) -> (c: u8)
    requires
        v < 16,
    ensures
        c == hex_digit(v),
{
    if v < 10 {
        0x30 + v
    } else {
        0x61 + v - 10
    }
}

/// Reads hexadecimal text, in either case. There are bytes exactly when the
/// text is hexadecimal.
pub fn decode_hex(text: &[u8]) -> (bytes: Option<Vec<u8>>)
    ensures
        bytes.is_some() <==> is_hex(text@),
        bytes matches Some(b) ==> b@ == hex_decoded(text@),
{
    if text.len() % 2 != 0 {
        return None;
    }
    let mut bytes: Vec<u8> = Vec::new();
    let mut i: usize = 0;
    while i < text.len()
        invariant
            i <= text.len(),
            i % 2 == 0,
            text.len() % 2 == 0,
            bytes@.len() == i / 2,
            forall|j: int| 0 <= j < i ==> hex_value(#[trigger] text@[j]).is_some(),
            forall|j: int|
                0 <= j < i / 2 ==> #[trigger] bytes@[j] == (hex_value(text@[2 * j]).unwrap() * 16
                    + hex_value(text@[2 * j + 1]).unwrap()) as u8,
        decreases text.len() - i,
    {
        let high = match digit_value(text[i]) {
            Some(v) => v,
            None => {
                assert(hex_value(text@[i as int]).is_none());
                return None;
            },
        };
        let low = match digit_value(text[i + 1]) {
            Some(v) => v,
            None => {
                assert(hex_value(text@[i as int + 1]).is_none());
                return None;
            },
        };
        bytes.push(high * 16 + low);
        i += 2;
    }
    assert(bytes@ =~= hex_decoded(text@));
    Some(bytes)
}

/// Reads a field that travels as hexadecimal text. Text that is not
/// hexadecimal gives no bytes at all, so that what checks the field next
/// finds it malformed.
pub fn decode_field(text: &[u8]) -> (bytes: Vec<u8>)
    ensures
        bytes@ == if is_hex(text@) {
            hex_decoded(text@)
        } else {
            Seq::<u8>::empty()
        },
{
    match decode_hex(text) {
        Some(bytes) => bytes,
        None => Vec::new(),
    }
}

/// Writes bytes as lower-case hexadecimal text.
pub fn encode_hex(bytes: &[u8]) -> (text: Vec<u8>)
    ensures
        text@ == hex_encoded(bytes@),
{
    let mut text: Vec<u8> = Vec::new();
    let mut i: usize = 0;
    while i < bytes.len()
        invariant
            i <= bytes.len(),
            text@.len() == 2 * i,
            forall|j: int|
                0 <= j < 2 * i ==> #[trigger] text@[j] == if j % 2 == 0 {
                    hex_digit(bytes@[j / 2] / 16)
                } else {
                    hex_digit(bytes@[j / 2] % 16)
                },
        decreases bytes.len() - i,
    {
        let b: u8 = bytes[i];
        text.push(digit_of(b / 16));
        text.push(digit_of(b % 16));
        i += 1;
    }
    assert(text@ =~= hex_encoded(bytes@));
    text
}

/// What is written as hexadecimal text reads back as the same bytes.
pub proof fn law_hex_round_trip(bytes: Seq<u8>)
    ensures
        is_hex(hex_encoded(bytes)),
        hex_decoded(hex_encoded(bytes)) == bytes,
{
    let text = hex_encoded(bytes);
    assert forall|v: u8| v < 16 implies hex_value(hex_digit(v)) == Some(v) by {}
    assert forall|i: int| 0 <= i < text.len() implies hex_value(#[trigger] text[i]).is_some() by {
        let b = bytes[i / 2];
        assert(b / 16 < 16 && b % 16 < 16);
    }
    assert forall|i: int| 0 <= i < bytes.len() implies #[trigger] hex_decoded(text)[i] == bytes[i] by {
        let b = bytes[i];
        assert(text[2 * i] == hex_digit(b / 16));
        assert(text[2 * i + 1] == hex_digit(b % 16));
        assert(b / 16 < 16 && b % 16 < 16);
        assert((b / 16) * 16 + b % 16 == b);
    }
    assert(hex_decoded(text) =~= bytes);
}

} // verus!
