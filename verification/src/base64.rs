//! Base64 with the standard alphabet and mandatory padding.
//!
//! Decoding is strict: the text must be a whole number of four-character
//! groups, padding may only close the last group, and the bits that a padded
//! group leaves unused must be zero.  Every byte string therefore has exactly
//! one encoding that decodes.

use vstd::prelude::*;

verus! {

/// The padding character `=`.
pub const PAD: u8 = 61;

/// The character that stands for the six-bit value `v`.
pub open spec fn digit_of(v: int) -> u8 {
    if v < 26 {
        (65 + v) as u8
    } else if v < 52 {
        (71 + v) as u8
    } else if v < 62 {
        (v - 4) as u8
    } else if v == 62 {
        43u8
    } else {
        47u8
    }
}

/// The six-bit value that the character `c` stands for, if it belongs to the
/// alphabet.
pub open spec fn value_of(c: u8) -> Option<int> {
    if 65 <= c <= 90 {
        Some(c - 65)
    } else if 97 <= c <= 122 {
        Some(c - 71)
    } else if 48 <= c <= 57 {
        Some(c + 4)
    } else if c == 43 {
        Some(62)
    } else if c == 47 {
        Some(63)
    } else {
        None
    }
}

/// The encoding of the bytes of `data` from position `i` on.
pub open spec fn encoded_from(data: Seq<u8>, i: int) -> Seq<u8>
    decreases data.len() - i,
{
    if i < 0 || i >= data.len() {
        Seq::empty()
    } else if i + 1 == data.len() {
        let a = data[i] as int;
        seq![digit_of(a / 4), digit_of((a % 4) * 16), PAD, PAD]
    } else if i + 2 == data.len() {
        let a = data[i] as int;
        let b = data[i + 1] as int;
        seq![digit_of(a / 4), digit_of((a % 4) * 16 + b / 16), digit_of((b % 16) * 4), PAD]
    } else {
        let a = data[i] as int;
        let b = data[i + 1] as int;
        let c = data[i + 2] as int;
        seq![
            digit_of(a / 4),
            digit_of((a % 4) * 16 + b / 16),
            digit_of((b % 16) * 4 + c / 64),
            digit_of(c % 64),
        ] + encoded_from(data, i + 3)
    }
}

/// The Base64 encoding of `data`.
pub open spec fn encoded(data: Seq<u8>) -> Seq<u8> {
    encoded_from(data, 0)
}

/// The three bytes that a group of four alphabet characters stands for.
pub open spec fn decoded_group(c0: u8, c1: u8, c2: u8, c3: u8) -> Option<Seq<u8>> {
    match (value_of(c0), value_of(c1), value_of(c2), value_of(c3)) {
        (Some(a), Some(b), Some(c), Some(d)) => Some(
            seq![(a * 4 + b / 16) as u8, ((b % 16) * 16 + c / 4) as u8, ((c % 4) * 64 + d) as u8],
        ),
        _ => None,
    }
}

/// The one to three bytes that the last group of a text stands for.
pub open spec fn decoded_last(c0: u8, c1: u8, c2: u8, c3: u8) -> Option<Seq<u8>> {
    if c3 != PAD {
        decoded_group(c0, c1, c2, c3)
    } else if c2 != PAD {
        match (value_of(c0), value_of(c1), value_of(c2)) {
            (Some(a), Some(b), Some(c)) => if c % 4 == 0 {
                Some(seq![(a * 4 + b / 16) as u8, ((b % 16) * 16 + c / 4) as u8])
            } else {
                None
            },
            _ => None,
        }
    } else {
        match (value_of(c0), value_of(c1)) {
            (Some(a), Some(b)) => if b % 16 == 0 {
                Some(seq![(a * 4 + b / 16) as u8])
            } else {
                None
            },
            _ => None,
        }
    }
}

/// The bytes that the characters of `text` from position `i` on stand for.
pub open spec fn decoded_from(text: Seq<u8>, i: int) -> Option<Seq<u8>>
    decreases text.len() - i,
{
    if i < 0 || i >= text.len() {
        Some(Seq::empty())
    } else if text.len() - i < 4 {
        None
    } else if text.len() - i == 4 {
        decoded_last(text[i], text[i + 1], text[i + 2], text[i + 3])
    } else {
        match decoded_group(text[i], text[i + 1], text[i + 2], text[i + 3]) {
            None => None,
            Some(head) => match decoded_from(text, i + 4) {
                None => None,
                Some(rest) => Some(head + rest),
            },
        }
    }
}

/// The bytes that `text` stands for, if it is well-formed Base64.
pub open spec fn decoded(text: Seq<u8>) -> Option<Seq<u8>> {
    decoded_from(text, 0)
}

/// The character that stands for the six-bit value `v`.
fn digit(v: u8) -> (c: u8)
    requires
        v < 64,
    ensures
        c == digit_of(v as int),
{
    if v < 26 {
        65 + v
    } else if v < 52 {
        71 + v
    } else if v < 62 {
        v - 4
    } else if v == 62 {
        43
    } else {
        47
    }
}

/// The six-bit value of the character `c`.
fn value(c: u8) -> (r: Option<u8>)
    ensures
        match r {
            Some(v) => v < 64 && value_of(c) == Some(v as int),
            None => value_of(c).is_none(),
        },
{
    if 65 <= c && c <= 90 {
        Some(c - 65)
    } else if 97 <= c && c <= 122 {
        Some(c - 71)
    } else if 48 <= c && c <= 57 {
        Some(c + 4)
    } else if c == 43 {
        Some(62)
    } else if c == 47 {
        Some(63)
    } else {
        None
    }
}

/// Encodes `data`.
pub fn encode(data: &[u8]) -> (r: Vec<u8>)
    ensures
        r@ == encoded(data@),
{
    let mut out: Vec<u8> = Vec::new();
    let mut i: usize = 0;
    while data.len() - i >= 3
        invariant
            i <= data.len(),
            encoded(data@) == out@ + encoded_from(data@, i as int),
        decreases data.len() - i,
    {
        let a: u8 = data[i];
        let b: u8 = data[i + 1];
        let c: u8 = data[i + 2];
        let ghost before = out@;
        out.push(digit(a / 4));
        out.push(digit((a % 4) * 16 + b / 16));
        out.push(digit((b % 16) * 4 + c / 64));
        out.push(digit(c % 64));
        proof {
            let group = seq![
                digit_of(a as int / 4),
                digit_of((a as int % 4) * 16 + b as int / 16),
                digit_of((b as int % 16) * 4 + c as int / 64),
                digit_of(c as int % 64),
            ];
            assert(out@ =~= before + group);
            assert(encoded_from(data@, i as int) == group + encoded_from(data@, i + 3));
            assert(before + (group + encoded_from(data@, i + 3)) =~= (before + group)
                + encoded_from(data@, i + 3));
        }
        i += 3;
    }
    let ghost before = out@;
    if data.len() - i == 1 {
        let a: u8 = data[i];
        out.push(digit(a / 4));
        out.push(digit((a % 4) * 16));
        out.push(PAD);
        out.push(PAD);
        assert(out@ =~= before + encoded_from(data@, i as int));
    } else if data.len() - i == 2 {
        let a: u8 = data[i];
        let b: u8 = data[i + 1];
        out.push(digit(a / 4));
        out.push(digit((a % 4) * 16 + b / 16));
        out.push(digit((b % 16) * 4));
        out.push(PAD);
        assert(out@ =~= before + encoded_from(data@, i as int));
    } else {
        assert(out@ =~= before + encoded_from(data@, i as int));
    }
    out
}

/// Decodes `text`, or reports that it is not well-formed.
pub fn decode(text: &[u8]) -> (r: Option<Vec<u8>>)
    ensures
        match r {
            Some(data) => decoded(text@) == Some(data@),
            None => decoded(text@).is_none(),
        },
{
    let mut out: Vec<u8> = Vec::new();
    let mut i: usize = 0;
    while text.len() - i > 4
        invariant
            i <= text.len(),
            match decoded_from(text@, i as int) {
                Some(rest) => decoded(text@) == Some(out@ + rest),
                None => decoded(text@).is_none(),
            },
        decreases text.len() - i,
    {
        let ghost before = out@;
        match (value(text[i]), value(text[i + 1]), value(text[i + 2]), value(text[i + 3])) {
            (Some(a), Some(b), Some(c), Some(d)) => {
                out.push(a * 4 + b / 16);
                out.push((b % 16) * 16 + c / 4);
                out.push((c % 4) * 64 + d);
                proof {
                    let head = decoded_group(
                        text@[i as int],
                        text@[i + 1],
                        text@[i + 2],
                        text@[i + 3],
                    ).unwrap();
                    assert(out@ =~= before + head);
                    if let Some(rest) = decoded_from(text@, i + 4) {
                        assert(before + (head + rest) =~= (before + head) + rest);
                    }
                }
            },
            _ => {
                return None;
            },
        }
        i += 4;
    }
    if text.len() - i == 0 {
        assert(out@ + Seq::<u8>::empty() =~= out@);
        return Some(out);
    }
    if text.len() - i < 4 {
        return None;
    }
    let c0: u8 = text[i];
    let c1: u8 = text[i + 1];
    let c2: u8 = text[i + 2];
    let c3: u8 = text[i + 3];
    let ghost before = out@;
    if c3 != PAD {
        match (value(c0), value(c1), value(c2), value(c3)) {
            (Some(a), Some(b), Some(c), Some(d)) => {
                out.push(a * 4 + b / 16);
                out.push((b % 16) * 16 + c / 4);
                out.push((c % 4) * 64 + d);
            },
            _ => {
                return None;
            },
        }
    } else if c2 != PAD {
        match (value(c0), value(c1), value(c2)) {
            (Some(a), Some(b), Some(c)) => {
                if c % 4 != 0 {
                    return None;
                }
                out.push(a * 4 + b / 16);
                out.push((b % 16) * 16 + c / 4);
            },
            _ => {
                return None;
            },
        }
    } else {
        match (value(c0), value(c1)) {
            (Some(a), Some(b)) => {
                if b % 16 != 0 {
                    return None;
                }
                out.push(a * 4 + b / 16);
            },
            _ => {
                return None;
            },
        }
    }
    assert(out@ =~= before + decoded_last(c0, c1, c2, c3).unwrap());
    Some(out)
}

/// Every six-bit value is the value of its own character, and no character
/// of the alphabet is the padding character.
pub proof fn lemma_value_of_digit(v: int)
    requires
        0 <= v < 64,
    ensures
        value_of(digit_of(v)) == Some(v),
        digit_of(v) != PAD,
{
}

/// Decoding a text from position `i` on is decoding the rest of the text
/// behind `i`.
proof fn lemma_decoded_from_shift(text: Seq<u8>, i: int)
    requires
        0 <= i <= text.len(),
    ensures
        decoded_from(text, i) == decoded_from(text.skip(i), 0),
    decreases text.len() - i,
{
    let rest = text.skip(i);
    if i < text.len() && text.len() - i > 4 {
        lemma_decoded_from_shift(text, i + 4);
        lemma_decoded_from_shift(rest, 4);
        assert(rest.skip(4) =~= text.skip(i + 4));
    }
}

/// The six-bit values into which three bytes are cut give the bytes back.
proof fn lemma_cut_and_join(a: int, b: int, c: int)
    requires
        0 <= a < 256,
        0 <= b < 256,
        0 <= c < 256,
    ensures
        0 <= a / 4 < 64,
        0 <= (a % 4) * 16 + b / 16 < 64,
        0 <= (b % 16) * 4 + c / 64 < 64,
        0 <= c % 64 < 64,
        (a / 4) * 4 + ((a % 4) * 16 + b / 16) / 16 == a,
        (((a % 4) * 16 + b / 16) % 16) * 16 + ((b % 16) * 4 + c / 64) / 4 == b,
        (((b % 16) * 4 + c / 64) % 4) * 64 + c % 64 == c,
{
}

/// A whole group of three bytes comes back from its four characters.
proof fn lemma_group_round_trip(x: u8, y: u8, z: u8)
    ensures
        ({
            let a = x as int;
            let b = y as int;
            let c = z as int;
            &&& decoded_group(
                digit_of(a / 4),
                digit_of((a % 4) * 16 + b / 16),
                digit_of((b % 16) * 4 + c / 64),
                digit_of(c % 64),
            ) == Some(seq![x, y, z])
            &&& digit_of(c % 64) != PAD
        }),
{
    let a = x as int;
    let b = y as int;
    let c = z as int;
    lemma_cut_and_join(a, b, c);
    lemma_value_of_digit(a / 4);
    lemma_value_of_digit((a % 4) * 16 + b / 16);
    lemma_value_of_digit((b % 16) * 4 + c / 64);
    lemma_value_of_digit(c % 64);
    let got = decoded_group(
        digit_of(a / 4),
        digit_of((a % 4) * 16 + b / 16),
        digit_of((b % 16) * 4 + c / 64),
        digit_of(c % 64),
    );
    assert(got is Some);
    assert(got->0 =~= seq![x, y, z]);
}

/// One or two last bytes come back from their padded group.
proof fn lemma_last_round_trip(x: u8, y: u8)
    ensures
        ({
            let a = x as int;
            let b = y as int;
            &&& decoded_last(digit_of(a / 4), digit_of((a % 4) * 16), PAD, PAD) == Some(seq![x])
            &&& decoded_last(
                digit_of(a / 4),
                digit_of((a % 4) * 16 + b / 16),
                digit_of((b % 16) * 4),
                PAD,
            ) == Some(seq![x, y])
        }),
{
    let a = x as int;
    let b = y as int;
    lemma_cut_and_join(a, 0, 0);
    lemma_cut_and_join(a, b, 0);
    lemma_value_of_digit(a / 4);
    lemma_value_of_digit((a % 4) * 16);
    lemma_value_of_digit((a % 4) * 16 + b / 16);
    lemma_value_of_digit((b % 16) * 4);
    let one = decoded_last(digit_of(a / 4), digit_of((a % 4) * 16), PAD, PAD);
    assert(one is Some);
    assert(one->0 =~= seq![x]);
    let two = decoded_last(
        digit_of(a / 4),
        digit_of((a % 4) * 16 + b / 16),
        digit_of((b % 16) * 4),
        PAD,
    );
    assert(two is Some);
    assert(two->0 =~= seq![x, y]);
}

/// Decoding what was encoded from position `i` on gives back the bytes from
/// `i` on.
proof fn lemma_round_trip_from(data: Seq<u8>, i: int)
    requires
        0 <= i <= data.len(),
    ensures
        decoded(encoded_from(data, i)) == Some(data.skip(i)),
    decreases data.len() - i,
{
    let text = encoded_from(data, i);
    if i == data.len() {
        assert(data.skip(i) =~= Seq::<u8>::empty());
    } else if i + 1 == data.len() {
        lemma_last_round_trip(data[i], 0);
        assert(data.skip(i) =~= seq![data[i]]);
    } else if i + 2 == data.len() {
        lemma_last_round_trip(data[i], data[i + 1]);
        assert(data.skip(i) =~= seq![data[i], data[i + 1]]);
    } else {
        lemma_group_round_trip(data[i], data[i + 1], data[i + 2]);
        let tail = encoded_from(data, i + 3);
        let head = seq![data[i], data[i + 1], data[i + 2]];
        assert(text.len() == 4 + tail.len());
        assert(text.skip(4) =~= tail);
        assert(head + data.skip(i + 3) =~= data.skip(i));
        if i + 3 == data.len() {
            assert(tail.len() == 0);
            assert(head + Seq::<u8>::empty() =~= head);
        } else {
            lemma_round_trip_from(data, i + 3);
            lemma_decoded_from_shift(text, 4);
            lemma_encoded_is_not_empty(data, i + 3);
        }
    }
}

/// The encoding of at least one byte holds at least four characters.
proof fn lemma_encoded_is_not_empty(data: Seq<u8>, i: int)
    requires
        0 <= i < data.len(),
    ensures
        encoded_from(data, i).len() >= 4,
{
}

/// Decoding undoes encoding: every byte string comes back from its
/// encoding unchanged.
pub proof fn lemma_decode_inverts_encode(data: Seq<u8>)
    ensures
        decoded(encoded(data)) == Some(data),
{
    lemma_round_trip_from(data, 0);
    assert(data.skip(0) =~= data);
}

/// Every character of the alphabet is the character of its own value.
pub proof fn lemma_digit_of_value(c: u8)
    requires
        value_of(c) is Some,
    ensures
        0 <= value_of(c)->0 < 64,
        digit_of(value_of(c)->0) == c,
        c != PAD,
{
}

/// The bytes into which four six-bit values are joined give the values
/// back.
proof fn lemma_join_and_cut(a: int, b: int, c: int, d: int)
    requires
        0 <= a < 64,
        0 <= b < 64,
        0 <= c < 64,
        0 <= d < 64,
    ensures
        0 <= a * 4 + b / 16 < 256,
        0 <= (b % 16) * 16 + c / 4 < 256,
        0 <= (c % 4) * 64 + d < 256,
        (a * 4 + b / 16) / 4 == a,
        ((a * 4 + b / 16) % 4) * 16 + ((b % 16) * 16 + c / 4) / 16 == b,
        (((b % 16) * 16 + c / 4) % 16) * 4 + ((c % 4) * 64 + d) / 64 == c,
        ((c % 4) * 64 + d) % 64 == d,
{
}

/// A whole group of four characters comes back from its three bytes.
proof fn lemma_group_unique(c0: u8, c1: u8, c2: u8, c3: u8)
    requires
        decoded_group(c0, c1, c2, c3) is Some,
    ensures
        ({
            let bytes = decoded_group(c0, c1, c2, c3)->0;
            let x = bytes[0] as int;
            let y = bytes[1] as int;
            let z = bytes[2] as int;
            &&& bytes.len() == 3
            &&& digit_of(x / 4) == c0
            &&& digit_of((x % 4) * 16 + y / 16) == c1
            &&& digit_of((y % 16) * 4 + z / 64) == c2
            &&& digit_of(z % 64) == c3
        }),
{
    lemma_digit_of_value(c0);
    lemma_digit_of_value(c1);
    lemma_digit_of_value(c2);
    lemma_digit_of_value(c3);
    lemma_join_and_cut(value_of(c0)->0, value_of(c1)->0, value_of(c2)->0, value_of(c3)->0);
}

/// A padded last group comes back from its one or two bytes.
proof fn lemma_last_unique(c0: u8, c1: u8, c2: u8, c3: u8)
    requires
        decoded_last(c0, c1, c2, c3) is Some,
        c3 == PAD,
    ensures
        ({
            let bytes = decoded_last(c0, c1, c2, c3)->0;
            let x = bytes[0] as int;
            if c2 == PAD {
                &&& bytes.len() == 1
                &&& digit_of(x / 4) == c0
                &&& digit_of((x % 4) * 16) == c1
            } else {
                let y = bytes[1] as int;
                &&& bytes.len() == 2
                &&& digit_of(x / 4) == c0
                &&& digit_of((x % 4) * 16 + y / 16) == c1
                &&& digit_of((y % 16) * 4) == c2
            }
        }),
{
    lemma_digit_of_value(c0);
    lemma_digit_of_value(c1);
    if c2 == PAD {
        lemma_join_and_cut(value_of(c0)->0, value_of(c1)->0, 0, 0);
    } else {
        lemma_digit_of_value(c2);
        lemma_join_and_cut(value_of(c0)->0, value_of(c1)->0, value_of(c2)->0, 0);
    }
}

/// Encoding from position `i` on is encoding the rest of the bytes behind
/// `i`.
proof fn lemma_encoded_from_shift(data: Seq<u8>, i: int)
    requires
        0 <= i <= data.len(),
    ensures
        encoded_from(data, i) == encoded_from(data.skip(i), 0),
    decreases data.len() - i,
{
    let rest = data.skip(i);
    if i + 2 < data.len() {
        lemma_encoded_from_shift(data, i + 3);
        lemma_encoded_from_shift(rest, 3);
        assert(rest.skip(3) =~= data.skip(i + 3));
    }
}

/// A text that decodes from position `i` on is, from `i` on, the encoding of
/// what it decodes to.
proof fn lemma_unique_from(text: Seq<u8>, i: int)
    requires
        0 <= i <= text.len(),
        decoded_from(text, i) is Some,
    ensures
        encoded(decoded_from(text, i)->0) == text.skip(i),
    decreases text.len() - i,
{
    let data = decoded_from(text, i)->0;
    if i == text.len() {
        assert(text.skip(i) =~= Seq::<u8>::empty());
    } else if text.len() - i == 4 {
        let c0 = text[i];
        let c1 = text[i + 1];
        let c2 = text[i + 2];
        let c3 = text[i + 3];
        if c3 != PAD {
            lemma_group_unique(c0, c1, c2, c3);
            assert(encoded_from(data, 3) =~= Seq::<u8>::empty());
        } else {
            lemma_last_unique(c0, c1, c2, c3);
        }
        assert(encoded(data) =~= seq![c0, c1, c2, c3]);
        assert(text.skip(i) =~= seq![c0, c1, c2, c3]);
    } else {
        let c0 = text[i];
        let c1 = text[i + 1];
        let c2 = text[i + 2];
        let c3 = text[i + 3];
        lemma_group_unique(c0, c1, c2, c3);
        lemma_unique_from(text, i + 4);
        let head = decoded_group(c0, c1, c2, c3)->0;
        let rest = decoded_from(text, i + 4)->0;
        assert(data == head + rest);
        lemma_encoded_from_shift(data, 3);
        assert(data.skip(3) =~= rest);
        assert(rest.len() > 0) by {
            if rest.len() == 0 {
                assert(encoded(rest) =~= Seq::<u8>::empty());
                assert(text.skip(i + 4).len() > 0);
            }
        }
        assert(encoded(data) =~= seq![c0, c1, c2, c3] + encoded_from(data, 3));
        assert(text.skip(i) =~= seq![c0, c1, c2, c3] + text.skip(i + 4));
    }
}

/// Encoding undoes decoding: a text that decodes is the encoding of what it
/// decodes to, so that no two texts decode to the same bytes.
pub proof fn lemma_encode_inverts_decode(text: Seq<u8>)
    requires
        decoded(text) is Some,
    ensures
        encoded(decoded(text)->0) == text,
{
    lemma_unique_from(text, 0);
    assert(text.skip(0) =~= text);
}

} // verus!
