//! Base64, and the measurement block of a clamp meter that comes in it.

use vstd::prelude::*;

verus! {

/// What stands for a byte outside the alphabet.
pub const NO_SEXTET: u32 = 255;

/// The value of a byte in the base64 alphabet.
pub open spec fn sextet(b: u8) -> u32 {
    if 0x41 <= b <= 0x5a {
        (b - 0x41) as u32
    } else if 0x61 <= b <= 0x7a {
        (b - 0x61 + 26) as u32
    } else if 0x30 <= b <= 0x39 {
        (b - 0x30 + 52) as u32
    } else if b == 0x2b {
        62
    } else if b == 0x2f {
        63
    } else {
        NO_SEXTET
    }
}

/// Four values put together, six bits apart.
pub open spec fn joined(a: u32, b: u32, c: u32, d: u32) -> u32 {
    (a << 18) | (b << 12) | (c << 6) | d
}

/// The high, middle and low byte of the last three bytes of a number.
pub open spec fn low_three(n: u32) -> Seq<u8> {
    seq![(n >> 16) as u8, (n >> 8) as u8, n as u8]
}

/// The bytes that base64 text without its padding stands for. A byte outside ASCII among those
/// that are read makes the text unreadable; one outside the alphabet counts as [`NO_SEXTET`].
/// A single character behind the groups of four is ignored.
pub open spec fn decoded(s: Seq<u8>) -> Option<Seq<u8>>
    decreases s.len(),
{
    if s.len() >= 4 {
        if s[0] < 128 && s[1] < 128 && s[2] < 128 && s[3] < 128 {
            match decoded(s.skip(4)) {
                Some(rest) => Some(
                    low_three(joined(sextet(s[0]), sextet(s[1]), sextet(s[2]), sextet(s[3])))
                        + rest,
                ),
                None => None,
            }
        } else {
            None
        }
    } else if s.len() == 3 {
        if s[0] < 128 && s[1] < 128 && s[2] < 128 {
            Some(low_three(joined(sextet(s[0]), sextet(s[1]), sextet(s[2]), 0)).take(2))
        } else {
            None
        }
    } else if s.len() == 2 {
        if s[0] < 128 && s[1] < 128 {
            Some(low_three(joined(sextet(s[0]), sextet(s[1]), 0, 0)).take(1))
        } else {
            None
        }
    } else {
        Some(Seq::empty())
    }
}

/// Text without the equals signs at its end.
pub open spec fn unpadded(s: Seq<u8>) -> Seq<u8>
    decreases s.len(),
{
    if s.len() > 0 && s.last() == 0x3d {
        unpadded(s.drop_last())
    } else {
        s
    }
}

/// The value of a byte in the alphabet.
fn sextet_of(b: u8) -> (r: Option<u32>)
    ensures
        r == (if b < 128 {
            Some(sextet(b))
        } else {
            None
        }),
{
    if b >= 128 {
        None
    } else if 0x41 <= b && b <= 0x5a {
        Some((b - 0x41) as u32)
    } else if 0x61 <= b && b <= 0x7a {
        Some((b - 0x61 + 26) as u32)
    } else if 0x30 <= b && b <= 0x39 {
        Some((b - 0x30 + 52) as u32)
    } else if b == 0x2b {
        Some(62)
    } else if b == 0x2f {
        Some(63)
    } else {
        Some(NO_SEXTET)
    }
}

/// Appends the first `count` of the last three bytes of `n`.
fn push_three(out: &mut Vec<u8>, n: u32, count: usize)
    requires
        1 <= count <= 3,
    ensures
        final(out)@ == old(out)@ + low_three(n).take(count as int),
{
    out.push(#[verifier::truncate] ((n >> 16) as u8));
    if count > 1 {
        out.push(#[verifier::truncate] ((n >> 8) as u8));
    }
    if count > 2 {
        out.push(#[verifier::truncate] (n as u8));
    }
    assert(out@ =~= old(out)@ + low_three(n).take(count as int));
}

/// Decodes base64 text.
pub fn b64_decode(s: &str) -> (r: Option<Vec<u8>>)
    ensures
        crate::crypto::bytes_view(r) == decoded(unpadded(vstd::utf8::encode_utf8(s@))),
{
    let all = s.as_bytes();
    let mut len: usize = all.len();
    assert(all@.take(len as int) =~= all@);
    while len > 0 && all[len - 1] == 0x3d
        invariant
            len <= all@.len(),
            unpadded(all@) == unpadded(all@.take(len as int)),
        decreases len,
    {
        assert(all@.take(len as int).drop_last() =~= all@.take(len - 1));
        len = len - 1;
    }
    let bytes = vstd::slice::slice_subrange(all, 0, len);
    assert(bytes@ =~= unpadded(all@));
    let mut out: Vec<u8> = Vec::new();
    let mut i: usize = 0;
    assert(bytes@.skip(0) =~= bytes@);
    while bytes.len() - i >= 4
        invariant
            i <= bytes@.len(),
            bytes@ == unpadded(vstd::utf8::encode_utf8(s@)),
            decoded(bytes@) == (match decoded(bytes@.skip(i as int)) {
                Some(rest) => Some(out@ + rest),
                None => None,
            }),
        decreases bytes@.len() - i,
    {
        let ghost tail = bytes@.skip(i as int);
        let a: u32 = match sextet_of(bytes[i]) {
            Some(v) => v,
            None => {
                return None;
            },
        };
        let b: u32 = match sextet_of(bytes[i + 1]) {
            Some(v) => v,
            None => {
                return None;
            },
        };
        let c: u32 = match sextet_of(bytes[i + 2]) {
            Some(v) => v,
            None => {
                return None;
            },
        };
        let d: u32 = match sextet_of(bytes[i + 3]) {
            Some(v) => v,
            None => {
                return None;
            },
        };
        let ghost before = out@;
        push_three(&mut out, (a << 18) | (b << 12) | (c << 6) | d, 3);
        assert(low_three(joined(a, b, c, d)).take(3) =~= low_three(joined(a, b, c, d)));
        assert(tail.skip(4) =~= bytes@.skip(i + 4));
        proof {
            if let Some(rest) = decoded(tail.skip(4)) {
                assert(before + (low_three(joined(a, b, c, d)) + rest) =~= out@ + rest);
            }
        }
        i = i + 4;
    }
    let ghost tail = bytes@.skip(i as int);
    let left: usize = bytes.len() - i;
    if left >= 2 {
        let a: u32 = match sextet_of(bytes[i]) {
            Some(v) => v,
            None => {
                return None;
            },
        };
        let b: u32 = match sextet_of(bytes[i + 1]) {
            Some(v) => v,
            None => {
                return None;
            },
        };
        if left == 3 {
            let c: u32 = match sextet_of(bytes[i + 2]) {
                Some(v) => v,
                None => {
                    return None;
                },
            };
            assert((a << 18) | (b << 12) | (c << 6) == (a << 18) | (b << 12) | (c << 6) | 0u32)
                by (bit_vector);
            push_three(&mut out, (a << 18) | (b << 12) | (c << 6), 2);
        } else {
            assert((a << 18) | (b << 12) == (a << 18) | (b << 12) | (0u32 << 6) | 0u32)
                by (bit_vector);
            push_three(&mut out, (a << 18) | (b << 12), 1);
        }
    } else {
        assert(out@ + Seq::<u8>::empty() =~= out@);
    }
    Some(out)
}

// ── Encoding, the other direction ──

/// The byte of the alphabet with the given value.
pub open spec fn alphabet(v: u32) -> u8 {
    if v < 26 {
        (v + 0x41) as u8
    } else if v < 52 {
        (v - 26 + 0x61) as u8
    } else if v < 62 {
        (v - 52 + 0x30) as u8
    } else if v == 62 {
        0x2b
    } else {
        0x2f
    }
}

/// The base64 text of some bytes, without padding.
pub open spec fn encoded(s: Seq<u8>) -> Seq<u8>
    decreases s.len(),
{
    if s.len() == 0 {
        Seq::empty()
    } else {
        let x = s[0] as u32;
        let y = if s.len() > 1 {
            s[1] as u32
        } else {
            0
        };
        let z = if s.len() > 2 {
            s[2] as u32
        } else {
            0
        };
        let group = seq![
            alphabet(x >> 2),
            alphabet(((x & 3) << 4) | (y >> 4)),
            alphabet(((y & 15) << 2) | (z >> 6)),
            alphabet(z & 63),
        ];
        if s.len() == 1 {
            group.take(2)
        } else if s.len() == 2 {
            group.take(3)
        } else {
            group + encoded(s.skip(3))
        }
    }
}

/// The alphabet: capital letters, small letters, digits, plus and slash.
pub proof fn alphabet_is_spelled(v: u32)
    requires
        v < 64,
    ensures
        alphabet(v)
            == "ABCDEFGHIJKLMNOPQRSTUVWXYZabcdefghijklmnopqrstuvwxyz0123456789+/"@[v as int] as u8,
        sextet(alphabet(v)) == v,
{
    reveal_strlit("ABCDEFGHIJKLMNOPQRSTUVWXYZabcdefghijklmnopqrstuvwxyz0123456789+/");
}

/// A byte outside the alphabet counts as 255; any other has its place in the alphabet.
pub proof fn other_bytes_are_no_sextets(b: u8)
    ensures
        sextet(b) == 255 || (sextet(b) < 64 && alphabet(sextet(b)) == b),
{
}

/// Three bytes, taken as one number, have four digits to the base of 64; two bytes have three,
/// with two bits to spare, and one byte has two, with four bits to spare.
pub proof fn groups_are_numbers_to_the_base_of_64(x: u8, y: u8, z: u8, rest: Seq<u8>)
    ensures
        exists|a: u32, b: u32, c: u32, d: u32|
            a < 64 && b < 64 && c < 64 && d < 64 && a * 262144 + b * 4096 + c * 64 + d == x * 65536
                + y * 256 + z && #[trigger] four(a, b, c, d) + encoded(rest) == encoded(
                seq![x, y, z] + rest,
            ),
        exists|a: u32, b: u32, c: u32|
            a < 64 && b < 64 && c < 64 && a * 4096 + b * 64 + c == (x * 256 + y) * 4
                && #[trigger] four(a, b, c, 0).take(3) == encoded(seq![x, y]),
        exists|a: u32, b: u32|
            a < 64 && b < 64 && a * 64 + b == x * 16 && #[trigger] four(a, b, 0, 0).take(2)
                == encoded(seq![x]),
{
    let (p, q, r) = (x as u32, y as u32, z as u32);
    let (a, b, c, d) = (p >> 2, ((p & 3) << 4) | (q >> 4), ((q & 15) << 2) | (r >> 6), r & 63);
    assert(p < 256 && q < 256 && r < 256 && a == p >> 2 && b == ((p & 3) << 4) | (q >> 4) && c == ((q
        & 15) << 2) | (r >> 6) && d == r & 63 ==> a < 64 && b < 64 && c < 64 && d < 64 && a * 262144
        + b * 4096 + c * 64 + d == p * 65536 + q * 256 + r) by (bit_vector);
    let whole = seq![x, y, z] + rest;
    assert(whole.skip(3) =~= rest);
    assert(four(a, b, c, d) + encoded(rest) =~= encoded(whole));
    let c2 = ((q & 15) << 2) | (0u32 >> 6);
    assert(p < 256 && q < 256 && a == p >> 2 && b == ((p & 3) << 4) | (q >> 4) && c2 == ((q & 15)
        << 2) | (0u32 >> 6) ==> c2 < 64 && a * 4096 + b * 64 + c2 == (p * 256 + q) * 4)
        by (bit_vector);
    assert(four(a, b, c2, 0).take(3) =~= encoded(seq![x, y]));
    let b1 = ((p & 3) << 4) | (0u32 >> 4);
    assert(p < 256 && a == p >> 2 && b1 == ((p & 3) << 4) | (0u32 >> 4) ==> b1 < 64 && a * 64 + b1
        == p * 16) by (bit_vector);
    assert(four(a, b1, 0, 0).take(2) =~= encoded(seq![x]));
}

/// Four characters of the alphabet.
pub open spec fn four(a: u32, b: u32, c: u32, d: u32) -> Seq<u8> {
    seq![alphabet(a), alphabet(b), alphabet(c), alphabet(d)]
}

/// The three bytes of a group take their bits from its four values, each of which starts six bits
/// behind the one before it; the bits of a value that does not fit into six run into its
/// neighbours.
pub proof fn groups_give_their_bits(a: u32, b: u32, c: u32, d: u32)
    requires
        a < 256,
        b < 256,
        c < 256,
        d < 256,
    ensures
        low_three(joined(a, b, c, d)) == seq![
            ((a << 2) | (b >> 4)) as u8,
            ((b << 4) | (c >> 2)) as u8,
            ((c << 6) | d) as u8,
        ],
{
    let n = joined(a, b, c, d);
    assert(a < 256 && b < 256 && c < 256 && d < 256 && n == (a << 18) | (b << 12) | (c << 6) | d
        ==> (n >> 16) as u8 == ((a << 2) | (b >> 4)) as u8 && (n >> 8) as u8 == ((b << 4) | (c
        >> 2)) as u8 && n as u8 == ((c << 6) | d) as u8) by (bit_vector);
    assert(low_three(n) =~= seq![
        ((a << 2) | (b >> 4)) as u8,
        ((b << 4) | (c >> 2)) as u8,
        ((c << 6) | d) as u8,
    ]);
}

/// Text is readable exactly where the bytes that count are ASCII; a single byte behind the groups
/// of four does not count. Four bytes stand for three, three for two, and two for one.
pub proof fn ascii_is_decoded(s: Seq<u8>)
    ensures
        decoded(s) is Some <==> forall|i: int|
            0 <= i < s.len() - (if s.len() % 4 == 1 {
                1int
            } else {
                0
            }) ==> #[trigger] s[i] < 128,
        decoded(s) matches Some(out) ==> out.len() == s.len() / 4 * 3 + (if s.len() % 4 >= 2 {
            s.len() % 4 - 1
        } else {
            0
        }),
    decreases s.len(),
{
    if s.len() >= 4 {
        let rest = s.skip(4);
        ascii_is_decoded(rest);
        let k = if s.len() % 4 == 1 {
            1int
        } else {
            0
        };
        if decoded(s) is Some {
            assert forall|i: int| 0 <= i < s.len() - k implies #[trigger] s[i] < 128 by {
                if i >= 4 {
                    assert(rest[i - 4] < 128);
                }
            }
        }
        if forall|i: int| 0 <= i < s.len() - k ==> #[trigger] s[i] < 128 {
            assert forall|i: int| 0 <= i < rest.len() - k implies #[trigger] rest[i] < 128 by {
                assert(s[i + 4] < 128);
            }
            assert(s[0] < 128 && s[1] < 128 && s[2] < 128 && s[3] < 128);
        }
    } else if s.len() == 3 {
        if forall|i: int| 0 <= i < 3 ==> #[trigger] s[i] < 128 {
            assert(s[0] < 128 && s[1] < 128 && s[2] < 128);
        }
    } else if s.len() == 2 {
        if forall|i: int| 0 <= i < 2 ==> #[trigger] s[i] < 128 {
            assert(s[0] < 128 && s[1] < 128);
        }
    }
}

/// Text is decoded group by group; what is left behind the groups of four is decoded as if it were
/// filled up with zero bits, of which no whole byte counts, and a single character is ignored.
pub proof fn texts_are_decoded_group_by_group(a: u8, b: u8, c: u8, d: u8, rest: Seq<u8>)
    requires
        a < 128,
        b < 128,
        c < 128,
        d < 128,
    ensures
        decoded(seq![a, b, c, d] + rest) == (match decoded(rest) {
            Some(out) => Some(low_three(joined(sextet(a), sextet(b), sextet(c), sextet(d))) + out),
            None => None,
        }),
        decoded(seq![a, b, c]) == Some(
            low_three(joined(sextet(a), sextet(b), sextet(c), 0)).take(2),
        ),
        decoded(seq![a, b]) == Some(low_three(joined(sextet(a), sextet(b), 0, 0)).take(1)),
        decoded(seq![a]) == Some(Seq::<u8>::empty()),
        decoded(Seq::empty()) == Some(Seq::<u8>::empty()),
{
    let whole = seq![a, b, c, d] + rest;
    assert(whole[0] == a && whole[1] == b && whole[2] == c && whole[3] == d);
    assert(whole.skip(4) =~= rest);
}

/// Equals signs at the end do not count, and nothing else comes off.
pub proof fn only_equals_signs_come_off(s: Seq<u8>)
    ensures
        unpadded(s.push(0x3d)) == unpadded(s),
        s.len() == 0 || s.last() != 0x3d ==> unpadded(s) == s,
{
    assert(s.push(0x3d).drop_last() =~= s);
}

/// The values of the alphabet come back.
proof fn alphabet_reads_back(v: u32)
    requires
        v < 64,
    ensures
        alphabet(v) < 128,
        alphabet(v) != 0x3d,
        sextet(alphabet(v)) == v,
{
}

proof fn group_reads_back(x: u8, y: u8, z: u8)
    ensures
        ({
            let (a, b, c) = (x as u32, y as u32, z as u32);
            let s0 = a >> 2;
            let s1 = ((a & 3) << 4) | (b >> 4);
            let s2 = ((b & 15) << 2) | (c >> 6);
            let s3 = c & 63;
            &&& s0 < 64 && s1 < 64 && s2 < 64 && s3 < 64
            &&& low_three(joined(s0, s1, s2, s3)) == seq![x, y, z]
            &&& c == 0 ==> low_three(joined(s0, s1, s2, 0)) == seq![x, y, 0u8]
            &&& b == 0 && c == 0 ==> low_three(joined(s0, s1, 0, 0)) == seq![x, 0u8, 0u8]
        }),
{
    let (a, b, c) = (x as u32, y as u32, z as u32);
    let s0 = a >> 2;
    let s1 = ((a & 3) << 4) | (b >> 4);
    let s2 = ((b & 15) << 2) | (c >> 6);
    let s3 = c & 63;
    assert(a < 256 && b < 256 && c < 256 ==> (a >> 2) < 64 && (((a & 3) << 4) | (b >> 4)) < 64 && (((
    b & 15) << 2) | (c >> 6)) < 64 && (c & 63) < 64) by (bit_vector);
    let n = joined(s0, s1, s2, s3);
    assert(a < 256 && b < 256 && c < 256 && n == ((a >> 2) << 18) | ((((a & 3) << 4) | (b >> 4))
        << 12) | ((((b & 15) << 2) | (c >> 6)) << 6) | (c & 63) ==> (n >> 16) as u8 == a as u8 && (n
        >> 8) as u8 == b as u8 && n as u8 == c as u8) by (bit_vector);
    assert(x as u32 as u8 == x) by (bit_vector);
    assert(y as u32 as u8 == y) by (bit_vector);
    assert(z as u32 as u8 == z) by (bit_vector);
    assert(low_three(n) =~= seq![x, y, z]);
    if c == 0 {
        assert(0u32 & 63 == 0) by (bit_vector);
        if b == 0 {
            assert(((0u32 & 15) << 2) | (0u32 >> 6) == 0) by (bit_vector);
        }
    }
}

/// Decoding gives back what was encoded, and padding behind it changes nothing.
pub proof fn decoding_undoes_encoding(s: Seq<u8>, padding: nat)
    ensures
        decoded(unpadded(encoded(s) + Seq::new(padding, |i: int| 0x3du8))) == Some(s),
{
    padding_comes_off(s, padding);
    encoded_reads_back(s);
}

proof fn encoded_reads_back(s: Seq<u8>)
    ensures
        decoded(encoded(s)) == Some(s),
    decreases s.len(),
{
    if s.len() == 0 {
    } else {
        let x = s[0];
        let y = if s.len() > 1 {
            s[1]
        } else {
            0
        };
        let z = if s.len() > 2 {
            s[2]
        } else {
            0
        };
        group_reads_back(x, y, z);
        let (a, b, c) = (x as u32, y as u32, z as u32);
        alphabet_reads_back(a >> 2);
        alphabet_reads_back(((a & 3) << 4) | (b >> 4));
        alphabet_reads_back(((b & 15) << 2) | (c >> 6));
        alphabet_reads_back(c & 63);
        if s.len() == 1 {
            assert(seq![x, 0u8, 0u8].take(1) =~= s);
        } else if s.len() == 2 {
            assert(seq![x, y, 0u8].take(2) =~= s);
        } else {
            encoded_reads_back(s.skip(3));
            assert(encoded(s).skip(4) =~= encoded(s.skip(3)));
            assert(seq![x, y, z] + s.skip(3) =~= s);
        }
    }
}

proof fn no_padding_inside(s: Seq<u8>)
    ensures
        forall|i: int| 0 <= i < encoded(s).len() ==> #[trigger] encoded(s)[i] != 0x3d,
    decreases s.len(),
{
    if s.len() >= 3 {
        no_padding_inside(s.skip(3));
        let e = encoded(s);
        assert forall|i: int| 0 <= i < e.len() implies #[trigger] e[i] != 0x3d by {
            if i >= 4 {
                assert(e[i] == encoded(s.skip(3))[i - 4]);
            }
        }
    }
}

proof fn padding_comes_off(s: Seq<u8>, padding: nat)
    ensures
        unpadded(encoded(s) + Seq::new(padding, |i: int| 0x3du8)) == encoded(s),
    decreases padding,
{
    let text = encoded(s) + Seq::new(padding, |i: int| 0x3du8);
    if padding == 0 {
        no_padding_inside(s);
        assert(text =~= encoded(s));
    } else {
        padding_comes_off(s, (padding - 1) as nat);
        assert(text.drop_last() =~= encoded(s) + Seq::new((padding - 1) as nat, |i: int| 0x3du8));
    }
}

// ── The measurement block of a clamp meter ──

/// What a clamp meter measures on its phase, in tenths of a volt, milliamperes and watts.
#[derive(Clone, Copy, Debug, PartialEq, Eq, Structural)]
pub struct PhaseA {
    pub decivolts: u16,
    pub milliamps: u32,
    pub watts: u32,
}

/// The measurement block in the first eight of some bytes: two bytes of voltage, three of
/// current, three of power.
pub open spec fn phase_a(raw: Seq<u8>) -> Option<PhaseA> {
    if raw.len() < 8 {
        None
    } else {
        Some(
            PhaseA {
                decivolts: (raw[0] * 0x100 + raw[1]) as u16,
                milliamps: (raw[2] * 0x10000 + raw[3] * 0x100 + raw[4]) as u32,
                watts: (raw[5] * 0x10000 + raw[6] * 0x100 + raw[7]) as u32,
            },
        )
    }
}

/// The measurement block that base64 text stands for.
pub open spec fn phase_a_in(text: Seq<char>) -> Option<PhaseA> {
    match decoded(unpadded(vstd::utf8::encode_utf8(text))) {
        Some(raw) => phase_a(raw),
        None => None,
    }
}

/// A measurement block is eight bytes, and more may follow: the voltage is the number of the first
/// two, the current that of the next three, the power that of the last three, each with its most
/// significant byte first.
pub proof fn blocks_are_three_numbers(raw: Seq<u8>, more: Seq<u8>)
    requires
        raw.len() == 8,
    ensures
        phase_a(raw + more) matches Some(p) && p.decivolts == raw[0] * 256 + raw[1] && p.milliamps
            == (raw[2] * 256 + raw[3]) * 256 + raw[4] && p.watts == (raw[5] * 256 + raw[6]) * 256
            + raw[7],
        phase_a(raw.drop_last()) is None,
{
    let s = raw + more;
    assert(s[0] == raw[0] && s[1] == raw[1] && s[2] == raw[2] && s[3] == raw[3] && s[4] == raw[4]
        && s[5] == raw[5] && s[6] == raw[6] && s[7] == raw[7]);
}

/// Reads the measurement block out of base64 text.
pub fn decode_phase_a(b64: &str) -> (r: Option<PhaseA>)
    ensures
        r == phase_a_in(b64@),
{
    let raw = match b64_decode(b64) {
        Some(raw) => raw,
        None => {
            return None;
        },
    };
    if raw.len() < 8 {
        return None;
    }
    Some(
        PhaseA {
            decivolts: raw[0] as u16 * 0x100 + raw[1] as u16,
            milliamps: raw[2] as u32 * 0x10000 + raw[3] as u32 * 0x100 + raw[4] as u32,
            watts: raw[5] as u32 * 0x10000 + raw[6] as u32 * 0x100 + raw[7] as u32,
        },
    )
}

/// The eight bytes of a measurement block.
pub open spec fn phase_a_bytes(p: PhaseA) -> Seq<u8> {
    seq![
        (p.decivolts as int / 0x100) as u8,
        (p.decivolts as int % 0x100) as u8,
        (p.milliamps as int / 0x10000) as u8,
        (p.milliamps as int / 0x100 % 0x100) as u8,
        (p.milliamps as int % 0x100) as u8,
        (p.watts as int / 0x10000) as u8,
        (p.watts as int / 0x100 % 0x100) as u8,
        (p.watts as int % 0x100) as u8,
    ]
}

/// A text that holds the base64 form of a measurement block, padded or not, reads back as that
/// block, whatever the three values are that the block has room for.
pub proof fn phase_a_reads_back(text: Seq<char>, p: PhaseA, padding: nat)
    requires
        p.milliamps < 0x1000000,
        p.watts < 0x1000000,
        vstd::utf8::encode_utf8(text) == encoded(phase_a_bytes(p)) + Seq::new(
            padding,
            |i: int| 0x3du8,
        ),
    ensures
        phase_a_in(text) == Some(p),
{
    decoding_undoes_encoding(phase_a_bytes(p), padding);
}

} // verus!
