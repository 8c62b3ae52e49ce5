//! Byte sequences: big-endian numbers, comparison and search.

use vstd::prelude::*;

verus! {

/// The four bytes of a number, most significant first.
pub open spec fn be32(v: u32) -> Seq<u8> {
    seq![
        (v as int / 0x1000000) as u8,
        (v as int / 0x10000 % 256) as u8,
        (v as int / 0x100 % 256) as u8,
        (v as int % 256) as u8,
    ]
}

/// The number whose four bytes, most significant first, stand at `i`.
pub open spec fn be32_at(s: Seq<u8>, i: int) -> u32 {
    (s[i] * 0x1000000 + s[i + 1] * 0x10000 + s[i + 2] * 0x100 + s[i + 3]) as u32
}

/// The bytes of a number at any place of a sequence read back as that number.
pub proof fn be32_reads_back(s: Seq<u8>, i: int, v: u32)
    requires
        0 <= i,
        i + 4 <= s.len(),
        s.subrange(i, i + 4) == be32(v),
    ensures
        be32_at(s, i) == v,
{
    let part = s.subrange(i, i + 4);
    assert(s[i] == part[0] && s[i + 1] == part[1] && s[i + 2] == part[2] && s[i + 3] == part[3]);
}

/// A number is the sum of its four bytes, each 256 times as much as the next.
pub proof fn be32_bytes_add_up(v: u32)
    ensures
        be32(v).len() == 4,
        v == be32(v)[0] * 16777216 + be32(v)[1] * 65536 + be32(v)[2] * 256 + be32(v)[3],
{
}

/// What is read from four bytes is their sum, each 256 times as much as the next, whatever stands
/// around them.
pub proof fn read_bytes_add_up(before: Seq<u8>, a: u8, b: u8, c: u8, d: u8, behind: Seq<u8>)
    ensures
        be32_at(before + seq![a, b, c, d] + behind, before.len() as int) == a * 16777216 + b * 65536
            + c * 256 + d,
{
    let s = before + seq![a, b, c, d] + behind;
    let i = before.len() as int;
    assert(s[i] == a && s[i + 1] == b && s[i + 2] == c && s[i + 3] == d);
}

/// Reads the number at `i`.
pub fn read_be32(s: &[u8], i: usize) -> (r: u32)
    requires
        i + 4 <= s@.len(),
    ensures
        r == be32_at(s@, i as int),
{
    s[i] as u32 * 0x1000000 + s[i + 1] as u32 * 0x10000 + s[i + 2] as u32 * 0x100 + s[i + 3] as u32
}

/// Appends the bytes of a number.
pub fn push_be32(out: &mut Vec<u8>, v: u32)
    ensures
        final(out)@ == old(out)@ + be32(v),
{
    out.push((v / 0x1000000) as u8);
    out.push((v / 0x10000 % 256) as u8);
    out.push((v / 0x100 % 256) as u8);
    out.push((v % 256) as u8);
    assert(out@ =~= old(out)@ + be32(v));
}

/// Appends bytes.
pub fn append(out: &mut Vec<u8>, more: &[u8])
    ensures
        final(out)@ == old(out)@ + more@,
{
    out.extend_from_slice(more);
    assert(out@ =~= old(out)@ + more@);
}

/// A copy of the bytes from `i` up to `j`.
pub fn copy_range(s: &[u8], i: usize, j: usize) -> (r: Vec<u8>)
    requires
        i <= j <= s@.len(),
    ensures
        r@ == s@.subrange(i as int, j as int),
{
    vstd::slice::slice_to_vec(vstd::slice::slice_subrange(s, i, j))
}

/// The first 16 of some bytes.
pub fn first_16(s: &[u8]) -> (r: [u8; 16])
    requires
        16 <= s@.len(),
    ensures
        r@ == s@.take(16),
{
    let mut out: [u8; 16] = [0u8; 16];
    let mut i: usize = 0;
    while i < 16
        invariant
            i <= 16 <= s@.len(),
            forall|k: int| 0 <= k < i ==> out@[k] == s@[k],
        decreases 16 - i,
    {
        out[i] = s[i];
        i = i + 1;
    }
    assert(out@ =~= s@.take(16));
    out
}

/// Whether two byte sequences are the same.
pub fn same_bytes(a: &[u8], b: &[u8]) -> (r: bool)
    ensures
        r == (a@ == b@),
{
    if a.len() != b.len() {
        return false;
    }
    let mut i: usize = 0;
    while i < a.len()
        invariant
            i <= a@.len() == b@.len(),
            forall|k: int| 0 <= k < i ==> a@[k] == b@[k],
        decreases a@.len() - i,
    {
        if a[i] != b[i] {
            return false;
        }
        i = i + 1;
    }
    assert(a@ =~= b@);
    true
}

/// Whether `s` starts with `prefix`.
pub open spec fn begins_with(s: Seq<u8>, prefix: Seq<u8>) -> bool {
    s.len() >= prefix.len() && s.take(prefix.len() as int) == prefix
}

/// A text begins with another exactly where it is the other with something behind it.
pub proof fn beginnings_have_ends(s: Seq<u8>, prefix: Seq<u8>, rest: Seq<u8>)
    ensures
        begins_with(prefix + rest, prefix),
        begins_with(s, prefix) ==> s == prefix + s.skip(prefix.len() as int),
{
    assert((prefix + rest).take(prefix.len() as int) =~= prefix);
    if begins_with(s, prefix) {
        assert(s =~= s.take(prefix.len() as int) + s.skip(prefix.len() as int));
    }
}

/// Decides [`begins_with`].
pub fn starts_with(s: &[u8], prefix: &[u8]) -> (r: bool)
    ensures
        r == begins_with(s@, prefix@),
{
    s.len() >= prefix.len() && same_bytes(
        vstd::slice::slice_subrange(s, 0, prefix.len()),
        prefix,
    )
}

/// The place of the first element equal to `x`.
pub open spec fn first_at<T>(s: Seq<T>, x: T) -> Option<int>
    decreases s.len(),
{
    if s.len() == 0 {
        None
    } else if s[0] == x {
        Some(0)
    } else {
        match first_at(s.skip(1), x) {
            Some(i) => Some(i + 1),
            None => None,
        }
    }
}

/// What [`first_at`] gives is the place of an equal element with none before it.
pub proof fn first_at_is_first<T>(s: Seq<T>, x: T)
    ensures
        match first_at(s, x) {
            Some(i) => 0 <= i < s.len() && s[i] == x && forall|k: int| 0 <= k < i ==> s[k] != x,
            None => forall|k: int| 0 <= k < s.len() ==> s[k] != x,
        },
    decreases s.len(),
{
    if s.len() > 0 && s[0] != x {
        first_at_is_first(s.skip(1), x);
        assert forall|k: int| 0 < k < s.len() implies s[k] == s.skip(1)[k - 1] by {}
    }
}

/// The place of the first byte equal to `b`.
pub fn position(s: &[u8], b: u8) -> (r: Option<usize>)
    ensures
        match first_at(s@, b) {
            Some(i) => r == Some(i as usize) && 0 <= i < s@.len(),
            None => r is None,
        },
{
    let mut i: usize = 0;
    while i < s.len()
        invariant
            i <= s@.len(),
            forall|k: int| 0 <= k < i ==> s@[k] != b,
        decreases s@.len() - i,
    {
        if s[i] == b {
            proof {
                first_at_is_first(s@, b);
            }
            return Some(i);
        }
        i = i + 1;
    }
    proof {
        first_at_is_first(s@, b);
    }
    None
}

} // verus!
