//! Big-endian integers, byte-wise order and NUL-freedom of UTF-8, over `Seq<u8>`.

use vstd::prelude::*;
use vstd::utf8::*;

verus! {

/// The four big-endian bytes of `v`.
pub open spec fn be32(v: u32) -> Seq<u8> {
    seq![
        (v / 16777216) as u8,
        ((v / 65536) % 256) as u8,
        ((v / 256) % 256) as u8,
        (v % 256) as u8,
    ]
}

/// The two big-endian bytes of `v`.
pub open spec fn be16(v: u16) -> Seq<u8> {
    seq![(v / 256) as u8, (v % 256) as u8]
}

/// The big-endian `u32` stored at `s[i..i + 4]`.
pub open spec fn be32_at(s: Seq<u8>, i: int) -> int {
    s[i] * 16777216 + s[i + 1] * 65536 + s[i + 2] * 256 + s[i + 3]
}

/// The big-endian `u16` stored at `s[i..i + 2]`.
pub open spec fn be16_at(s: Seq<u8>, i: int) -> int {
    s[i] * 256 + s[i + 1]
}

/// Reading back the bytes of `be32(v)` gives `v`.
pub proof fn lemma_be32_roundtrip(v: u32)
    ensures
        be32_at(be32(v), 0) == v,
        be32(v).len() == 4,
{
    let s = be32(v);
    assert(s[0] == v / 16777216);
    assert(s[1] == (v / 65536) % 256);
    assert(s[2] == (v / 256) % 256);
    assert(s[3] == v % 256);
    assert((v / 16777216) * 16777216 + ((v / 65536) % 256) * 65536 + ((v / 256) % 256) * 256 + v
        % 256 == v) by (nonlinear_arith);
}

/// Reading back the bytes of `be16(v)` gives `v`.
pub proof fn lemma_be16_roundtrip(v: u16)
    ensures
        be16_at(be16(v), 0) == v,
        be16(v).len() == 2,
{
    assert((v / 256) * 256 + v % 256 == v) by (nonlinear_arith);
}

/// A big-endian `u32` read from anywhere is below 2^32.
pub proof fn lemma_be32_at_bound(s: Seq<u8>, i: int)
    requires
        0 <= i,
        i + 4 <= s.len(),
    ensures
        0 <= be32_at(s, i) < 0x1_0000_0000,
{
}

/// Appends the big-endian bytes of `v`.
pub fn push_be32(out: &mut Vec<u8>, v: u32)
    ensures
        final(out)@ == old(out)@ + be32(v),
{
    out.push((v / 16777216) as u8);
    out.push(((v / 65536) % 256) as u8);
    out.push(((v / 256) % 256) as u8);
    out.push((v % 256) as u8);
    assert(final(out)@ =~= old(out)@ + be32(v));
}

/// Appends the big-endian bytes of `v`.
pub fn push_be16(out: &mut Vec<u8>, v: u16)
    ensures
        final(out)@ == old(out)@ + be16(v),
{
    out.push((v / 256) as u8);
    out.push((v % 256) as u8);
    assert(final(out)@ =~= old(out)@ + be16(v));
}

/// Reads the big-endian `u32` at `buf[i..i + 4]`.
pub fn read_be32(buf: &[u8], i: usize) -> (r: u32)
    requires
        i + 4 <= buf@.len(),
    ensures
        r == be32_at(buf@, i as int),
{
    (buf[i] as u32) * 16777216 + (buf[i + 1] as u32) * 65536 + (buf[i + 2] as u32) * 256 + (buf[i
        + 3] as u32)
}

/// Reads the big-endian `u16` at `buf[i..i + 2]`.
pub fn read_be16(buf: &[u8], i: usize) -> (r: u16)
    requires
        i + 2 <= buf@.len(),
    ensures
        r == be16_at(buf@, i as int),
{
    (buf[i] as u16) * 256 + (buf[i + 1] as u16)
}

/// Appends all of `src`.
pub fn push_all(out: &mut Vec<u8>, src: &[u8])
    ensures
        final(out)@ == old(out)@ + src@,
{
    let ghost start = out@;
    let mut i: usize = 0;
    while i < src.len()
        invariant
            i <= src@.len(),
            out@ == start + src@.take(i as int),
        decreases src.len() - i,
    {
        out.push(src[i]);
        i = i + 1;
        assert(out@ =~= start + src@.take(i as int));
    }
    assert(src@.take(i as int) =~= src@);
}

/// A copy of `src[lo..hi]`.
pub fn copy_range(src: &[u8], lo: usize, hi: usize) -> (out: Vec<u8>)
    requires
        lo <= hi <= src@.len(),
    ensures
        out@ == src@.subrange(lo as int, hi as int),
{
    let mut out: Vec<u8> = Vec::new();
    let mut i: usize = lo;
    while i < hi
        invariant
            lo <= i <= hi,
            hi <= src@.len(),
            out@ == src@.subrange(lo as int, i as int),
        decreases hi - i,
    {
        out.push(src[i]);
        i = i + 1;
        assert(out@ =~= src@.subrange(lo as int, i as int));
    }
    out
}

/// Strict lexicographic order on byte strings (a proper prefix comes first).
pub open spec fn bytes_lt(a: Seq<u8>, b: Seq<u8>) -> bool
    decreases a.len(),
{
    if b.len() == 0 {
        false
    } else if a.len() == 0 {
        true
    } else if a[0] != b[0] {
        a[0] < b[0]
    } else {
        bytes_lt(a.drop_first(), b.drop_first())
    }
}

/// `bytes_lt` is irreflexive.
pub proof fn lemma_bytes_lt_irreflexive(a: Seq<u8>)
    ensures
        !bytes_lt(a, a),
    decreases a.len(),
{
    if a.len() > 0 {
        lemma_bytes_lt_irreflexive(a.drop_first());
    }
}

/// `bytes_lt` is transitive.
pub proof fn lemma_bytes_lt_transitive(a: Seq<u8>, b: Seq<u8>, c: Seq<u8>)
    requires
        bytes_lt(a, b),
        bytes_lt(b, c),
    ensures
        bytes_lt(a, c),
    decreases a.len(),
{
    if a.len() > 0 && b.len() > 0 && c.len() > 0 && a[0] == b[0] && b[0] == c[0] {
        lemma_bytes_lt_transitive(a.drop_first(), b.drop_first(), c.drop_first());
    }
}

/// Two different byte strings are ordered one way or the other.
pub proof fn lemma_bytes_lt_total(a: Seq<u8>, b: Seq<u8>)
    requires
        a != b,
    ensures
        bytes_lt(a, b) || bytes_lt(b, a),
    decreases a.len(),
{
    if a.len() == 0 || b.len() == 0 {
        if a.len() == 0 && b.len() == 0 {
            assert(a =~= b);
        }
    } else if a[0] == b[0] {
        if a.drop_first() == b.drop_first() {
            assert(a =~= seq![a[0]] + a.drop_first());
            assert(b =~= seq![b[0]] + b.drop_first());
        }
        lemma_bytes_lt_total(a.drop_first(), b.drop_first());
    }
}

/// `bytes_lt` is asymmetric.
pub proof fn lemma_bytes_lt_asymmetric(a: Seq<u8>, b: Seq<u8>)
    requires
        bytes_lt(a, b),
    ensures
        !bytes_lt(b, a),
{
    if bytes_lt(b, a) {
        lemma_bytes_lt_transitive(a, b, a);
        lemma_bytes_lt_irreflexive(a);
    }
}

/// Compares two byte slices in `bytes_lt` order.
pub fn slice_lt(a: &[u8], b: &[u8]) -> (r: bool)
    ensures
        r == bytes_lt(a@, b@),
{
    let mut i: usize = 0;
    assert(a@.skip(0) =~= a@);
    assert(b@.skip(0) =~= b@);
    while i < a.len() && i < b.len() && a[i] == b[i]
        invariant
            i <= a@.len(),
            i <= b@.len(),
            a@.take(i as int) == b@.take(i as int),
            bytes_lt(a@, b@) == bytes_lt(a@.skip(i as int), b@.skip(i as int)),
        decreases a.len() - i,
    {
        assert(a@.skip(i as int).drop_first() =~= a@.skip(i + 1));
        assert(b@.skip(i as int).drop_first() =~= b@.skip(i + 1));
        i = i + 1;
        assert(a@.take(i as int) =~= a@.take(i - 1).push(a@[i - 1]));
        assert(b@.take(i as int) =~= b@.take(i - 1).push(b@[i - 1]));
    }
    if i == b.len() {
        false
    } else if i == a.len() {
        true
    } else {
        a[i] < b[i]
    }
}

/// Compares two byte slices for equality.
pub fn slice_eq(a: &[u8], b: &[u8]) -> (r: bool)
    ensures
        r == (a@ == b@),
{
    if a.len() != b.len() {
        return false;
    }
    let mut i: usize = 0;
    while i < a.len()
        invariant
            i <= a@.len(),
            a@.len() == b@.len(),
            a@.take(i as int) == b@.take(i as int),
        decreases a.len() - i,
    {
        if a[i] != b[i] {
            return false;
        }
        i = i + 1;
        assert(a@.take(i as int) =~= a@.take(i - 1).push(a@[i - 1]));
        assert(b@.take(i as int) =~= b@.take(i - 1).push(b@[i - 1]));
    }
    assert(a@.take(i as int) =~= a@);
    assert(b@.take(i as int) =~= b@);
    true
}

/// No byte of the UTF-8 encoding of a scalar other than NUL is zero.
pub proof fn lemma_encode_scalar_nonzero(c: u32)
    requires
        is_scalar(c),
        c != 0,
    ensures
        !encode_scalar(c).contains(0u8),
{
    assert(has_width_1_encoding(c) ==> leading_byte_width_1(c) != 0) by (bit_vector)
        requires
            c != 0,
    ;
    assert(leading_byte_width_2(c) != 0) by (bit_vector);
    assert(leading_byte_width_3(c) != 0) by (bit_vector);
    assert(leading_byte_width_4(c) != 0) by (bit_vector);
    assert(last_continuation_byte(c) != 0) by (bit_vector);
    assert(second_last_continuation_byte(c) != 0) by (bit_vector);
    assert(third_last_continuation_byte(c) != 0) by (bit_vector);
    let e = encode_scalar(c);
    assert forall|i: int| 0 <= i < e.len() implies e[i] != 0u8 by {}
}

/// A text without NUL characters encodes to bytes without zero bytes.
pub proof fn lemma_encode_utf8_nonzero(cs: Seq<char>)
    requires
        !cs.contains('\0'),
    ensures
        !encode_utf8(cs).contains(0u8),
    decreases cs.len(),
{
    if cs.len() > 0 {
        char_is_scalar(cs[0]);
        assert(cs[0] != '\0');
        assert((cs[0] as u32) != 0) by {
            if (cs[0] as u32) == 0 {
                char_u32_cast(cs[0], 0u32);
            }
        }
        lemma_encode_scalar_nonzero(cs[0] as u32);
        assert(!cs.drop_first().contains('\0')) by {
            if cs.drop_first().contains('\0') {
                let k = choose|k: int| 0 <= k < cs.drop_first().len() && cs.drop_first()[k] == '\0';
                assert(cs[k + 1] == '\0');
            }
        }
        lemma_encode_utf8_nonzero(cs.drop_first());
        let a = encode_scalar(cs[0] as u32);
        let b = encode_utf8(cs.drop_first());
        assert forall|i: int| 0 <= i < (a + b).len() implies (a + b)[i] != 0u8 by {
            if i < a.len() {
                assert((a + b)[i] == a[i]);
            } else {
                assert((a + b)[i] == b[i - a.len()]);
            }
        }
    }
}

} // verus!
