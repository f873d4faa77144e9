//! Byte-level building blocks: fixed-width integer encodings, byte-string
//! comparison and lexicographic order, and text from its UTF-8 bytes.
use vstd::prelude::*;
use vstd::utf8::{encode_scalar, encode_utf8, encode_utf8_decode_utf8, encode_utf8_valid_utf8};
use crate::crypto::string_from_utf8;

verus! {

/// Big-endian encoding of a `u16`.
pub open spec fn spec_u16_be(x: u16) -> Seq<u8> {
    seq![(x >> 8u16) as u8, x as u8]
}

/// Big-endian encoding of a `u32`.
pub open spec fn spec_u32_be(x: u32) -> Seq<u8> {
    seq![(x >> 24u32) as u8, (x >> 16u32) as u8, (x >> 8u32) as u8, x as u8]
}

/// Big-endian encoding of a `u64`.
pub open spec fn spec_u64_be(x: u64) -> Seq<u8> {
    seq![
        (x >> 56u64) as u8,
        (x >> 48u64) as u8,
        (x >> 40u64) as u8,
        (x >> 32u64) as u8,
        (x >> 24u64) as u8,
        (x >> 16u64) as u8,
        (x >> 8u64) as u8,
        x as u8,
    ]
}

/// Little-endian encoding of a `u32`.
pub open spec fn spec_u32_le(x: u32) -> Seq<u8> {
    seq![x as u8, (x >> 8u32) as u8, (x >> 16u32) as u8, (x >> 24u32) as u8]
}

/// Little-endian encoding of a `u64`.
pub open spec fn spec_u64_le(x: u64) -> Seq<u8> {
    seq![
        x as u8,
        (x >> 8u64) as u8,
        (x >> 16u64) as u8,
        (x >> 24u64) as u8,
        (x >> 32u64) as u8,
        (x >> 40u64) as u8,
        (x >> 48u64) as u8,
        (x >> 56u64) as u8,
    ]
}

/// The `u16` whose big-endian encoding is `b0 b1`.
pub open spec fn spec_u16_from_be(b0: u8, b1: u8) -> u16 {
    (((b0 as u16) << 8u16) | (b1 as u16)) as u16
}

/// The `u32` whose big-endian encoding is `b0 b1 b2 b3`.
pub open spec fn spec_u32_from_be(b0: u8, b1: u8, b2: u8, b3: u8) -> u32 {
    (((b0 as u32) << 24u32) | ((b1 as u32) << 16u32) | ((b2 as u32) << 8u32) | (b3 as u32)) as u32
}

/// The `u64` whose big-endian encoding is the eight bytes of `b` from `p` on.
pub open spec fn spec_u64_from_be(b: Seq<u8>, p: int) -> u64 {
    (((b[p] as u64) << 56u64) | ((b[p + 1] as u64) << 48u64) | ((b[p + 2] as u64) << 40u64) | ((
    b[p + 3] as u64) << 32u64) | ((b[p + 4] as u64) << 24u64) | ((b[p + 5] as u64) << 16u64) | ((b[p
        + 6] as u64) << 8u64) | (b[p + 7] as u64)) as u64
}

/// Decoding a big-endian `u16` gives back the encoded value, and encoding a
/// decoded value gives back the bytes.
pub proof fn lemma_u16_be_roundtrip(x: u16, b0: u8, b1: u8)
    ensures
        spec_u16_from_be(spec_u16_be(x)[0], spec_u16_be(x)[1]) == x,
        spec_u16_be(spec_u16_from_be(b0, b1)) == seq![b0, b1],
{
    assert((((((x >> 8u16) as u8) as u16) << 8u16) | ((x as u8) as u16)) == x) by (bit_vector);
    let y = spec_u16_from_be(b0, b1);
    assert((((((b0 as u16) << 8u16) | (b1 as u16)) >> 8u16) as u8) == b0) by (bit_vector);
    assert(((((b0 as u16) << 8u16) | (b1 as u16)) as u8) == b1) by (bit_vector);
    assert(spec_u16_be(y) =~= seq![b0, b1]);
}

/// Decoding a big-endian `u32` gives back the encoded value, and encoding a
/// decoded value gives back the bytes.
pub proof fn lemma_u32_be_roundtrip(x: u32, b0: u8, b1: u8, b2: u8, b3: u8)
    ensures
        spec_u32_from_be(
            spec_u32_be(x)[0],
            spec_u32_be(x)[1],
            spec_u32_be(x)[2],
            spec_u32_be(x)[3],
        ) == x,
        spec_u32_be(spec_u32_from_be(b0, b1, b2, b3)) == seq![b0, b1, b2, b3],
{
    assert((((((x >> 24u32) as u8) as u32) << 24u32) | ((((x >> 16u32) as u8) as u32) << 16u32) | ((
    ((x >> 8u32) as u8) as u32) << 8u32) | ((x as u8) as u32)) == x) by (bit_vector);
    let y = spec_u32_from_be(b0, b1, b2, b3);
    assert(((((((b0 as u32) << 24u32) | ((b1 as u32) << 16u32) | ((b2 as u32) << 8u32) | (b3 as u32)))
        >> 24u32) as u8) == b0) by (bit_vector);
    assert(((((((b0 as u32) << 24u32) | ((b1 as u32) << 16u32) | ((b2 as u32) << 8u32) | (b3 as u32)))
        >> 16u32) as u8) == b1) by (bit_vector);
    assert(((((((b0 as u32) << 24u32) | ((b1 as u32) << 16u32) | ((b2 as u32) << 8u32) | (b3 as u32)))
        >> 8u32) as u8) == b2) by (bit_vector);
    assert((((((b0 as u32) << 24u32) | ((b1 as u32) << 16u32) | ((b2 as u32) << 8u32) | (b3 as u32)))
        as u8) == b3) by (bit_vector);
    assert(spec_u32_be(y) =~= seq![b0, b1, b2, b3]);
}

/// Decoding a big-endian `u64` gives back the encoded value.
pub proof fn lemma_u64_be_roundtrip(x: u64)
    ensures
        spec_u64_from_be(spec_u64_be(x), 0) == x,
{
    let b = spec_u64_be(x);
    assert(((((((x >> 56u64) as u8) as u64) << 56u64) | ((((x >> 48u64) as u8) as u64) << 48u64) | ((
    ((x >> 40u64) as u8) as u64) << 40u64) | ((((x >> 32u64) as u8) as u64) << 32u64) | ((((x
        >> 24u64) as u8) as u64) << 24u64) | ((((x >> 16u64) as u8) as u64) << 16u64) | ((((x
        >> 8u64) as u8) as u64) << 8u64) | ((x as u8) as u64))) == x) by (bit_vector);
}

/// Encoding the `u64` read from eight bytes gives back those bytes.
pub proof fn lemma_u64_be_bytes(b: Seq<u8>, p: int)
    requires
        0 <= p,
        p + 8 <= b.len(),
    ensures
        spec_u64_be(spec_u64_from_be(b, p)) == b.subrange(p, p + 8),
{
    let b0 = b[p];
    let b1 = b[p + 1];
    let b2 = b[p + 2];
    let b3 = b[p + 3];
    let b4 = b[p + 4];
    let b5 = b[p + 5];
    let b6 = b[p + 6];
    let b7 = b[p + 7];
    let x = spec_u64_from_be(b, p);
    assert(x == (((b0 as u64) << 56u64) | ((b1 as u64) << 48u64) | ((b2 as u64) << 40u64) | ((b3 as u64) << 32u64)
        | ((b4 as u64) << 24u64) | ((b5 as u64) << 16u64) | ((b6 as u64) << 8u64) | (b7 as u64)) as u64);
    assert(((x >> 56u64) as u8) == b0 && ((x >> 48u64) as u8) == b1 && ((x >> 40u64) as u8) == b2 && ((x
        >> 32u64) as u8) == b3 && ((x >> 24u64) as u8) == b4 && ((x >> 16u64) as u8) == b5 && ((x >> 8u64) as u8)
        == b6 && (x as u8) == b7) by (bit_vector)
        requires
            x == (((b0 as u64) << 56u64) | ((b1 as u64) << 48u64) | ((b2 as u64) << 40u64) | ((b3 as u64) << 32u64)
                | ((b4 as u64) << 24u64) | ((b5 as u64) << 16u64) | ((b6 as u64) << 8u64) | (b7 as u64)) as u64,
    ;
    assert(spec_u64_be(x) =~= b.subrange(p, p + 8));
}

/// Eight bytes that encode `x` are read back as `x`.
pub proof fn lemma_u64_from_encoding(b: Seq<u8>, p: int, x: u64)
    requires
        0 <= p,
        p + 8 <= b.len(),
        b.subrange(p, p + 8) == spec_u64_be(x),
    ensures
        spec_u64_from_be(b, p) == x,
{
    let e = spec_u64_be(x);
    assert(forall|i: int| 0 <= i < 8 ==> b[p + i] == #[trigger] e[i]) by {
        assert forall|i: int| 0 <= i < 8 implies b[p + i] == #[trigger] e[i] by {
            assert(b.subrange(p, p + 8)[i] == b[p + i]);
        }
    }
    assert(b[p] == e[0] && b[p + 1] == e[1] && b[p + 2] == e[2] && b[p + 3] == e[3]);
    assert(b[p + 4] == e[4] && b[p + 5] == e[5] && b[p + 6] == e[6] && b[p + 7] == e[7]);
    lemma_u64_be_roundtrip(x);
}

/// Four bytes that encode `x` are read back as `x`, and the `u32` read from
/// four bytes encodes to them.
pub proof fn lemma_u32_at(b: Seq<u8>, p: int)
    requires
        0 <= p,
        p + 4 <= b.len(),
    ensures
        spec_u32_be(spec_u32_from_be(b[p], b[p + 1], b[p + 2], b[p + 3])) == b.subrange(p, p + 4),
        forall|x: u32| b.subrange(p, p + 4) == #[trigger] spec_u32_be(x) ==> spec_u32_from_be(
            b[p],
            b[p + 1],
            b[p + 2],
            b[p + 3],
        ) == x,
{
    lemma_u32_be_roundtrip(0, b[p], b[p + 1], b[p + 2], b[p + 3]);
    assert(seq![b[p], b[p + 1], b[p + 2], b[p + 3]] =~= b.subrange(p, p + 4));
    assert forall|x: u32| b.subrange(p, p + 4) == #[trigger] spec_u32_be(x) implies spec_u32_from_be(
        b[p],
        b[p + 1],
        b[p + 2],
        b[p + 3],
    ) == x by {
        lemma_u32_be_roundtrip(x, 0, 0, 0, 0);
        assert(b[p] == b.subrange(p, p + 4)[0]);
        assert(b[p + 1] == b.subrange(p, p + 4)[1]);
        assert(b[p + 2] == b.subrange(p, p + 4)[2]);
        assert(b[p + 3] == b.subrange(p, p + 4)[3]);
    }
}

/// Appends the big-endian encoding of a `u16`.
pub fn push_u16_be(out: &mut Vec<u8>, x: u16)
    ensures
        final(out)@ == old(out)@ + spec_u16_be(x),
{
    out.push((x >> 8u16) as u8);
    out.push(x as u8);
    assert(out@ =~= old(out)@ + spec_u16_be(x));
}

/// Appends the big-endian encoding of a `u32`.
pub fn push_u32_be(out: &mut Vec<u8>, x: u32)
    ensures
        final(out)@ == old(out)@ + spec_u32_be(x),
{
    out.push((x >> 24u32) as u8);
    out.push((x >> 16u32) as u8);
    out.push((x >> 8u32) as u8);
    out.push(x as u8);
    assert(out@ =~= old(out)@ + spec_u32_be(x));
}

/// Appends the big-endian encoding of a `u64`.
pub fn push_u64_be(out: &mut Vec<u8>, x: u64)
    ensures
        final(out)@ == old(out)@ + spec_u64_be(x),
{
    out.push((x >> 56u64) as u8);
    out.push((x >> 48u64) as u8);
    out.push((x >> 40u64) as u8);
    out.push((x >> 32u64) as u8);
    out.push((x >> 24u64) as u8);
    out.push((x >> 16u64) as u8);
    out.push((x >> 8u64) as u8);
    out.push(x as u8);
    assert(out@ =~= old(out)@ + spec_u64_be(x));
}

/// Appends the little-endian encoding of a `u32`.
pub fn push_u32_le(out: &mut Vec<u8>, x: u32)
    ensures
        final(out)@ == old(out)@ + spec_u32_le(x),
{
    out.push(x as u8);
    out.push((x >> 8u32) as u8);
    out.push((x >> 16u32) as u8);
    out.push((x >> 24u32) as u8);
    assert(out@ =~= old(out)@ + spec_u32_le(x));
}

/// Appends the little-endian encoding of a `u64`.
pub fn push_u64_le(out: &mut Vec<u8>, x: u64)
    ensures
        final(out)@ == old(out)@ + spec_u64_le(x),
{
    out.push(x as u8);
    out.push((x >> 8u64) as u8);
    out.push((x >> 16u64) as u8);
    out.push((x >> 24u64) as u8);
    out.push((x >> 32u64) as u8);
    out.push((x >> 40u64) as u8);
    out.push((x >> 48u64) as u8);
    out.push((x >> 56u64) as u8);
    assert(out@ =~= old(out)@ + spec_u64_le(x));
}

/// Appends a byte string.
pub fn push_bytes(out: &mut Vec<u8>, data: &[u8])
    ensures
        final(out)@ == old(out)@ + data@,
{
    let n = data.len();
    for i in 0..n
        invariant
            n == data@.len(),
            out@ == old(out)@ + data@.take(i as int),
    {
        out.push(data[i]);
        assert(data@.take(i + 1) =~= data@.take(i as int).push(data@[i as int]));
        assert(out@ =~= old(out)@ + data@.take(i + 1));
    }
    assert(data@.take(n as int) =~= data@);
}

/// Copies a byte string into a new vector.
pub fn bytes_to_vec(data: &[u8]) -> (r: Vec<u8>)
    ensures
        r@ == data@,
{
    let mut out: Vec<u8> = Vec::new();
    push_bytes(&mut out, data);
    assert(out@ =~= data@);
    out
}

/// Copies the bytes `data[start..end]` into a new vector.
pub fn copy_range(data: &[u8], start: usize, end: usize) -> (r: Vec<u8>)
    requires
        start <= end <= data@.len(),
    ensures
        r@ == data@.subrange(start as int, end as int),
{
    let mut out: Vec<u8> = Vec::new();
    let mut i = start;
    while i < end
        invariant
            start <= i <= end <= data@.len(),
            out@ == data@.subrange(start as int, i as int),
        decreases end - i,
    {
        out.push(data[i]);
        assert(out@ =~= data@.subrange(start as int, i + 1));
        i = i + 1;
    }
    out
}

/// Copies 32 bytes starting at `start` into an array.
pub fn read_array_32(data: &[u8], start: usize) -> (r: [u8; 32])
    requires
        start + 32 <= data@.len(),
    ensures
        r@ == data@.subrange(start as int, start + 32),
{
    let mut out = [0u8; 32];
    let n = data.len();
    for i in 0..32
        invariant
            n == data@.len(),
            start + 32 <= n,
            forall|j: int| 0 <= j < i ==> out@[j] == data@[start + j],
    {
        out[i] = data[start + i];
    }
    assert(out@ =~= data@.subrange(start as int, start + 32));
    out
}

/// Copies 4 bytes starting at `start` into an array.
pub fn read_array_4(data: &[u8], start: usize) -> (r: [u8; 4])
    requires
        start + 4 <= data@.len(),
    ensures
        r@ == data@.subrange(start as int, start + 4),
{
    let r = [data[start], data[start + 1], data[start + 2], data[start + 3]];
    assert(r@ =~= data@.subrange(start as int, start + 4));
    r
}

/// Copies 16 bytes starting at `start` into an array.
pub fn read_array_16(data: &[u8], start: usize) -> (r: [u8; 16])
    requires
        start + 16 <= data@.len(),
    ensures
        r@ == data@.subrange(start as int, start + 16),
{
    let mut out = [0u8; 16];
    let n = data.len();
    for i in 0..16
        invariant
            n == data@.len(),
            start + 16 <= n,
            forall|j: int| 0 <= j < i ==> out@[j] == data@[start + j],
    {
        out[i] = data[start + i];
    }
    assert(out@ =~= data@.subrange(start as int, start + 16));
    out
}

/// The big-endian `u16` at `start`.
pub fn read_u16_be(data: &[u8], start: usize) -> (r: u16)
    requires
        start + 2 <= data@.len(),
    ensures
        r == spec_u16_from_be(data@[start as int], data@[start + 1]),
{
    ((data[start] as u16) << 8u16) | (data[start + 1] as u16)
}

/// The big-endian `u32` at `start`.
pub fn read_u32_be(data: &[u8], start: usize) -> (r: u32)
    requires
        start + 4 <= data@.len(),
    ensures
        r == spec_u32_from_be(data@[start as int], data@[start + 1], data@[start + 2], data@[start + 3]),
{
    ((data[start] as u32) << 24u32) | ((data[start + 1] as u32) << 16u32) | ((data[start + 2] as u32) << 8u32) | (
    data[start + 3] as u32)
}

/// The big-endian `u64` at `start`.
pub fn read_u64_be(data: &[u8], start: usize) -> (r: u64)
    requires
        start + 8 <= data@.len(),
    ensures
        r == spec_u64_from_be(data@, start as int),
{
    ((data[start] as u64) << 56u64) | ((data[start + 1] as u64) << 48u64) | ((data[start + 2] as u64) << 40u64) | ((
    data[start + 3] as u64) << 32u64) | ((data[start + 4] as u64) << 24u64) | ((data[start + 5] as u64) << 16u64)
        | ((data[start + 6] as u64) << 8u64) | (data[start + 7] as u64)
}

/// Whether two byte strings are equal.
pub fn bytes_eq(a: &[u8], b: &[u8]) -> (r: bool)
    ensures
        r == (a@ == b@),
{
    if a.len() != b.len() {
        return false;
    }
    let n = a.len();
    for i in 0..n
        invariant
            n == a@.len(),
            n == b@.len(),
            forall|j: int| 0 <= j < i ==> a@[j] == b@[j],
    {
        if a[i] != b[i] {
            return false;
        }
    }
    assert(a@ =~= b@);
    true
}

/// Whether every byte is zero.
pub open spec fn spec_all_zero(a: Seq<u8>) -> bool {
    forall|i: int| 0 <= i < a.len() ==> a[i] == 0
}

/// Whether every byte is zero.
pub fn is_all_zero(a: &[u8]) -> (r: bool)
    ensures
        r == spec_all_zero(a@),
{
    let n = a.len();
    for i in 0..n
        invariant
            n == a@.len(),
            forall|j: int| 0 <= j < i ==> a@[j] == 0,
    {
        if a[i] != 0 {
            return false;
        }
    }
    true
}

/// The 32-byte all-zero hash.
pub open spec fn zero_hash() -> Seq<u8> {
    Seq::new(32, |i: int| 0u8)
}

/// Whether a 32-byte value is the all-zero hash.
pub fn is_zero_hash(a: &[u8; 32]) -> (r: bool)
    ensures
        r == (a@ == zero_hash()),
{
    let r = is_all_zero(a);
    if r {
        assert(a@ =~= zero_hash());
    } else {
        assert(a@ != zero_hash()) by {
            if a@ == zero_hash() {
                assert(spec_all_zero(a@));
            }
        }
    }
    r
}

/// Whether two 32-byte values are equal.
pub fn hash_eq(a: &[u8; 32], b: &[u8; 32]) -> (r: bool)
    ensures
        r == (a@ == b@),
{
    bytes_eq(a, b)
}

/// Strict lexicographic order on byte strings of equal length.
pub open spec fn lex_lt(a: Seq<u8>, b: Seq<u8>) -> bool
    decreases a.len(),
{
    if a.len() == 0 || b.len() == 0 {
        false
    } else if a[0] != b[0] {
        a[0] < b[0]
    } else {
        lex_lt(a.drop_first(), b.drop_first())
    }
}

/// Lexicographic order is irreflexive, transitive and total on byte strings
/// of equal length.
pub proof fn lemma_lex_irreflexive(a: Seq<u8>)
    ensures
        !lex_lt(a, a),
    decreases a.len(),
{
    if a.len() > 0 {
        lemma_lex_irreflexive(a.drop_first());
    }
}

pub proof fn lemma_lex_transitive(a: Seq<u8>, b: Seq<u8>, c: Seq<u8>)
    requires
        lex_lt(a, b),
        lex_lt(b, c),
    ensures
        lex_lt(a, c),
    decreases a.len(),
{
    if a.len() > 0 && b.len() > 0 && c.len() > 0 {
        if a[0] == b[0] && b[0] == c[0] {
            lemma_lex_transitive(a.drop_first(), b.drop_first(), c.drop_first());
        }
    }
}

pub proof fn lemma_lex_total(a: Seq<u8>, b: Seq<u8>)
    requires
        a.len() == b.len(),
        a != b,
    ensures
        lex_lt(a, b) || lex_lt(b, a),
    decreases a.len(),
{
    if a.len() == 0 {
        assert(a =~= b);
    } else if a[0] == b[0] {
        if a.drop_first() == b.drop_first() {
            assert(a =~= seq![a[0]] + a.drop_first());
            assert(b =~= seq![b[0]] + b.drop_first());
        }
        lemma_lex_total(a.drop_first(), b.drop_first());
    }
}

pub proof fn lemma_lex_asymmetric(a: Seq<u8>, b: Seq<u8>)
    requires
        lex_lt(a, b),
    ensures
        !lex_lt(b, a),
    decreases a.len(),
{
    if a.len() > 0 && b.len() > 0 && a[0] == b[0] {
        lemma_lex_asymmetric(a.drop_first(), b.drop_first());
    }
}

/// Three-way lexicographic comparison of two 32-byte values:
/// -1 when `a` comes first, 0 when equal, 1 when `b` comes first.
pub fn compare_hashes(a: &[u8; 32], b: &[u8; 32]) -> (r: i8)
    ensures
        r == -1 <==> lex_lt(a@, b@),
        r == 0 <==> a@ == b@,
        r == 1 <==> lex_lt(b@, a@),
        r == -1 || r == 0 || r == 1,
{
    let mut i: usize = 0;
    assert(a@.subrange(0, 32) =~= a@);
    assert(b@.subrange(0, 32) =~= b@);
    while i < 32
        invariant
            i <= 32,
            a@.len() == 32,
            b@.len() == 32,
            a@.subrange(0, i as int) == b@.subrange(0, i as int),
            lex_lt(a@, b@) == lex_lt(a@.subrange(i as int, 32), b@.subrange(i as int, 32)),
            lex_lt(b@, a@) == lex_lt(b@.subrange(i as int, 32), a@.subrange(i as int, 32)),
        decreases 32 - i,
    {
        let x = a[i];
        let y = b[i];
        let ghost sa = a@.subrange(i as int, 32);
        let ghost sb = b@.subrange(i as int, 32);
        if x < y {
            proof {
                lemma_lex_asymmetric(a@, b@);
            }
            return -1;
        }
        if x > y {
            proof {
                lemma_lex_asymmetric(b@, a@);
            }
            return 1;
        }
        assert(sa.drop_first() =~= a@.subrange(i + 1, 32));
        assert(sb.drop_first() =~= b@.subrange(i + 1, 32));
        assert(a@.subrange(0, i + 1) =~= a@.subrange(0, i as int).push(x));
        assert(b@.subrange(0, i + 1) =~= b@.subrange(0, i as int).push(y));
        i = i + 1;
    }
    assert(a@ =~= a@.subrange(0, 32));
    assert(b@ =~= b@.subrange(0, 32));
    proof {
        lemma_lex_irreflexive(a@);
    }
    0
}

/// The UTF-8 encoding of a concatenation is the concatenation of the
/// encodings.
pub proof fn lemma_encode_utf8_concat(a: Seq<char>, b: Seq<char>)
    ensures
        encode_utf8(a + b) == encode_utf8(a) + encode_utf8(b),
    decreases a.len(),
{
    if a.len() == 0 {
        assert(a + b =~= b);
        assert(encode_utf8(a) + encode_utf8(b) =~= encode_utf8(b));
    } else {
        lemma_encode_utf8_concat(a.drop_first(), b);
        assert((a + b).drop_first() =~= a.drop_first() + b);
        assert((a + b)[0] == a[0]);
        assert(encode_utf8(a) + encode_utf8(b) =~= encode_scalar(a[0] as u32) + (encode_utf8(a.drop_first())
            + encode_utf8(b)));
    }
}

/// The string whose UTF-8 encoding is `bytes`.
pub(crate) fn string_of_chars(bytes: Vec<u8>, Ghost(text): Ghost<Seq<char>>) -> (r: String)
    requires
        bytes@ == encode_utf8(text),
    ensures
        r@ == text,
{
    proof {
        encode_utf8_valid_utf8(text);
        encode_utf8_decode_utf8(text);
    }
    match string_from_utf8(bytes) {
        Some(s) => s,
        None => {
            proof {
                assert(false);
            }
            String::new()
        },
    }
}

} // verus!
