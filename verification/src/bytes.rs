//! Little-endian integer encoding on byte sequences, as the wire format uses it.

use vstd::prelude::*;

verus! {

/// The 32-bit integer that four bytes hold in little-endian order.
pub open spec fn le_u32_of(b: Seq<u8>) -> u32
    recommends
        b.len() == 4,
{
    ((b[0] as u32) | ((b[1] as u32) << 8) | ((b[2] as u32) << 16) | ((b[3] as u32) << 24)) as u32
}

/// The 64-bit integer that eight bytes hold in little-endian order.
pub open spec fn le_u64_of(b: Seq<u8>) -> u64
    recommends
        b.len() == 8,
{
    ((b[0] as u64) | ((b[1] as u64) << 8) | ((b[2] as u64) << 16) | ((b[3] as u64) << 24)
        | ((b[4] as u64) << 32) | ((b[5] as u64) << 40) | ((b[6] as u64) << 48)
        | ((b[7] as u64) << 56)) as u64
}

/// The four bytes that hold `v` in little-endian order.
pub open spec fn le_u32_bytes(v: u32) -> Seq<u8> {
    seq![
        (v & 0xff) as u8,
        ((v >> 8) & 0xff) as u8,
        ((v >> 16) & 0xff) as u8,
        ((v >> 24) & 0xff) as u8,
    ]
}

/// The eight bytes that hold `v` in little-endian order.
pub open spec fn le_u64_bytes(v: u64) -> Seq<u8> {
    seq![
        (v & 0xff) as u8,
        ((v >> 8) & 0xff) as u8,
        ((v >> 16) & 0xff) as u8,
        ((v >> 24) & 0xff) as u8,
        ((v >> 32) & 0xff) as u8,
        ((v >> 40) & 0xff) as u8,
        ((v >> 48) & 0xff) as u8,
        ((v >> 56) & 0xff) as u8,
    ]
}

/// Decoding inverts encoding for 32-bit values.
pub proof fn lemma_le_u32_round_trip(v: u32)
    ensures
        le_u32_of(le_u32_bytes(v)) == v,
{
    let b = le_u32_bytes(v);
    let x0 = (v & 0xff) as u8;
    let x1 = ((v >> 8) & 0xff) as u8;
    let x2 = ((v >> 16) & 0xff) as u8;
    let x3 = ((v >> 24) & 0xff) as u8;
    assert(((x0 as u32) | ((x1 as u32) << 8) | ((x2 as u32) << 16) | ((x3 as u32) << 24)) as u32
        == v) by (bit_vector)
        requires
            x0 == (v & 0xff) as u8,
            x1 == ((v >> 8) & 0xff) as u8,
            x2 == ((v >> 16) & 0xff) as u8,
            x3 == ((v >> 24) & 0xff) as u8,
    ;
    assert(b[0] == x0 && b[1] == x1 && b[2] == x2 && b[3] == x3);
}

/// Decoding inverts encoding for 64-bit values.
pub proof fn lemma_le_u64_round_trip(v: u64)
    ensures
        le_u64_of(le_u64_bytes(v)) == v,
{
    let b = le_u64_bytes(v);
    let x0 = (v & 0xff) as u8;
    let x1 = ((v >> 8) & 0xff) as u8;
    let x2 = ((v >> 16) & 0xff) as u8;
    let x3 = ((v >> 24) & 0xff) as u8;
    let x4 = ((v >> 32) & 0xff) as u8;
    let x5 = ((v >> 40) & 0xff) as u8;
    let x6 = ((v >> 48) & 0xff) as u8;
    let x7 = ((v >> 56) & 0xff) as u8;
    assert(((x0 as u64) | ((x1 as u64) << 8) | ((x2 as u64) << 16) | ((x3 as u64) << 24) | ((
    x4 as u64) << 32) | ((x5 as u64) << 40) | ((x6 as u64) << 48) | ((x7 as u64) << 56)) as u64
        == v) by (bit_vector)
        requires
            x0 == (v & 0xff) as u8,
            x1 == ((v >> 8) & 0xff) as u8,
            x2 == ((v >> 16) & 0xff) as u8,
            x3 == ((v >> 24) & 0xff) as u8,
            x4 == ((v >> 32) & 0xff) as u8,
            x5 == ((v >> 40) & 0xff) as u8,
            x6 == ((v >> 48) & 0xff) as u8,
            x7 == ((v >> 56) & 0xff) as u8,
    ;
    assert(b[0] == x0 && b[1] == x1 && b[2] == x2 && b[3] == x3);
    assert(b[4] == x4 && b[5] == x5 && b[6] == x6 && b[7] == x7);
}

/// The 32-bit integer that four bytes hold in big-endian order.
pub open spec fn be_u32_of(b: Seq<u8>) -> u32
    recommends
        b.len() == 4,
{
    (((b[0] as u32) << 24) | ((b[1] as u32) << 16) | ((b[2] as u32) << 8) | (b[3] as u32)) as u32
}

/// The 128-bit integer that sixteen bytes hold in big-endian order.
pub open spec fn be_u128_of(b: Seq<u8>) -> u128
    recommends
        b.len() == 16,
{
    (((b[0] as u128) << 120) | ((b[1] as u128) << 112) | ((b[2] as u128) << 104) | ((b[3] as u128)
        << 96) | ((b[4] as u128) << 88) | ((b[5] as u128) << 80) | ((b[6] as u128) << 72) | ((
    b[7] as u128) << 64) | ((b[8] as u128) << 56) | ((b[9] as u128) << 48) | ((b[10] as u128) << 40)
        | ((b[11] as u128) << 32) | ((b[12] as u128) << 24) | ((b[13] as u128) << 16) | ((
    b[14] as u128) << 8) | (b[15] as u128)) as u128
}

/// Reads the 32-bit big-endian integer at `off`.
pub fn read_be_u32(b: &Vec<u8>, off: usize) -> (r: u32)
    requires
        off + 4 <= b@.len(),
    ensures
        r == be_u32_of(b@.subrange(off as int, off + 4)),
{
    let _n = b.len();
    let r: u32 = ((b[off] as u32) << 24) | ((b[off + 1] as u32) << 16) | ((b[off + 2] as u32) << 8)
        | (b[off + 3] as u32);
    proof {
        let s = b@.subrange(off as int, off + 4);
        assert(s[0] == b@[off as int]);
        assert(s[1] == b@[off + 1]);
        assert(s[2] == b@[off + 2]);
        assert(s[3] == b@[off + 3]);
    }
    r
}

/// Reads the 128-bit big-endian integer at `off`.
pub fn read_be_u128(b: &Vec<u8>, off: usize) -> (r: u128)
    requires
        off + 16 <= b@.len(),
    ensures
        r == be_u128_of(b@.subrange(off as int, off + 16)),
{
    let _n = b.len();
    let mut r: u128 = 0;
    let mut i: usize = 0;
    proof {
        assert(0u128 < (1u128 << 0u128)) by (bit_vector);
    }
    while i < 16
        invariant
            off + 16 <= b@.len(),
            b@.len() <= usize::MAX,
            i <= 16,
            r < (1u128 << ((8 * i) as u128)) || i == 16,
            r == fold_be(b@.subrange(off as int, off + 16), i as int),
        decreases 16 - i,
    {
        proof {
            let s = b@.subrange(off as int, off + 16);
            assert(s[i as int] == b@[off + i]);
            lemma_fold_be_step(s, i as int, r, b@[off + i]);
        }
        r = (r << 8) | (b[off + i] as u128);
        i = i + 1;
    }
    proof {
        lemma_fold_be_full(b@.subrange(off as int, off + 16));
    }
    r
}

/// Big-endian accumulation of the first `k` bytes of `b`.
pub open spec fn fold_be(b: Seq<u8>, k: int) -> u128
    recommends
        0 <= k <= 16,
        b.len() == 16,
    decreases k,
{
    if k <= 0 {
        0u128
    } else {
        ((fold_be(b, k - 1) << 8) | (b[k - 1] as u128)) as u128
    }
}

proof fn lemma_fold_be_step(b: Seq<u8>, k: int, acc: u128, byte: u8)
    requires
        0 <= k < 16,
        b.len() == 16,
        acc == fold_be(b, k),
        acc < (1u128 << ((8 * k) as u128)) || k == 16,
        byte == b[k],
    ensures
        fold_be(b, k + 1) == ((acc << 8) | (byte as u128)) as u128,
        fold_be(b, k + 1) < (1u128 << ((8 * (k + 1)) as u128)) || k + 1 == 16,
{
    assert(fold_be(b, k + 1) == ((fold_be(b, k) << 8) | (b[k] as u128)) as u128);
    if k + 1 < 16 {
        let kk = (8 * k) as u128;
        assert((((acc << 8) | (byte as u128)) as u128) < ((1u128 << ((kk + 8) as u128)) as u128))
            by (bit_vector)
            requires
                acc < (1u128 << kk) || kk >= 128,
                kk <= 112,
        ;
    }
}

proof fn lemma_fold_be_full(b: Seq<u8>)
    requires
        b.len() == 16,
    ensures
        fold_be(b, 16) == be_u128_of(b),
    decreases 16int,
{
    let x0 = b[0];
    let x1 = b[1];
    let x2 = b[2];
    let x3 = b[3];
    let x4 = b[4];
    let x5 = b[5];
    let x6 = b[6];
    let x7 = b[7];
    let x8 = b[8];
    let x9 = b[9];
    let x10 = b[10];
    let x11 = b[11];
    let x12 = b[12];
    let x13 = b[13];
    let x14 = b[14];
    let x15 = b[15];
    let folded = fold_be(b, 16);
    assert(fold_be(b, 0) == 0u128);
    let f1 = fold_be(b, 1);
    let f2 = fold_be(b, 2);
    let f3 = fold_be(b, 3);
    let f4 = fold_be(b, 4);
    let f5 = fold_be(b, 5);
    let f6 = fold_be(b, 6);
    let f7 = fold_be(b, 7);
    let f8 = fold_be(b, 8);
    let f9 = fold_be(b, 9);
    let f10 = fold_be(b, 10);
    let f11 = fold_be(b, 11);
    let f12 = fold_be(b, 12);
    let f13 = fold_be(b, 13);
    let f14 = fold_be(b, 14);
    let f15 = fold_be(b, 15);
    assert(f1 == ((0u128 << 8) | (x0 as u128)) as u128);
    assert(folded == ((f15 << 8) | (x15 as u128)) as u128);
    assert({
        let g1 = ((0u128 << 8) | (x0 as u128)) as u128;
        let g2 = ((g1 << 8) | (x1 as u128)) as u128;
        let g3 = ((g2 << 8) | (x2 as u128)) as u128;
        let g4 = ((g3 << 8) | (x3 as u128)) as u128;
        let g5 = ((g4 << 8) | (x4 as u128)) as u128;
        let g6 = ((g5 << 8) | (x5 as u128)) as u128;
        let g7 = ((g6 << 8) | (x6 as u128)) as u128;
        let g8 = ((g7 << 8) | (x7 as u128)) as u128;
        let g9 = ((g8 << 8) | (x8 as u128)) as u128;
        let g10 = ((g9 << 8) | (x9 as u128)) as u128;
        let g11 = ((g10 << 8) | (x10 as u128)) as u128;
        let g12 = ((g11 << 8) | (x11 as u128)) as u128;
        let g13 = ((g12 << 8) | (x12 as u128)) as u128;
        let g14 = ((g13 << 8) | (x13 as u128)) as u128;
        let g15 = ((g14 << 8) | (x14 as u128)) as u128;
        let g16 = ((g15 << 8) | (x15 as u128)) as u128;
        g16 == (((x0 as u128) << 120) | ((x1 as u128) << 112) | ((x2 as u128) << 104) | ((
        x3 as u128) << 96) | ((x4 as u128) << 88) | ((x5 as u128) << 80) | ((x6 as u128) << 72) | ((
        x7 as u128) << 64) | ((x8 as u128) << 56) | ((x9 as u128) << 48) | ((x10 as u128) << 40) | ((
        x11 as u128) << 32) | ((x12 as u128) << 24) | ((x13 as u128) << 16) | ((x14 as u128) << 8) | (
        x15 as u128)) as u128
    }) by (bit_vector);
}

/// Reads the 32-bit little-endian integer at `off`.
pub fn read_le_u32(b: &Vec<u8>, off: usize) -> (r: u32)
    requires
        off + 4 <= b@.len(),
    ensures
        r == le_u32_of(b@.subrange(off as int, off + 4)),
{
    let _n = b.len();
    let r: u32 = (b[off] as u32) | ((b[off + 1] as u32) << 8) | ((b[off + 2] as u32) << 16)
        | ((b[off + 3] as u32) << 24);
    proof {
        let s = b@.subrange(off as int, off + 4);
        assert(s[0] == b@[off as int]);
        assert(s[1] == b@[off + 1]);
        assert(s[2] == b@[off + 2]);
        assert(s[3] == b@[off + 3]);
    }
    r
}

/// Reads the 64-bit little-endian integer at `off`.
pub fn read_le_u64(b: &Vec<u8>, off: usize) -> (r: u64)
    requires
        off + 8 <= b@.len(),
    ensures
        r == le_u64_of(b@.subrange(off as int, off + 8)),
{
    let _n = b.len();
    let r: u64 = (b[off] as u64) | ((b[off + 1] as u64) << 8) | ((b[off + 2] as u64) << 16) | ((b[
        off + 3] as u64) << 24) | ((b[off + 4] as u64) << 32) | ((b[off + 5] as u64) << 40) | ((b[
        off + 6] as u64) << 48) | ((b[off + 7] as u64) << 56);
    proof {
        let s = b@.subrange(off as int, off + 8);
        assert(s[0] == b@[off as int]);
        assert(s[1] == b@[off + 1]);
        assert(s[2] == b@[off + 2]);
        assert(s[3] == b@[off + 3]);
        assert(s[4] == b@[off + 4]);
        assert(s[5] == b@[off + 5]);
        assert(s[6] == b@[off + 6]);
        assert(s[7] == b@[off + 7]);
    }
    r
}

/// Appends the four little-endian bytes of `v`.
pub fn push_le_u32(b: &mut Vec<u8>, v: u32)
    ensures
        final(b)@ == old(b)@ + le_u32_bytes(v),
{
    b.push((v & 0xff) as u8);
    b.push(((v >> 8) & 0xff) as u8);
    b.push(((v >> 16) & 0xff) as u8);
    b.push(((v >> 24) & 0xff) as u8);
    proof {
        assert(b@ =~= old(b)@ + le_u32_bytes(v));
    }
}

/// Appends the eight little-endian bytes of `v`.
pub fn push_le_u64(b: &mut Vec<u8>, v: u64)
    ensures
        final(b)@ == old(b)@ + le_u64_bytes(v),
{
    b.push((v & 0xff) as u8);
    b.push(((v >> 8) & 0xff) as u8);
    b.push(((v >> 16) & 0xff) as u8);
    b.push(((v >> 24) & 0xff) as u8);
    b.push(((v >> 32) & 0xff) as u8);
    b.push(((v >> 40) & 0xff) as u8);
    b.push(((v >> 48) & 0xff) as u8);
    b.push(((v >> 56) & 0xff) as u8);
    proof {
        assert(b@ =~= old(b)@ + le_u64_bytes(v));
    }
}

/// The four bytes that hold `v` in big-endian order.
pub open spec fn be_u32_bytes(v: u32) -> Seq<u8> {
    seq![
        ((v >> 24) & 0xff) as u8,
        ((v >> 16) & 0xff) as u8,
        ((v >> 8) & 0xff) as u8,
        (v & 0xff) as u8,
    ]
}

/// The eight bytes that hold `v` in big-endian order.
pub open spec fn be_u64_bytes(v: u64) -> Seq<u8> {
    seq![
        ((v >> 56) & 0xff) as u8,
        ((v >> 48) & 0xff) as u8,
        ((v >> 40) & 0xff) as u8,
        ((v >> 32) & 0xff) as u8,
        ((v >> 24) & 0xff) as u8,
        ((v >> 16) & 0xff) as u8,
        ((v >> 8) & 0xff) as u8,
        (v & 0xff) as u8,
    ]
}

/// Appends the four big-endian bytes of `v`.
pub fn push_be_u32(b: &mut Vec<u8>, v: u32)
    ensures
        final(b)@ == old(b)@ + be_u32_bytes(v),
{
    b.push(((v >> 24) & 0xff) as u8);
    b.push(((v >> 16) & 0xff) as u8);
    b.push(((v >> 8) & 0xff) as u8);
    b.push((v & 0xff) as u8);
    proof {
        assert(b@ =~= old(b)@ + be_u32_bytes(v));
    }
}

/// Appends the eight big-endian bytes of `v`.
pub fn push_be_u64(b: &mut Vec<u8>, v: u64)
    ensures
        final(b)@ == old(b)@ + be_u64_bytes(v),
{
    b.push(((v >> 56) & 0xff) as u8);
    b.push(((v >> 48) & 0xff) as u8);
    b.push(((v >> 40) & 0xff) as u8);
    b.push(((v >> 32) & 0xff) as u8);
    b.push(((v >> 24) & 0xff) as u8);
    b.push(((v >> 16) & 0xff) as u8);
    b.push(((v >> 8) & 0xff) as u8);
    b.push((v & 0xff) as u8);
    proof {
        assert(b@ =~= old(b)@ + be_u64_bytes(v));
    }
}

/// Appends `src` to `dst`.
pub fn push_bytes(dst: &mut Vec<u8>, src: &Vec<u8>)
    ensures
        final(dst)@ == old(dst)@ + src@,
{
    let n = src.len();
    let mut i: usize = 0;
    while i < n
        invariant
            n == src@.len(),
            i <= n,
            dst@ == old(dst)@ + src@.subrange(0, i as int),
        decreases n - i,
    {
        dst.push(src[i]);
        proof {
            assert(dst@ =~= old(dst)@ + src@.subrange(0, i + 1));
        }
        i = i + 1;
    }
    proof {
        assert(src@.subrange(0, n as int) =~= src@);
    }
}

/// Copies `sub.len()` bytes out of `b` starting at `off`.
pub fn sub_bytes(b: &Vec<u8>, off: usize, len: usize) -> (r: Vec<u8>)
    requires
        off + len <= b@.len(),
    ensures
        r@ == b@.subrange(off as int, off + len),
{
    let total = b.len();
    let mut r: Vec<u8> = Vec::new();
    let mut i: usize = 0;
    while i < len
        invariant
            total == b@.len(),
            off + len <= b@.len(),
            i <= len,
            r@ == b@.subrange(off as int, off + i),
        decreases len - i,
    {
        r.push(b[off + i]);
        proof {
            assert(r@ =~= b@.subrange(off as int, off + i + 1));
        }
        i = i + 1;
    }
    r
}

/// True when the two vectors hold the same bytes.
pub fn bytes_eq(a: &Vec<u8>, b: &Vec<u8>) -> (r: bool)
    ensures
        r == (a@ == b@),
{
    if a.len() != b.len() {
        proof {
            assert(a@.len() != b@.len());
        }
        return false;
    }
    let n = a.len();
    let mut i: usize = 0;
    while i < n
        invariant
            n == a@.len(),
            n == b@.len(),
            i <= n,
            forall|j: int| 0 <= j < i ==> a@[j] == b@[j],
        decreases n - i,
    {
        if a[i] != b[i] {
            return false;
        }
        i = i + 1;
    }
    proof {
        assert(a@ =~= b@);
    }
    true
}

} // verus!
