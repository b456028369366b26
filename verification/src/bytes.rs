//! Little-endian field access over byte buffers, with the specification
//! functions that the on-disk formats are stated in.
use vstd::prelude::*;

verus! {

/// `256^n`.
pub open spec fn pow256(n: nat) -> nat
    decreases n,
{
    if n == 0 { 1 } else { 256 * pow256((n - 1) as nat) }
}

/// `2^n`.
pub open spec fn pow2(n: nat) -> nat
    decreases n,
{
    if n == 0 { 1 } else { 2 * pow2((n - 1) as nat) }
}

/// The unsigned little-endian number held by the `n` bytes of `b` that start at `o`.
pub open spec fn le_bytes(b: Seq<u8>, o: int, n: nat) -> nat
    decreases n,
{
    if n == 0 { 0 } else { b[o] as nat + 256 * le_bytes(b, o + 1, (n - 1) as nat) }
}

/// The little-endian `u16` at `o`.
pub open spec fn le16(b: Seq<u8>, o: int) -> int {
    b[o] + 256 * b[o + 1]
}

/// The little-endian `u32` at `o`.
pub open spec fn le32(b: Seq<u8>, o: int) -> int {
    le16(b, o) + 65536 * le16(b, o + 2)
}

/// The little-endian `u64` at `o`.
pub open spec fn le64(b: Seq<u8>, o: int) -> int {
    le32(b, o) + 4294967296 * le32(b, o + 4)
}

/// Whether the bytes of `b` from `o` on spell out `pat`.
pub open spec fn bytes_at(b: Seq<u8>, o: int, pat: Seq<u8>) -> bool {
    0 <= o && o + pat.len() <= b.len() && b.subrange(o, o + pat.len()) == pat
}

pub proof fn lemma_pow256_pos(n: nat)
    ensures
        pow256(n) >= 1,
    decreases n,
{
    if n > 0 {
        lemma_pow256_pos((n - 1) as nat);
    }
}

/// A number of `n` bytes is below `256^n`.
pub proof fn lemma_le_bytes_bound(b: Seq<u8>, o: int, n: nat)
    ensures
        le_bytes(b, o, n) < pow256(n),
    decreases n,
{
    if n > 0 {
        lemma_le_bytes_bound(b, o + 1, (n - 1) as nat);
        let rest = le_bytes(b, o + 1, (n - 1) as nat);
        let p = pow256((n - 1) as nat);
        assert(b[o] as nat + 256 * rest < 256 * p) by (nonlinear_arith)
            requires
                rest < p,
                b[o] < 256,
        ;
    }
}

/// `256^n` grows with `n`.
pub proof fn lemma_pow256_mono(a: nat, b: nat)
    requires
        a <= b,
    ensures
        pow256(a) <= pow256(b),
    decreases b,
{
    if a < b {
        lemma_pow256_mono(a, (b - 1) as nat);
        lemma_pow256_pos((b - 1) as nat);
    }
}

/// `2^n` grows strictly with `n`.
pub proof fn lemma_pow2_strict(a: nat, b: nat)
    requires
        a < b,
    ensures
        pow2(a) < pow2(b),
    decreases b,
{
    lemma_pow2_pos((b - 1) as nat);
    if a < b - 1 {
        lemma_pow2_strict(a, (b - 1) as nat);
    }
}

pub proof fn lemma_pow2_pos(n: nat)
    ensures
        pow2(n) >= 1,
    decreases n,
{
    if n > 0 {
        lemma_pow2_pos((n - 1) as nat);
    }
}

pub proof fn lemma_pow2_values()
    ensures
        pow2(9) == 512,
        pow2(10) == 1024,
        pow2(11) == 2048,
        pow2(12) == 4096,
        pow2(13) == 8192,
        pow2(14) == 16384,
        pow2(15) == 32768,
        pow2(16) == 65536,
{
    reveal_with_fuel(pow2, 17);
}

pub proof fn lemma_pow256_values()
    ensures
        pow256(0) == 1,
        pow256(1) == 256,
        pow256(2) == 65536,
        pow256(3) == 16777216,
        pow256(4) == 4294967296,
        pow256(5) == 1099511627776,
        pow256(6) == 281474976710656,
        pow256(7) == 72057594037927936,
        pow256(8) == 18446744073709551616,
{
    reveal_with_fuel(pow256, 9);
}

/// Reads `n <= 8` bytes as an unsigned little-endian number.
pub fn read_le(b: &[u8], o: usize, n: usize) -> (r: u64)
    requires
        n <= 8,
        o + n <= b@.len(),
    ensures
        r == le_bytes(b@, o as int, n as nat),
{
    let mut acc: u64 = 0;
    let mut j: usize = n;
    proof {
        lemma_pow256_values();
    }
    while j > 0
        invariant
            n <= 8,
            o + n <= b.len(),
            j <= n,
            acc == le_bytes(b@, o + j, (n - j) as nat),
            pow256(0) == 1 && pow256(1) == 256 && pow256(2) == 65536 && pow256(3) == 16777216
                && pow256(4) == 4294967296 && pow256(5) == 1099511627776 && pow256(6)
                == 281474976710656 && pow256(7) == 72057594037927936 && pow256(8)
                == 18446744073709551616,
        decreases j,
    {
        j = j - 1;
        proof {
            lemma_le_bytes_bound(b@, o + j + 1, (n - j - 1) as nat);
            assert(pow256((n - j - 1) as nat) <= 72057594037927936);
        }
        acc = (b[o + j] as u64) + 256 * acc;
        assert(acc == le_bytes(b@, o + j, (n - j) as nat));
    }
    acc
}

/// Reads the little-endian `u16` at `off`, or 0 when it does not lie wholly inside `b`.
pub fn u16le(b: &[u8], off: usize) -> (r: u16)
    ensures
        off + 2 <= b@.len() ==> r == le16(b@, off as int),
        off + 2 > b@.len() ==> r == 0,
{
    if off <= b.len() && b.len() - off >= 2 {
        (b[off] as u16) + 256 * (b[off + 1] as u16)
    } else {
        0
    }
}

/// Reads the little-endian `u32` at `off`, or 0 when it does not lie wholly inside `b`.
pub fn u32le(b: &[u8], off: usize) -> (r: u32)
    ensures
        off + 4 <= b@.len() ==> r == le32(b@, off as int),
        off + 4 > b@.len() ==> r == 0,
{
    if off <= b.len() && b.len() - off >= 4 {
        let lo = (b[off] as u32) + 256 * (b[off + 1] as u32);
        let hi = (b[off + 2] as u32) + 256 * (b[off + 3] as u32);
        lo + 65536 * hi
    } else {
        0
    }
}

/// Reads the little-endian `u64` at `off`, or 0 when it does not lie wholly inside `b`.
pub fn u64le(b: &[u8], off: usize) -> (r: u64)
    ensures
        off + 8 <= b@.len() ==> r == le64(b@, off as int),
        off + 8 > b@.len() ==> r == 0,
{
    if off <= b.len() && b.len() - off >= 8 {
        let lo = u32le(b, off) as u64;
        let hi = u32le(b, off + 4) as u64;
        lo + 4294967296 * hi
    } else {
        0
    }
}

/// Whether the bytes of `b` from `off` on spell out `pat`.
pub fn bytes_match(b: &[u8], off: usize, pat: &[u8]) -> (r: bool)
    ensures
        r == bytes_at(b@, off as int, pat@),
{
    if off > b.len() || b.len() - off < pat.len() {
        return false;
    }
    let mut k: usize = 0;
    while k < pat.len()
        invariant
            off + pat@.len() <= b.len(),
            k <= pat@.len(),
            forall|j: int| 0 <= j < k ==> b@[off + j] == pat@[j],
        decreases pat@.len() - k,
    {
        if b[off + k] != pat[k] {
            assert(b@.subrange(off as int, off + pat@.len())[k as int] != pat@[k as int]);
            return false;
        }
        k = k + 1;
    }
    assert(b@.subrange(off as int, off + pat@.len()) =~= pat@);
    true
}

/// Whether every byte of `b` in `[from, to)` is zero.
pub fn all_zero(b: &[u8], from: usize, to: usize) -> (r: bool)
    requires
        from <= to <= b@.len(),
    ensures
        r == (forall|j: int| from <= j < to ==> b@[j] == 0),
{
    let mut k = from;
    while k < to
        invariant
            from <= k <= to <= b@.len(),
            forall|j: int| from <= j < k ==> b@[j] == 0,
        decreases to - k,
    {
        if b[k] != 0 {
            return false;
        }
        k = k + 1;
    }
    true
}

} // verus!
