//! Small integer and byte-sequence helpers shared by the hashers and the driver.
use vstd::arithmetic::power2::{lemma2_to64, lemma_pow2_unfold, pow2};
use vstd::prelude::*;

verus! {

/// The smaller of two sizes.
pub fn brotli_min_size_t(a: usize, b: usize) -> (r: usize)
    ensures
        r == if a < b { a } else { b },
{
    if a < b {
        a
    } else {
        b
    }
}

/// The larger of two sizes.
pub fn brotli_max_size_t(a: usize, b: usize) -> (r: usize)
    ensures
        r == if a > b { a } else { b },
{
    if a > b {
        a
    } else {
        b
    }
}

/// Index of the most significant set bit of `x` (0 for 0 and 1).
pub open spec fn log2_floor(x: nat) -> nat
    decreases x,
{
    if x <= 1 {
        0
    } else {
        1 + log2_floor(x / 2)
    }
}

/// Number of trailing zero bits of a nonzero `x`.
pub open spec fn trailing_zeros(x: nat) -> nat
    decreases x,
{
    if x == 0 || x % 2 == 1 {
        0
    } else {
        1 + trailing_zeros(x / 2)
    }
}

proof fn lemma_log2_floor_lt(x: nat, k: nat)
    requires
        1 <= k,
        x < pow2(k),
    ensures
        log2_floor(x) < k,
    decreases x,
{
    if x > 1 {
        lemma_pow2_unfold(k);
        if k == 1 {
            assert(pow2(0) == 1) by {
                lemma2_to64();
            }
        } else {
            lemma_log2_floor_lt(x / 2, (k - 1) as nat);
        }
    }
}

/// Every value of a machine word has its top bit below position 64.
pub proof fn lemma_log2_floor_word(x: nat)
    requires
        x <= usize::MAX,
    ensures
        log2_floor(x) < 64,
{
    lemma2_to64();
    lemma_log2_floor_lt(x, 64);
}

proof fn lemma_trailing_zeros_le_log2(x: nat)
    requires
        x > 0,
    ensures
        trailing_zeros(x) <= log2_floor(x),
    decreases x,
{
    if x % 2 == 0 {
        lemma_trailing_zeros_le_log2(x / 2);
    }
}

/// Position of the most significant set bit of a nonzero value.
pub fn Log2FloorNonZero(n: usize) -> (r: u32)
    requires
        n > 0,
    ensures
        r as nat == log2_floor(n as nat),
        r < 64,
{
    let mut v: usize = n;
    let mut r: u32 = 0;
    proof {
        lemma_log2_floor_word(n as nat);
    }
    while v > 1
        invariant
            v >= 1,
            r as nat + log2_floor(v as nat) == log2_floor(n as nat),
            log2_floor(n as nat) < 64,
        decreases v,
    {
        v = v / 2;
        r = r + 1;
    }
    r
}

/// Counts the trailing zero bits of a nonzero value, one bit at a time.
pub fn unopt_ctzll(val: usize) -> (r: u8)
    requires
        val != 0,
    ensures
        r as nat == trailing_zeros(val as nat),
{
    let mut v: usize = val;
    let mut cnt: u8 = 0;
    proof {
        lemma_log2_floor_word(val as nat);
        lemma_trailing_zeros_le_log2(val as nat);
    }
    while v % 2 == 0
        invariant
            v != 0,
            cnt as nat + trailing_zeros(v as nat) == trailing_zeros(val as nat),
            trailing_zeros(val as nat) < 64,
        decreases v,
    {
        v = v / 2;
        cnt = cnt + 1;
    }
    cnt
}

/// Length of the common prefix of `s1[a..]` and `s2[b..]`, at most `limit`.
pub open spec fn match_len(s1: Seq<u8>, a: int, s2: Seq<u8>, b: int, limit: nat) -> nat
    decreases limit,
{
    if limit == 0 || a < 0 || b < 0 || a >= s1.len() || b >= s2.len() || s1[a] != s2[b] {
        0
    } else {
        1 + match_len(s1, a + 1, s2, b + 1, (limit - 1) as nat)
    }
}

/// The common prefix counted by `match_len` lies inside both sequences and
/// really is common.
pub proof fn lemma_match_len(s1: Seq<u8>, a: int, s2: Seq<u8>, b: int, limit: nat)
    ensures
        match_len(s1, a, s2, b, limit) <= limit,
        match_len(s1, a, s2, b, limit) > 0 ==> 0 <= a && 0 <= b,
        a + match_len(s1, a, s2, b, limit) <= s1.len() || match_len(s1, a, s2, b, limit) == 0,
        b + match_len(s1, a, s2, b, limit) <= s2.len() || match_len(s1, a, s2, b, limit) == 0,
        forall|k: int|
            0 <= k < match_len(s1, a, s2, b, limit) ==> #[trigger] s1[a + k] == s2[b + k],
    decreases limit,
{
    if match_len(s1, a, s2, b, limit) > 0 {
        lemma_match_len(s1, a + 1, s2, b + 1, (limit - 1) as nat);
        assert forall|k: int| 0 <= k < match_len(s1, a, s2, b, limit) implies #[trigger] s1[a + k]
            == s2[b + k] by {
            if k > 0 {
                assert(s1[(a + 1) + (k - 1)] == s2[(b + 1) + (k - 1)]);
            }
        }
    }
}

/// Length of the common prefix of `s1[a..]` and `s2[b..]`, stopping at `limit`
/// or at the end of either slice.
pub fn FindMatchLengthWithLimit(s1: &[u8], a: usize, s2: &[u8], b: usize, limit: usize) -> (r: usize)
    ensures
        r as nat == match_len(s1@, a as int, s2@, b as int, limit as nat),
{
    let mut r: usize = 0;
    while r < limit && a < s1.len() - r && b < s2.len() - r && s1[a + r] == s2[b + r]
        invariant
            r <= limit,
            r <= s1@.len(),
            r <= s2@.len(),
            a + r <= s1@.len() || r == 0,
            b + r <= s2@.len() || r == 0,
            match_len(s1@, a as int, s2@, b as int, limit as nat) == r + match_len(
                s1@,
                a + r,
                s2@,
                b + r,
                (limit - r) as nat,
            ),
        decreases limit - r,
    {
        r = r + 1;
    }
    r
}

/// Little-endian value of the four bytes at `i`.
pub open spec fn le32(s: Seq<u8>, i: int) -> u32 {
    (s[i] as u32) | ((s[i + 1] as u32) << 8u32) | ((s[i + 2] as u32) << 16u32) | ((s[i + 3] as u32)
        << 24u32)
}

/// Little-endian value of the eight bytes at `i`.
pub open spec fn le64(s: Seq<u8>, i: int) -> u64 {
    (le32(s, i) as u64) | ((le32(s, i + 4) as u64) << 32u64)
}

/// Reads four bytes at `i` as a little-endian word.
pub fn BROTLI_UNALIGNED_LOAD32(data: &[u8], i: usize) -> (r: u32)
    requires
        i + 4 <= data@.len(),
    ensures
        r == le32(data@, i as int),
{
    (data[i] as u32) | ((data[i + 1] as u32) << 8u32) | ((data[i + 2] as u32) << 16u32) | ((data[i
        + 3] as u32) << 24u32)
}

/// Reads eight bytes at `i` as a little-endian word.
pub fn BROTLI_UNALIGNED_LOAD64(data: &[u8], i: usize) -> (r: u64)
    requires
        i + 8 <= data@.len(),
    ensures
        r == le64(data@, i as int),
{
    let _n: usize = data.len();
    let lo = BROTLI_UNALIGNED_LOAD32(data, i);
    let hi = BROTLI_UNALIGNED_LOAD32(data, i + 4);
    (lo as u64) | ((hi as u64) << 32u64)
}

/// Whether the bytes `off` past `a` and past `b` both exist and are equal.
pub fn bytes_agree_at(data: &[u8], a: usize, b: usize, off: usize) -> (r: bool)
    ensures
        r == (a + off < data@.len() && b + off < data@.len() && data@[a + off] == data@[b + off]),
{
    if off < data.len() && a < data.len() - off && b < data.len() - off {
        data[a + off] == data[b + off]
    } else {
        false
    }
}

/// Masking never yields more than the mask.
pub proof fn lemma_mask_le(x: usize, mask: usize)
    ensures
        x & mask <= mask,
{
    assert(x & mask <= mask) by (bit_vector);
}

} // verus!
