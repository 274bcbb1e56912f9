//! Chained hashers: each key owns a block of `2^block_bits` slots that holds
//! the most recent positions stored under it, newest last.
use vstd::prelude::*;

use crate::dictionary::{dict_search, kHashMul32, BrotliDictionary, SearchInStaticDictionary};
use crate::distance_cache::PrepareDistanceCache;
use crate::hasher::{
    agree_at, lemma_dict_probe_valid, probe_requires, take_candidate, valid_search_result,
    AnyHasher, ProbeState,
};
use crate::params::BrotliHasherParams;
use crate::score::{
    penalty, score, score_last_distance, BackwardReferencePenaltyUsingLastDistance, BackwardReferenceScore,
    BackwardReferenceScoreUsingLastDistance,
};
use crate::search::{HasherSearchResult, Struct1};
use crate::util::{
    bytes_agree_at, le32, le64, lemma_mask_le, lemma_match_len, match_len, BROTLI_UNALIGNED_LOAD32,
    BROTLI_UNALIGNED_LOAD64, FindMatchLengthWithLimit,
};

verus! {

/// Multiplier of the variable-width 64-bit hash.
pub const kHashMul64Long: u64 = 0x1fe35a7b_d3579bd3;

/// Hash width and key function of a chained hasher.
pub trait AdvHashSpecialization {
    /// Mask applied to the eight bytes read before hashing.
    spec fn hash_mask(&self) -> u64;

    /// Bytes read to hash a position (and to store one).
    spec fn type_length(&self) -> usize;

    /// Mask that hashing `params_hash_len` bytes calls for.
    spec fn mask_for(&self, params_hash_len: i32) -> u64;

    /// Key, below `2^bucket_bits`, of the position whose bytes start at `ix`.
    spec fn key(&self, data: Seq<u8>, ix: int, bucket_bits: i32) -> u32;

    fn get_hash_mask(&self) -> (r: u64)
        ensures
            r == self.hash_mask(),
    ;

    /// Sets the number of bytes hashed, where the specialization has a
    /// choice.
    fn set_hash_mask(&mut self, params_hash_len: i32)
        requires
            1 <= params_hash_len <= 8,
        ensures
            final(self).type_length() == old(self).type_length(),
            final(self).hash_mask() == old(self).mask_for(params_hash_len),
    ;

    fn HashTypeLength(&self) -> (r: usize)
        ensures
            r == self.type_length(),
            4 <= r <= 8,
    ;

    fn StoreLookahead(&self) -> (r: usize)
        ensures
            r == self.type_length(),
            4 <= r <= 8,
    ;

    fn HashBytes(&self, data: &[u8], ix: usize, bucket_bits: i32) -> (r: u32)
        requires
            ix + 8 <= data@.len(),
            1 <= bucket_bits <= 24,
        ensures
            r == self.key(data@, ix as int, bucket_bits),
            (r as u64) < (1u64 << bucket_bits as u64),
    ;
}

/// Four bytes hashed with the 32-bit multiplier.
#[derive(Clone, Copy, Debug)]
pub struct H5Sub {}

/// Five to eight bytes, masked, hashed with the 64-bit multiplier.
#[derive(Clone, Copy, Debug)]
pub struct H6Sub {
    pub hash_mask: u64,
}

/// Key of the H5 hash: four little-endian bytes to `bits` bits.
pub open spec fn hash_h5(v: u32, bits: i32) -> u32 {
    v.wrapping_mul(kHashMul32) >> ((32 - bits) as u32)
}

/// Key of the H6 hash: masked eight bytes to `bits` bits.
pub open spec fn hash_h6(v: u64, mask: u64, bits: i32) -> u32 {
    ((v & mask).wrapping_mul(kHashMul64Long) >> ((64 - bits) as u64)) as u32
}

impl AdvHashSpecialization for H5Sub {
    open spec fn hash_mask(&self) -> u64 {
        0xffff_ffff_ffff_ffff
    }

    open spec fn type_length(&self) -> usize {
        4
    }

    open spec fn mask_for(&self, params_hash_len: i32) -> u64 {
        0xffff_ffff_ffff_ffff
    }

    open spec fn key(&self, data: Seq<u8>, ix: int, bucket_bits: i32) -> u32 {
        hash_h5(le32(data, ix), bucket_bits)
    }

    fn get_hash_mask(&self) -> (r: u64) {
        0xffff_ffff_ffff_ffff
    }

    fn set_hash_mask(&mut self, params_hash_len: i32) {
    }

    fn HashTypeLength(&self) -> (r: usize) {
        4
    }

    fn StoreLookahead(&self) -> (r: usize) {
        4
    }

    fn HashBytes(&self, data: &[u8], ix: usize, bucket_bits: i32) -> (r: u32) {
        let h: u32 = BROTLI_UNALIGNED_LOAD32(data, ix).wrapping_mul(kHashMul32);
        let shift: u32 = (32 - bucket_bits) as u32;
        let r: u32 = h >> shift;
        let b: u64 = bucket_bits as u64;
        assert((r as u64) < (1u64 << b)) by (bit_vector)
            requires
                r == h >> shift,
                shift == 32 - b,
                1 <= b <= 24,
        ;
        r
    }
}

impl AdvHashSpecialization for H6Sub {
    open spec fn hash_mask(&self) -> u64 {
        self.hash_mask
    }

    open spec fn type_length(&self) -> usize {
        8
    }

    /// The low `8 * params_hash_len` bits.
    open spec fn mask_for(&self, params_hash_len: i32) -> u64 {
        0xffff_ffff_ffff_ffffu64 >> (64 - 8 * params_hash_len) as u64
    }

    open spec fn key(&self, data: Seq<u8>, ix: int, bucket_bits: i32) -> u32 {
        hash_h6(le64(data, ix), self.hash_mask, bucket_bits)
    }

    fn get_hash_mask(&self) -> (r: u64) {
        self.hash_mask
    }

    fn set_hash_mask(&mut self, params_hash_len: i32) {
        self.hash_mask = 0xffff_ffff_ffff_ffffu64 >> (64 - 8 * params_hash_len) as u64;
    }

    fn HashTypeLength(&self) -> (r: usize) {
        8
    }

    fn StoreLookahead(&self) -> (r: usize) {
        8
    }

    fn HashBytes(&self, data: &[u8], ix: usize, bucket_bits: i32) -> (r: u32) {
        let h: u64 = (BROTLI_UNALIGNED_LOAD64(data, ix) & self.hash_mask).wrapping_mul(
            kHashMul64Long,
        );
        let shift: u64 = (64 - bucket_bits) as u64;
        let r64: u64 = h >> shift;
        let b: u64 = bucket_bits as u64;
        assert(r64 < (1u64 << b)) by (bit_vector)
            requires
                r64 == h >> shift,
                shift == 64 - b,
                1 <= b <= 24,
        ;
        assert(1u64 << b <= 0x100_0000) by (bit_vector)
            requires
                1 <= b <= 24,
        ;
        r64 as u32
    }
}

/// The probe state after trying cache slot `i` as a chained or banked
/// hasher does: copies of three bytes or more, or of two from the two
/// newest slots, scored less the slot's penalty. Banked hashers first
/// compare the key fingerprint (`tiny_ok`).
pub open spec fn cache_slot_step(
    data: Seq<u8>,
    mask: usize,
    distance_cache: Seq<i32>,
    cur_ix: usize,
    max_length: usize,
    max_backward: usize,
    i: int,
    banked: bool,
    tiny_ok: bool,
    st: ProbeState,
) -> ProbeState {
    let cached = distance_cache[i];
    let cur_m = (cur_ix & mask) as int;
    let prev = ((cur_ix - cached) as usize & mask) as int;
    let len = match_len(data, prev, data, cur_m, max_length as nat) as usize;
    let sc = score_last_distance(len as int) as usize;
    let sc2: usize = if i != 0 {
        (sc - penalty(i as usize)) as usize
    } else {
        sc
    };
    let checks = if banked {
        (i == 0 || tiny_ok) && len >= 2
    } else {
        st.best_len <= mask - cur_m && st.best_len <= mask - prev && agree_at(
            data,
            prev,
            cur_m,
            st.best_len as int,
        ) && (len >= 3 || (len == 2 && i < 2))
    };
    if 0 < cached && cached as usize <= max_backward && checks && st.best_score < sc
        && st.best_score < sc2 {
        take_candidate(st, len, cached as usize, sc2)
    } else {
        st
    }
}

/// The probe state after trying the first `k` cache slots of a chained
/// hasher.
pub open spec fn adv_cache_slots(
    data: Seq<u8>,
    mask: usize,
    distance_cache: Seq<i32>,
    cur_ix: usize,
    max_length: usize,
    max_backward: usize,
    st: ProbeState,
    k: nat,
) -> ProbeState
    decreases k,
{
    if k == 0 {
        st
    } else {
        cache_slot_step(
            data,
            mask,
            distance_cache,
            cur_ix,
            max_length,
            max_backward,
            k - 1,
            false,
            true,
            adv_cache_slots(data, mask, distance_cache, cur_ix, max_length, max_backward, st, (k - 1) as nat),
        )
    }
}

/// The probe state after trying a position `prev` of a chain or list, and
/// whether the walk stops there because it lies beyond `max_backward`.
pub open spec fn chain_step(
    data: Seq<u8>,
    mask: usize,
    cur_ix: usize,
    max_length: usize,
    max_backward: usize,
    backward: usize,
    st: ProbeState,
) -> ProbeState {
    let cur_m = (cur_ix & mask) as int;
    let prev_ix = ((cur_ix - backward) as usize & mask) as int;
    let len = match_len(data, prev_ix, data, cur_m, max_length as nat) as usize;
    let sc = score(len as int, backward as nat) as usize;
    if backward != 0 && st.best_len <= mask - cur_m && st.best_len <= mask - prev_ix && agree_at(
        data,
        prev_ix,
        cur_m,
        st.best_len as int,
    ) && len >= 4 && st.best_score < sc {
        take_candidate(st, len, backward, sc)
    } else {
        st
    }
}

/// The probe state, and whether the walk stopped, after visiting the `k`
/// newest of the `n` positions counted for a key, whose block starts at
/// `base`.
pub open spec fn adv_chain(
    buckets: Seq<u32>,
    base: int,
    block_mask: u32,
    n: int,
    data: Seq<u8>,
    mask: usize,
    cur_ix: usize,
    max_length: usize,
    max_backward: usize,
    st: ProbeState,
    k: nat,
) -> (ProbeState, bool)
    decreases k,
{
    if k == 0 {
        (st, false)
    } else {
        let s = adv_chain(buckets, base, block_mask, n, data, mask, cur_ix, max_length, max_backward, st, (k - 1) as nat);
        let j = (n - k) as usize;
        let prev = buckets[base + (j & block_mask as usize)] as usize;
        let backward = cur_ix.wrapping_sub(prev);
        if s.1 {
            s
        } else if backward > max_backward {
            (s.0, true)
        } else {
            (chain_step(data, mask, cur_ix, max_length, max_backward, backward, s.0), false)
        }
    }
}

proof fn lemma_adv_chain_stopped(
    buckets: Seq<u32>,
    base: int,
    block_mask: u32,
    n: int,
    data: Seq<u8>,
    mask: usize,
    cur_ix: usize,
    max_length: usize,
    max_backward: usize,
    st: ProbeState,
    k: nat,
    k2: nat,
)
    requires
        k <= k2,
        adv_chain(buckets, base, block_mask, n, data, mask, cur_ix, max_length, max_backward, st, k).1,
    ensures
        adv_chain(buckets, base, block_mask, n, data, mask, cur_ix, max_length, max_backward, st, k2)
            == adv_chain(buckets, base, block_mask, n, data, mask, cur_ix, max_length, max_backward, st, k),
    decreases k2,
{
    if k2 > k {
        lemma_adv_chain_stopped(buckets, base, block_mask, n, data, mask, cur_ix, max_length, max_backward, st, k, (k2 - 1) as nat);
    }
}

/// A chained hasher: per key a counter of stored positions and a block of
/// `block_size_` slots, written in turn.
pub struct AdvHasher<S: AdvHashSpecialization> {
    pub common: Struct1,
    pub bucket_size_: u64,
    pub block_size_: u64,
    pub specialization: S,
    pub hash_shift_: i32,
    pub block_mask_: u32,
    pub num: Vec<u16>,
    pub buckets: Vec<u32>,
}

/// Hasher parameters a chained hasher can be built with.
pub open spec fn adv_params_ok(p: BrotliHasherParams) -> bool {
    &&& 1 <= p.bucket_bits <= 24
    &&& 1 <= p.block_bits <= 24
    &&& 0 <= p.num_last_distances_to_check <= 16
    &&& 1 <= p.hash_len <= 8
    &&& (1u64 << p.bucket_bits as u64) * (1u64 << p.block_bits as u64) <= usize::MAX
}

impl<S: AdvHashSpecialization> AdvHasher<S> {
    /// An empty chained hasher with the shape `params` asks for, or `None`
    /// where the parameters are out of range.
    pub fn new(specialization: S, params: BrotliHasherParams) -> (r: Option<Self>)
        ensures
            r is Some <==> adv_params_ok(params),
            r is Some ==> r->0.inv() && r->0.common == (Struct1 {
                params,
                is_prepared_: 1,
                dict_num_lookups: 0,
                dict_num_matches: 0,
            }),
    {
        if !(1 <= params.bucket_bits && params.bucket_bits <= 24 && 1 <= params.block_bits
            && params.block_bits <= 24 && 0 <= params.num_last_distances_to_check
            && params.num_last_distances_to_check <= 16 && 1 <= params.hash_len && params.hash_len
            <= 8) {
            return None;
        }
        let bb0: u64 = params.bucket_bits as u64;
        let kb0: u64 = params.block_bits as u64;
        assert((1u64 << bb0) <= 0x100_0000 && (1u64 << kb0) <= 0x100_0000) by (bit_vector)
            requires
                1 <= bb0 <= 24,
                1 <= kb0 <= 24,
        ;
        assert((1u64 << bb0) * (1u64 << kb0) <= 0x100_0000 * 0x100_0000) by (nonlinear_arith)
            requires
                (1u64 << bb0) <= 0x100_0000,
                (1u64 << kb0) <= 0x100_0000,
        ;
        if (1u64 << bb0) * (1u64 << kb0) > usize::MAX as u64 {
            return None;
        }
        let mut specialization = specialization;
        specialization.set_hash_mask(params.hash_len);
        let bb: u64 = params.bucket_bits as u64;
        let kb: u64 = params.block_bits as u64;
        let bucket_size: u64 = 1u64 << bb;
        let block_size: u64 = 1u64 << kb;
        assert(1 <= (1u64 << bb) <= 0x100_0000) by (bit_vector)
            requires
                1 <= bb <= 24,
        ;
        assert(2 <= (1u64 << kb) <= 0x100_0000) by (bit_vector)
            requires
                1 <= kb <= 24,
        ;
        assert(bucket_size * block_size <= 0x100_0000 * 0x100_0000) by (nonlinear_arith)
            requires
                bucket_size <= 0x100_0000,
                block_size <= 0x100_0000,
        ;
        let num: Vec<u16> = vec![0u16; bucket_size as usize];
        let buckets: Vec<u32> = vec![0u32; (bucket_size * block_size) as usize];
        let common = Struct1 {
            params,
            is_prepared_: 1,
            dict_num_lookups: 0,
            dict_num_matches: 0,
        };
        Some(
            AdvHasher {
                common,
                bucket_size_: bucket_size,
                block_size_: block_size,
                specialization,
                hash_shift_: 64 - params.bucket_bits,
                block_mask_: (block_size - 1) as u32,
                num,
                buckets,
            },
        )
    }
}

impl<S: AdvHashSpecialization> AnyHasher for AdvHasher<S> {
    open spec fn inv(&self) -> bool {
        &&& adv_params_ok(self.common.params)
        &&& self.bucket_size_ == 1u64 << self.common.params.bucket_bits as u64
        &&& 1 <= self.bucket_size_ <= 0x100_0000
        &&& 1 <= self.block_size_ <= 0x100_0000
        &&& self.block_mask_ as u64 + 1 == self.block_size_
        &&& self.num@.len() == self.bucket_size_
        &&& self.buckets@.len() == self.bucket_size_ * self.block_size_
    }

    open spec fn common(&self) -> Struct1 {
        self.common
    }

    open spec fn hash_type_length(&self) -> usize {
        self.specialization.type_length()
    }

    open spec fn store_lookahead(&self) -> usize {
        self.specialization.type_length()
    }

    open spec fn num_distances(&self) -> i32 {
        self.common.params.num_last_distances_to_check
    }

    open spec fn probe(
        &self,
        dict: &BrotliDictionary,
        dict_hash: Seq<u16>,
        data: Seq<u8>,
        mask: usize,
        distance_cache: Seq<i32>,
        cur_ix: usize,
        max_length: usize,
        max_backward: usize,
        out: HasherSearchResult,
    ) -> (bool, HasherSearchResult, Struct1) {
        let cur_m = (cur_ix & mask) as int;
        let st0 = ProbeState {
            found: false,
            best_score: out.score,
            best_len: out.len,
            out: HasherSearchResult { len: 0, len_x_code: 0, distance: out.distance, score: out.score },
        };
        let st1 = adv_cache_slots(
            data,
            mask,
            distance_cache,
            cur_ix,
            max_length,
            max_backward,
            st0,
            self.common.params.num_last_distances_to_check as nat,
        );
        let key = self.specialization.key(data, cur_m, self.common.params.bucket_bits) as int;
        let n = self.num@[key] as int;
        let down = if n > self.block_size_ {
            n - self.block_size_
        } else {
            0
        };
        let st2 = adv_chain(
            self.buckets@,
            key * self.block_size_,
            self.block_mask_,
            n,
            data,
            mask,
            cur_ix,
            max_length,
            max_backward,
            st1,
            (n - down) as nat,
        ).0;
        if !st2.found {
            dict_search(dict, dict_hash, data, cur_m, max_length, max_backward, st2.out, false, self.common)
        } else {
            (true, st2.out, self.common)
        }
    }

    open spec fn stored(&self, after: &Self, data: Seq<u8>, mask: usize, ix: usize) -> bool {
        let key = self.specialization.key(data, (ix & mask) as int, self.common.params.bucket_bits)
            as int;
        let n = self.num@[key];
        &&& after.specialization == self.specialization
        &&& after.bucket_size_ == self.bucket_size_
        &&& after.block_size_ == self.block_size_
        &&& after.block_mask_ == self.block_mask_
        &&& after.hash_shift_ == self.hash_shift_
        &&& after.num@ == self.num@.update(key, n.wrapping_add(1))
        &&& after.buckets@ == self.buckets@.update(
            key * self.block_size_ + (n as usize & self.block_mask_ as usize),
            ix as u32,
        )
    }

    fn GetHasherCommon(&self) -> (r: &Struct1) {
        &self.common
    }

    fn HashTypeLength(&self) -> (r: usize) {
        self.specialization.HashTypeLength()
    }

    fn StoreLookahead(&self) -> (r: usize) {
        self.specialization.StoreLookahead()
    }

    fn PrepareDistanceCache(&self, distance_cache: &mut [i32]) {
        PrepareDistanceCache(distance_cache, self.common.params.num_last_distances_to_check);
    }

    fn Store(&mut self, data: &[u8], mask: usize, ix: usize) {
        proof {
            lemma_mask_le(ix, mask);
        }
        let key: usize = self.specialization.HashBytes(
            data,
            ix & mask,
            self.common.params.bucket_bits,
        ) as usize;
        let base: usize = self.block_base(key);
        let n: u16 = self.num[key];
        let minor: usize = n as usize & self.block_mask_ as usize;
        proof {
            lemma_mask_le(n as usize, self.block_mask_ as usize);
            lemma_block_slot(key as nat, minor as nat, self.block_size_ as nat, self.bucket_size_ as nat);
        }
        self.buckets.set(base + minor, #[verifier::truncate] (ix as u32));
        self.num.set(key, n.wrapping_add(1));
    }

    fn FindLongestMatch(
        &mut self,
        dictionary: &BrotliDictionary,
        dictionary_hash: &[u16],
        data: &[u8],
        ring_buffer_mask: usize,
        distance_cache: &[i32],
        cur_ix: usize,
        max_length: usize,
        max_backward: usize,
        out: &mut HasherSearchResult,
    ) -> (found: bool) {
        let ghost seed = *out;
        let cur_ix_masked: usize = cur_ix & ring_buffer_mask;
        proof {
            lemma_mask_le(cur_ix, ring_buffer_mask);
        }
        let mut is_match_found: bool = false;
        let mut best_score: usize = out.score;
        let mut best_len: usize = out.len;
        out.len = 0;
        out.len_x_code = 0;
        let ghost st0 = ProbeState { found: false, best_score, best_len, out: *out };
        let num_distances: usize = self.common.params.num_last_distances_to_check as usize;
        let mut i: usize = 0;
        while i < num_distances
            invariant
                self.inv(),
                self == old(self),
                num_distances == self.common.params.num_last_distances_to_check,
                i <= num_distances,
                (ProbeState { found: is_match_found, best_score, best_len, out: *out })
                    == adv_cache_slots(
                    data@,
                    ring_buffer_mask,
                    distance_cache@,
                    cur_ix,
                    max_length,
                    max_backward,
                    st0,
                    i as nat,
                ),
                out.score == seed.score || is_match_found,
                probe_requires(
                    dictionary,
                    dictionary_hash@,
                    data@,
                    ring_buffer_mask,
                    distance_cache@,
                    cur_ix,
                    max_length,
                    max_backward,
                ),
                cur_ix_masked == cur_ix & ring_buffer_mask,
                cur_ix_masked <= ring_buffer_mask,
                best_score == out.score,
                is_match_found ==> best_len == out.len,
                out.len_x_code == 0,
                is_match_found == (out.score > seed.score),
                !is_match_found ==> out.score == seed.score,
                is_match_found ==> out.distance <= max_backward && valid_search_result(
                    dictionary,
                    data@,
                    ring_buffer_mask,
                    cur_ix,
                    max_length,
                    max_backward,
                    *out,
                ),
            decreases num_distances - i,
        {
            let cached: i32 = distance_cache[i];
            if 0 < cached && cached as usize <= max_backward {
                let backward: usize = cached as usize;
                let prev_ix: usize = (cur_ix - backward) & ring_buffer_mask;
                proof {
                    lemma_mask_le((cur_ix - backward) as usize, ring_buffer_mask);
                }
                if best_len <= ring_buffer_mask - cur_ix_masked && best_len <= ring_buffer_mask
                    - prev_ix && bytes_agree_at(data, prev_ix, cur_ix_masked, best_len) {
                    let len: usize = FindMatchLengthWithLimit(
                        data,
                        prev_ix,
                        data,
                        cur_ix_masked,
                        max_length,
                    );
                    proof {
                        lemma_match_len(
                            data@,
                            prev_ix as int,
                            data@,
                            cur_ix_masked as int,
                            max_length as nat,
                        );
                    }
                    if len >= 3 || (len == 2 && i < 2) {
                        let mut score: usize = BackwardReferenceScoreUsingLastDistance(len);
                        if best_score < score {
                            if i != 0 {
                                score = score - BackwardReferencePenaltyUsingLastDistance(i);
                            }
                            if best_score < score {
                                best_score = score;
                                best_len = len;
                                out.len = len;
                                out.distance = backward;
                                out.score = score;
                                is_match_found = true;
                            }
                        }
                    }
                }
            }
            i = i + 1;
        }
        let key: usize = self.specialization.HashBytes(
            data,
            cur_ix_masked,
            self.common.params.bucket_bits,
        ) as usize;
        let base: usize = self.block_base(key);
        let n: usize = self.num[key] as usize;
        let block_size: usize = self.block_size_ as usize;
        let down: usize = if n > block_size {
            n - block_size
        } else {
            0
        };
        let mut j: usize = n;
        let ghost st1 = ProbeState { found: is_match_found, best_score, best_len, out: *out };
        let ghost mut stopped = false;
        while j > down
            invariant_except_break
                !stopped,
            invariant
                self.inv(),
                self == old(self),
                down <= j <= n,
                n == self.num@[key as int],
                block_size == self.block_size_,
                (ProbeState { found: is_match_found, best_score, best_len, out: *out }, stopped)
                    == adv_chain(
                    self.buckets@,
                    base as int,
                    self.block_mask_,
                    n as int,
                    data@,
                    ring_buffer_mask,
                    cur_ix,
                    max_length,
                    max_backward,
                    st1,
                    (n - j) as nat,
                ),
                n < 0x1_0000,
                (key as u64) < self.bucket_size_,
                base == key * self.block_size_,
                base + self.block_size_ <= self.buckets@.len() <= usize::MAX,
                probe_requires(
                    dictionary,
                    dictionary_hash@,
                    data@,
                    ring_buffer_mask,
                    distance_cache@,
                    cur_ix,
                    max_length,
                    max_backward,
                ),
                cur_ix_masked == cur_ix & ring_buffer_mask,
                cur_ix_masked <= ring_buffer_mask,
                best_score == out.score,
                is_match_found ==> best_len == out.len,
                out.len_x_code == 0,
                is_match_found == (out.score > seed.score),
                !is_match_found ==> out.score == seed.score,
                is_match_found ==> out.distance <= max_backward && valid_search_result(
                    dictionary,
                    data@,
                    ring_buffer_mask,
                    cur_ix,
                    max_length,
                    max_backward,
                    *out,
                ),
            ensures
                stopped || j == down,
            decreases j,
        {
            j = j - 1;
            let minor: usize = j & (self.block_mask_ as usize);
            proof {
                lemma_mask_le(j, self.block_mask_ as usize);
                lemma_block_slot(key as nat, minor as nat, self.block_size_ as nat, self.bucket_size_ as nat);
            }
            let prev: usize = self.buckets[base + minor] as usize;
            let backward: usize = cur_ix.wrapping_sub(prev);
            if backward > max_backward {
                proof {
                    stopped = true;
                }
                break;
            }
            if backward != 0 {
                let prev_ix: usize = (cur_ix - backward) & ring_buffer_mask;
                proof {
                    lemma_mask_le((cur_ix - backward) as usize, ring_buffer_mask);
                }
                if best_len <= ring_buffer_mask - cur_ix_masked && best_len <= ring_buffer_mask
                    - prev_ix && bytes_agree_at(data, prev_ix, cur_ix_masked, best_len) {
                    let len: usize = FindMatchLengthWithLimit(
                        data,
                        prev_ix,
                        data,
                        cur_ix_masked,
                        max_length,
                    );
                    proof {
                        lemma_match_len(
                            data@,
                            prev_ix as int,
                            data@,
                            cur_ix_masked as int,
                            max_length as nat,
                        );
                    }
                    if len >= 4 {
                        let score: usize = BackwardReferenceScore(len, backward);
                        if best_score < score {
                            best_score = score;
                            best_len = len;
                            out.len = len;
                            out.distance = backward;
                            out.score = score;
                            is_match_found = true;
                        }
                    }
                }
            }
        }
        proof {
            if stopped {
                lemma_adv_chain_stopped(
                    self.buckets@,
                    base as int,
                    self.block_mask_,
                    n as int,
                    data@,
                    ring_buffer_mask,
                    cur_ix,
                    max_length,
                    max_backward,
                    st1,
                    (n - j) as nat,
                    (n - down) as nat,
                );
            }
        }
        let minor: usize = n & (self.block_mask_ as usize);
        proof {
            lemma_mask_le(n, self.block_mask_ as usize);
            lemma_block_slot(key as nat, minor as nat, self.block_size_ as nat, self.bucket_size_ as nat);
        }
        self.buckets.set(base + minor, #[verifier::truncate] (cur_ix as u32));
        let cnt: u16 = self.num[key];
        self.num.set(key, cnt.wrapping_add(1));
        if !is_match_found {
            proof {
                lemma_dict_probe_valid(
                    dictionary,
                    dictionary_hash@,
                    data@,
                    ring_buffer_mask,
                    cur_ix,
                    max_length,
                    max_backward,
                    *out,
                    false,
                );
            }
            is_match_found = SearchInStaticDictionary(
                dictionary,
                dictionary_hash,
                &mut self.common,
                data,
                cur_ix_masked,
                max_length,
                max_backward,
                out,
                0,
            ) != 0;
        }
        is_match_found
    }
}

proof fn lemma_block_slot(key: nat, minor: nat, block_size: nat, bucket_size: nat)
    requires
        key < bucket_size,
        minor < block_size,
    ensures
        key * block_size + minor < bucket_size * block_size,
{
    assert(key * block_size + minor < bucket_size * block_size) by (nonlinear_arith)
        requires
            key < bucket_size,
            minor < block_size,
    ;
}

impl<S: AdvHashSpecialization> AdvHasher<S> {
    /// First slot of the block of `key`.
    fn block_base(&self, key: usize) -> (r: usize)
        requires
            self.inv(),
            (key as u64) < self.bucket_size_,
        ensures
            r == key * self.block_size_,
            r + self.block_size_ <= self.buckets@.len(),
            self.buckets@.len() <= usize::MAX,
    {
        let total: usize = self.buckets.len();
        proof {
            assert((key + 1) * self.block_size_ <= self.bucket_size_ * self.block_size_)
                by (nonlinear_arith)
                requires
                    (key as u64) < self.bucket_size_,
            ;
            assert((key + 1) * self.block_size_ == key * self.block_size_ + self.block_size_)
                by (nonlinear_arith);
        }
        key * (self.block_size_ as usize)
    }
}

} // verus!
