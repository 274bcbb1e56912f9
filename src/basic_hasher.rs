//! Sweep hashers: each key owns a few consecutive slots (one, two or four)
//! that are overwritten in turn.
use vstd::prelude::*;

use crate::dictionary::{dict_search, BrotliDictionary, SearchInStaticDictionary};
use crate::hasher::{
    agree_at, lemma_dict_probe_valid, probe_requires, take_candidate, valid_search_result,
    AnyHasher, ProbeState,
};
use crate::score::{
    score, score_last_distance, BackwardReferenceScore, BackwardReferenceScoreUsingLastDistance,
};
use crate::search::{HasherSearchResult, Struct1};
use crate::util::{
    bytes_agree_at, match_len, le64, lemma_mask_le, lemma_match_len, BROTLI_UNALIGNED_LOAD64,
    FindMatchLengthWithLimit,
};

verus! {

/// Multiplier of the 64-bit sweep hashes.
pub const kHashMul64: u64 = 0x1e35a7bd_1e35a7bd;

/// Multiply-and-shift hash of the low `64 - shl` bits of `v` to `bits` bits.
pub open spec fn hash_low_bytes(v: u64, shl: u64, bits: u64) -> u32 {
    ((v << shl).wrapping_mul(kHashMul64) >> ((64 - bits) as u64)) as u32
}

/// Bytes read to hash a position in a sweep hasher.
pub fn HashTypeLengthH2() -> (r: usize)
    ensures
        r == 8,
{
    8
}

/// Bytes that must follow a position stored in a sweep hasher.
pub fn StoreLookaheadH2() -> (r: usize)
    ensures
        r == 8,
{
    8
}

/// Sweep hashers probe no derived cache slots: the cache is left as it is.
pub fn PrepareDistanceCacheH2(distance_cache: &mut [i32])
    ensures
        final(distance_cache)@ == old(distance_cache)@,
{
}

/// 16-bit hash of the five bytes at `ix`.
pub fn HashBytesH2(data: &[u8], ix: usize) -> (r: u32)
    requires
        ix + 8 <= data@.len(),
    ensures
        r == hash_low_bytes(le64(data@, ix as int), 24, 16),
        r < 0x10000,
{
    let h: u64 = (BROTLI_UNALIGNED_LOAD64(data, ix) << 24u64).wrapping_mul(kHashMul64);
    assert(h >> 48u64 < 0x10000) by (bit_vector);
    (h >> 48u64) as u32
}

/// Shape of a sweep hasher: hash, bucket count and sweep width.
pub trait BasicHashComputer {
    /// Number of keys.
    spec fn bucket_count(&self) -> nat;

    /// Slots per key.
    spec fn sweep(&self) -> nat;

    spec fn uses_dictionary(&self) -> bool;

    /// Key of the position whose bytes start at `ix`.
    spec fn key(&self, data: Seq<u8>, ix: int) -> u32;

    fn HashBytes(&self, data: &[u8], ix: usize) -> (r: u32)
        requires
            ix + 8 <= data@.len(),
        ensures
            r == self.key(data@, ix as int),
            (r as nat) < self.bucket_count(),
    ;

    fn BUCKET_BITS(&self) -> (r: i32)
        ensures
            1 <= r <= 20,
            (1usize << r as usize) as nat == self.bucket_count(),
    ;

    fn BUCKET_SWEEP(&self) -> (r: i32)
        ensures
            r as nat == self.sweep(),
            1 <= r <= 4,
    ;

    fn USE_DICTIONARY(&self) -> (r: i32)
        ensures
            (r != 0) == self.uses_dictionary(),
    ;
}

/// Tag of the sweep hasher H2: five bytes to 16 bits, one slot, dictionary.
#[derive(Clone, Copy, Debug)]
pub struct H2Sub {}

/// Tag of the sweep hasher H3: five bytes to 16 bits, two slots.
#[derive(Clone, Copy, Debug)]
pub struct H3Sub {}

/// Tag of the sweep hasher H4: five bytes to 17 bits, four slots, dictionary.
#[derive(Clone, Copy, Debug)]
pub struct H4Sub {}

/// Tag of the sweep hasher H54: seven bytes to 20 bits, four slots.
#[derive(Clone, Copy, Debug)]
pub struct H54Sub {}

impl BasicHashComputer for H2Sub {
    open spec fn bucket_count(&self) -> nat {
        0x10000
    }

    open spec fn sweep(&self) -> nat {
        1
    }

    open spec fn uses_dictionary(&self) -> bool {
        true
    }

    open spec fn key(&self, data: Seq<u8>, ix: int) -> u32 {
        hash_low_bytes(le64(data, ix), 24, 16)
    }

    fn HashBytes(&self, data: &[u8], ix: usize) -> (r: u32) {
        HashBytesH2(data, ix)
    }

    fn BUCKET_BITS(&self) -> (r: i32) {
        assert(1usize << 16usize == 0x10000) by (bit_vector);
        16
    }

    fn BUCKET_SWEEP(&self) -> (r: i32) {
        1
    }

    fn USE_DICTIONARY(&self) -> (r: i32) {
        1
    }
}

impl BasicHashComputer for H3Sub {
    open spec fn bucket_count(&self) -> nat {
        0x10000
    }

    open spec fn sweep(&self) -> nat {
        2
    }

    open spec fn uses_dictionary(&self) -> bool {
        false
    }

    open spec fn key(&self, data: Seq<u8>, ix: int) -> u32 {
        hash_low_bytes(le64(data, ix), 24, 16)
    }

    fn HashBytes(&self, data: &[u8], ix: usize) -> (r: u32) {
        HashBytesH2(data, ix)
    }

    fn BUCKET_BITS(&self) -> (r: i32) {
        assert(1usize << 16usize == 0x10000) by (bit_vector);
        16
    }

    fn BUCKET_SWEEP(&self) -> (r: i32) {
        2
    }

    fn USE_DICTIONARY(&self) -> (r: i32) {
        0
    }
}

impl BasicHashComputer for H4Sub {
    open spec fn bucket_count(&self) -> nat {
        0x20000
    }

    open spec fn sweep(&self) -> nat {
        4
    }

    open spec fn uses_dictionary(&self) -> bool {
        true
    }

    open spec fn key(&self, data: Seq<u8>, ix: int) -> u32 {
        hash_low_bytes(le64(data, ix), 24, 17)
    }

    fn HashBytes(&self, data: &[u8], ix: usize) -> (r: u32) {
        let h: u64 = (BROTLI_UNALIGNED_LOAD64(data, ix) << 24u64).wrapping_mul(kHashMul64);
        assert(h >> 47u64 < 0x20000) by (bit_vector);
        (h >> 47u64) as u32
    }

    fn BUCKET_BITS(&self) -> (r: i32) {
        assert(1usize << 17usize == 0x20000) by (bit_vector);
        17
    }

    fn BUCKET_SWEEP(&self) -> (r: i32) {
        4
    }

    fn USE_DICTIONARY(&self) -> (r: i32) {
        1
    }
}

impl BasicHashComputer for H54Sub {
    open spec fn bucket_count(&self) -> nat {
        0x100000
    }

    open spec fn sweep(&self) -> nat {
        4
    }

    open spec fn uses_dictionary(&self) -> bool {
        false
    }

    open spec fn key(&self, data: Seq<u8>, ix: int) -> u32 {
        hash_low_bytes(le64(data, ix), 8, 20)
    }

    fn HashBytes(&self, data: &[u8], ix: usize) -> (r: u32) {
        let h: u64 = (BROTLI_UNALIGNED_LOAD64(data, ix) << 8u64).wrapping_mul(kHashMul64);
        assert(h >> 44u64 < 0x100000) by (bit_vector);
        (h >> 44u64) as u32
    }

    fn BUCKET_BITS(&self) -> (r: i32) {
        assert(1usize << 20usize == 0x100000) by (bit_vector);
        20
    }

    fn BUCKET_SWEEP(&self) -> (r: i32) {
        4
    }

    fn USE_DICTIONARY(&self) -> (r: i32) {
        0
    }
}

/// The probe state after trying cache slot 0 of `distance_cache` as a
/// sweep hasher does: only copies of at least four bytes count.
pub open spec fn sweep_cache_step(
    data: Seq<u8>,
    mask: usize,
    distance_cache: Seq<i32>,
    cur_ix: usize,
    max_length: usize,
    max_backward: usize,
    st: ProbeState,
) -> ProbeState {
    let cached = distance_cache[0];
    let cur_m = (cur_ix & mask) as int;
    if 0 < cached && cached as usize <= max_backward {
        let prev = ((cur_ix - cached) as usize & mask) as int;
        let len = match_len(data, prev, data, cur_m, max_length as nat) as usize;
        let sc = score_last_distance(len as int) as usize;
        if agree_at(data, prev, cur_m, st.best_len as int) && len >= 4 && st.best_score < sc {
            take_candidate(st, len, cached as usize, sc)
        } else {
            st
        }
    } else {
        st
    }
}

/// The probe state after trying the position `prev` stored in a sweep slot.
pub open spec fn sweep_slot_step(
    data: Seq<u8>,
    mask: usize,
    cur_ix: usize,
    max_length: usize,
    max_backward: usize,
    prev: usize,
    st: ProbeState,
) -> ProbeState {
    let cur_m = (cur_ix & mask) as int;
    let backward = cur_ix.wrapping_sub(prev);
    if backward != 0 && backward <= max_backward {
        let prev_ix = ((cur_ix - backward) as usize & mask) as int;
        let len = match_len(data, prev_ix, data, cur_m, max_length as nat) as usize;
        let sc = score(len as int, backward as nat) as usize;
        if agree_at(data, prev_ix, cur_m, st.best_len as int) && len >= 4 && st.best_score < sc {
            take_candidate(st, len, backward, sc)
        } else {
            st
        }
    } else {
        st
    }
}

/// The probe state after trying the first `k` slots of the key's sweep.
pub open spec fn sweep_slots(
    buckets: Seq<u32>,
    key: int,
    data: Seq<u8>,
    mask: usize,
    cur_ix: usize,
    max_length: usize,
    max_backward: usize,
    st: ProbeState,
    k: nat,
) -> ProbeState
    decreases k,
{
    if k == 0 {
        st
    } else {
        sweep_slot_step(
            data,
            mask,
            cur_ix,
            max_length,
            max_backward,
            buckets[key + k - 1] as usize,
            sweep_slots(buckets, key, data, mask, cur_ix, max_length, max_backward, st, (k - 1) as nat),
        )
    }
}

/// A sweep hasher: `bucket_count + sweep` slots of absolute positions.
pub struct BasicHasher<T: BasicHashComputer> {
    pub common: Struct1,
    pub buckets_: Vec<u32>,
    pub sub: T,
}

impl<T: BasicHashComputer> BasicHasher<T> {
    /// An empty sweep hasher of shape `sub`.
    pub fn new(sub: T, common: Struct1) -> (r: Self)
        ensures
            r.inv(),
            r.common == common,
    {
        let bits: i32 = sub.BUCKET_BITS();
        let sweep: i32 = sub.BUCKET_SWEEP();
        let n: usize = 1usize << bits as usize;
        assert(1usize << bits as usize <= 0x100000) by (bit_vector)
            requires
                1 <= bits <= 20,
        ;
        let buckets_: Vec<u32> = vec![0u32; n + sweep as usize];
        BasicHasher { common, buckets_, sub }
    }
}

impl<T: BasicHashComputer> AnyHasher for BasicHasher<T> {
    open spec fn inv(&self) -> bool {
        &&& self.buckets_@.len() == self.sub.bucket_count() + self.sub.sweep()
        &&& self.sub.bucket_count() <= 0x100000
        &&& 1 <= self.sub.sweep() <= 4
    }

    open spec fn common(&self) -> Struct1 {
        self.common
    }

    open spec fn hash_type_length(&self) -> usize {
        8
    }

    open spec fn store_lookahead(&self) -> usize {
        8
    }

    open spec fn num_distances(&self) -> i32 {
        0
    }

    open spec fn probe(
        &self,
        dict: &BrotliDictionary,
        dict_hash: Seq<u16>,
        data: Seq<u8>,
        mask: usize,
        distance_cache: Seq<i32>,
        cur_ix: usize,
        max_length: usize,
        max_backward: usize,
        out: HasherSearchResult,
    ) -> (bool, HasherSearchResult, Struct1) {
        let cur_m = (cur_ix & mask) as int;
        let key = self.sub.key(data, cur_m) as int;
        let st0 = ProbeState {
            found: false,
            best_score: out.score,
            best_len: out.len,
            out: HasherSearchResult { len: out.len, len_x_code: 0, distance: out.distance, score: out.score },
        };
        let st1 = sweep_cache_step(data, mask, distance_cache, cur_ix, max_length, max_backward, st0);
        let st2 = if self.sub.sweep() == 1 {
            sweep_slot_step(
                data,
                mask,
                cur_ix,
                max_length,
                max_backward,
                self.buckets_@[key] as usize,
                st1,
            )
        } else {
            sweep_slots(
                self.buckets_@,
                key,
                data,
                mask,
                cur_ix,
                max_length,
                max_backward,
                st1,
                self.sub.sweep(),
            )
        };
        let prev = self.buckets_@[key] as usize;
        let backward = cur_ix.wrapping_sub(prev);
        let rejected = backward == 0 || backward > max_backward || !agree_at(
            data,
            ((cur_ix - backward) as usize & mask) as int,
            cur_m,
            st1.best_len as int,
        );
        if self.sub.sweep() == 1 && st1.found {
            (true, st1.out, self.common)
        } else if self.sub.sweep() == 1 && rejected {
            (false, st1.out, self.common)
        } else if self.sub.uses_dictionary() && !st2.found {
            dict_search(dict, dict_hash, data, cur_m, max_length, max_backward, st2.out, true, self.common)
        } else {
            (st2.found, st2.out, self.common)
        }
    }

    open spec fn stored(&self, after: &Self, data: Seq<u8>, mask: usize, ix: usize) -> bool {
        let key = self.sub.key(data, (ix & mask) as int) as int;
        &&& after.sub == self.sub
        &&& after.buckets_@ == self.buckets_@.update(
            key + (ix >> 3usize) as int % self.sub.sweep() as int,
            ix as u32,
        )
    }

    fn GetHasherCommon(&self) -> (r: &Struct1) {
        &self.common
    }

    fn HashTypeLength(&self) -> (r: usize) {
        HashTypeLengthH2()
    }

    fn StoreLookahead(&self) -> (r: usize) {
        StoreLookaheadH2()
    }

    fn PrepareDistanceCache(&self, distance_cache: &mut [i32]) {
        PrepareDistanceCacheH2(distance_cache);
    }

    fn Store(&mut self, data: &[u8], mask: usize, ix: usize) {
        proof {
            lemma_mask_le(ix, mask);
        }
        let key: usize = self.sub.HashBytes(data, ix & mask) as usize;
        let sweep: usize = self.sub.BUCKET_SWEEP() as usize;
        let off: usize = (ix >> 3usize) % sweep;
        self.buckets_.set(key + off, #[verifier::truncate] (ix as u32));
    }

    fn FindLongestMatch(
        &mut self,
        dictionary: &BrotliDictionary,
        dictionary_hash: &[u16],
        data: &[u8],
        ring_buffer_mask: usize,
        distance_cache: &[i32],
        cur_ix: usize,
        max_length: usize,
        max_backward: usize,
        out: &mut HasherSearchResult,
    ) -> (found: bool) {
        let ghost seed = *out;
        let ghost old_self = *self;
        let best_len_in: usize = out.len;
        let cur_ix_masked: usize = cur_ix & ring_buffer_mask;
        proof {
            lemma_mask_le(cur_ix, ring_buffer_mask);
        }
        let key: usize = self.sub.HashBytes(data, cur_ix_masked) as usize;
        let sweep: usize = self.sub.BUCKET_SWEEP() as usize;
        let mut best_score: usize = out.score;
        let mut best_len: usize = best_len_in;
        let mut is_match_found: bool = false;
        out.len_x_code = 0;
        let ghost st0 = ProbeState { found: false, best_score, best_len, out: *out };
        let ghost st1 = sweep_cache_step(
            data@,
            ring_buffer_mask,
            distance_cache@,
            cur_ix,
            max_length,
            max_backward,
            st0,
        );
        let cached: i32 = distance_cache[0];
        if 0 < cached && cached as usize <= max_backward {
            let cached_backward: usize = cached as usize;
            let prev_ix: usize = (cur_ix - cached_backward) & ring_buffer_mask;
            if bytes_agree_at(data, prev_ix, cur_ix_masked, best_len) {
                let len: usize = FindMatchLengthWithLimit(
                    data,
                    prev_ix,
                    data,
                    cur_ix_masked,
                    max_length,
                );
                proof {
                    lemma_match_len(data@, prev_ix as int, data@, cur_ix_masked as int, max_length as nat);
                }
                if len >= 4 {
                    let score: usize = BackwardReferenceScoreUsingLastDistance(len);
                    if best_score < score {
                        best_score = score;
                        best_len = len;
                        out.len = len;
                        out.distance = cached_backward;
                        out.score = score;
                        if sweep == 1 {
                            self.buckets_.set(key, #[verifier::truncate] (cur_ix as u32));
                            return true;
                        }
                        is_match_found = true;
                    }
                }
            }
        }
        assert(st1 == ProbeState { found: is_match_found, best_score, best_len, out: *out });
        if sweep == 1 {
            let prev: usize = self.buckets_[key] as usize;
            self.buckets_.set(key, #[verifier::truncate] (cur_ix as u32));
            let backward: usize = cur_ix.wrapping_sub(prev);
            if backward == 0 || backward > max_backward {
                return false;
            }
            let prev_ix: usize = (cur_ix - backward) & ring_buffer_mask;
            if !bytes_agree_at(data, prev_ix, cur_ix_masked, best_len_in) {
                return false;
            }
            let len: usize = FindMatchLengthWithLimit(data, prev_ix, data, cur_ix_masked, max_length);
            proof {
                lemma_match_len(data@, prev_ix as int, data@, cur_ix_masked as int, max_length as nat);
            }
            if len >= 4 {
                let score: usize = BackwardReferenceScore(len, backward);
                if best_score < score {
                    out.len = len;
                    out.distance = backward;
                    out.score = score;
                    return true;
                }
            }
        } else {
            let mut i: usize = 0;
            while i < sweep
                invariant
                    self.inv(),
                    self.common == old(self).common,
                    self.buckets_@ == old(self).buckets_@,
                    self.sub == old(self).sub,
                    sweep == self.sub.sweep(),
                    sweep != 1,
                    (key as nat) < self.sub.bucket_count(),
                    i <= sweep,
                    probe_requires(
                        dictionary,
                        dictionary_hash@,
                        data@,
                        ring_buffer_mask,
                        distance_cache@,
                        cur_ix,
                        max_length,
                        max_backward,
                    ),
                    cur_ix_masked == cur_ix & ring_buffer_mask,
                    cur_ix_masked <= ring_buffer_mask,
                    (ProbeState { found: is_match_found, best_score, best_len, out: *out })
                        == sweep_slots(
                        self.buckets_@,
                        key as int,
                        data@,
                        ring_buffer_mask,
                        cur_ix,
                        max_length,
                        max_backward,
                        st1,
                        i as nat,
                    ),
                    best_score == out.score,
                    best_len == out.len,
                    out.len_x_code == 0,
                    is_match_found == (out.score > seed.score),
                    !is_match_found ==> out.score == seed.score,
                    is_match_found ==> out.distance <= max_backward && valid_search_result(
                        dictionary,
                        data@,
                        ring_buffer_mask,
                        cur_ix,
                        max_length,
                        max_backward,
                        *out,
                    ),
                decreases sweep - i,
            {
                let prev: usize = self.buckets_[key + i] as usize;
                let backward: usize = cur_ix.wrapping_sub(prev);
                if backward != 0 && backward <= max_backward {
                    let prev_ix: usize = (cur_ix - backward) & ring_buffer_mask;
                    if bytes_agree_at(data, prev_ix, cur_ix_masked, best_len) {
                        let len: usize = FindMatchLengthWithLimit(
                            data,
                            prev_ix,
                            data,
                            cur_ix_masked,
                            max_length,
                        );
                        proof {
                            lemma_match_len(
                                data@,
                                prev_ix as int,
                                data@,
                                cur_ix_masked as int,
                                max_length as nat,
                            );
                        }
                        if len >= 4 {
                            let score: usize = BackwardReferenceScore(len, backward);
                            if best_score < score {
                                best_score = score;
                                best_len = len;
                                out.len = len;
                                out.distance = backward;
                                out.score = score;
                                is_match_found = true;
                            }
                        }
                    }
                }
                i = i + 1;
            }
        }
        if self.sub.USE_DICTIONARY() != 0 && !is_match_found {
            proof {
                lemma_dict_probe_valid(
                    dictionary,
                    dictionary_hash@,
                    data@,
                    ring_buffer_mask,
                    cur_ix,
                    max_length,
                    max_backward,
                    *out,
                    true,
                );
            }
            is_match_found = SearchInStaticDictionary(
                dictionary,
                dictionary_hash,
                &mut self.common,
                data,
                cur_ix_masked,
                max_length,
                max_backward,
                out,
                1,
            ) != 0;
        }
        let off: usize = (cur_ix >> 3usize) % sweep;
        self.buckets_.set(key + off, #[verifier::truncate] (cur_ix as u32));
        assert(self.buckets_@ =~= old(self).buckets_@.update(
            key + off,
            #[verifier::truncate] (cur_ix as u32),
        ));
        is_match_found
    }
}

} // verus!
