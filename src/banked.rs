//! Banked hashers: per key the newest position and the head of a linked
//! list of older ones, kept in banks of slots that record the gap to the
//! next older position.
use vstd::prelude::*;

use crate::adv_hasher::{cache_slot_step, chain_step};
use crate::dictionary::{dict_search, kHashMul32, BrotliDictionary, SearchInStaticDictionary};
use crate::distance_cache::PrepareDistanceCache;
use crate::hasher::{
    lemma_dict_probe_valid, probe_requires, valid_search_result, AnyHasher, ProbeState,
};
use crate::params::BrotliHasherParams;
use crate::score::{
    BackwardReferencePenaltyUsingLastDistance, BackwardReferenceScore,
    BackwardReferenceScoreUsingLastDistance,
};
use crate::search::{dict_probe_allowed, HasherSearchResult, Struct1};
use crate::util::{
    bytes_agree_at, le32, lemma_mask_le, lemma_match_len, BROTLI_UNALIGNED_LOAD32,
    FindMatchLengthWithLimit,
};

verus! {

/// Number of keys of a banked hasher.
pub const kBankedBucketCount: usize = 32768;

/// Number of entries of the fingerprint table.
pub const kTinyHashSize: usize = 65536;

/// Key of the banked hashes: four little-endian bytes to 15 bits.
pub open spec fn hash_h40(v: u32) -> u32 {
    v.wrapping_mul(kHashMul32) >> 17u32
}

/// 15-bit hash of the four bytes at `ix`.
pub fn HashBytesH40(data: &[u8], ix: usize) -> (r: usize)
    requires
        ix + 4 <= data@.len(),
    ensures
        r == hash_h40(le32(data@, ix as int)),
        r < kBankedBucketCount,
{
    let h: u32 = BROTLI_UNALIGNED_LOAD32(data, ix).wrapping_mul(kHashMul32);
    assert(h >> 17u32 < 32768) by (bit_vector);
    (h >> 17u32) as usize
}

/// Gap to the next older position (saturated at 0xFFFF) and index of its
/// slot.
#[derive(Clone, Copy, Debug)]
pub struct SlotH40 {
    pub delta: u16,
    pub next: u16,
}

/// A slot of the H41 banks.
#[derive(Clone, Copy, Debug)]
pub struct SlotH41 {
    pub delta: u16,
    pub next: u16,
}

/// A slot of the H42 banks.
#[derive(Clone, Copy, Debug)]
pub struct SlotH42 {
    pub delta: u16,
    pub next: u16,
}

/// The single bank of H40: 65536 slots.
pub struct BankH40 {
    pub slots: Vec<SlotH40>,
}

/// The single bank of H41: 65536 slots.
pub struct BankH41 {
    pub slots: Vec<SlotH41>,
}

/// One of the 512 banks of H42: 512 slots.
pub struct BankH42 {
    pub slots: Vec<SlotH42>,
}

/// Storage of a banked hasher, as the shared probe reads and writes it.
pub trait BankedStorage {
    spec fn storage_ok(&self) -> bool;

    spec fn spec_common(&self) -> Struct1;

    /// Distance-cache slots probed.
    spec fn spec_num_last(&self) -> usize;

    /// Newest position of each key.
    spec fn spec_addr(&self) -> Seq<u32>;

    /// Slot of the newest position of each key.
    spec fn spec_head(&self) -> Seq<u16>;

    /// Key fingerprints by the low 16 bits of a position.
    spec fn spec_tiny_hash(&self) -> Seq<u8>;

    spec fn spec_max_hops(&self) -> usize;

    /// `(delta, next)` of slot `idx` of the bank that `key` uses.
    spec fn spec_slot(&self, key: usize, idx: u16) -> (u16, u16);

    /// `after` is this storage with position `ix` of key `key` linked in as
    /// the newest of its key; parameters and statistics aside.
    spec fn linked(&self, after: &Self, key: usize, ix: usize) -> bool;

    /// `other` holds the same tables as this storage.
    spec fn same_tables(&self, other: &Self) -> bool;

    /// Linking reads only the tables of the result.
    proof fn lemma_linked_tables(&self, mid: &Self, fin: &Self, key: usize, ix: usize)
        requires
            self.linked(mid, key, ix),
            fin.same_tables(mid),
        ensures
            self.linked(fin, key, ix),
    ;

    fn num_last_distances(&self) -> (r: usize)
        requires
            self.storage_ok(),
        ensures
            r == self.spec_num_last(),
            4 <= r <= 16,
    ;

    fn max_hops(&self) -> (r: usize)
        ensures
            r == self.spec_max_hops(),
    ;

    fn get_common(&self) -> (r: Struct1)
        ensures
            r == self.spec_common(),
    ;

    /// Replaces the parameters and statistics, keeping the tables.
    fn set_common(&mut self, c: Struct1)
        requires
            old(self).storage_ok(),
            c.params == old(self).spec_common().params,
        ensures
            final(self).storage_ok(),
            final(self).spec_common() == c,
            final(self).spec_num_last() == old(self).spec_num_last(),
            final(self).same_tables(&*old(self)),
    ;

    /// Newest position stored under `key`.
    fn addr_at(&self, key: usize) -> (r: u32)
        requires
            self.storage_ok(),
            key < kBankedBucketCount,
        ensures
            r == self.spec_addr()[key as int],
    ;

    /// Slot holding the newest position of `key`.
    fn head_at(&self, key: usize) -> (r: u16)
        requires
            self.storage_ok(),
            key < kBankedBucketCount,
        ensures
            r == self.spec_head()[key as int],
    ;

    /// Fingerprint of the position whose low 16 bits are `ix`.
    fn tiny_hash_at(&self, ix: usize) -> (r: u8)
        requires
            self.storage_ok(),
            ix < kTinyHashSize,
        ensures
            r == self.spec_tiny_hash()[ix as int],
    ;

    /// `(delta, next)` of slot `idx` of the bank that `key` uses.
    fn slot_at(&self, key: usize, idx: u16) -> (r: (u16, u16))
        requires
            self.storage_ok(),
            key < kBankedBucketCount,
        ensures
            r == self.spec_slot(key, idx),
    ;

    /// Links position `ix`, of key `key`, in as the newest of its key: a
    /// fresh slot of the key's bank records the gap to the previous newest
    /// position (at most 0xFFFF) and that position's slot.
    fn link(&mut self, key: usize, ix: usize)
        requires
            old(self).storage_ok(),
            key < kBankedBucketCount,
        ensures
            final(self).storage_ok(),
            old(self).linked(&*final(self), key, ix),
            final(self).spec_common() == old(self).spec_common(),
            final(self).spec_num_last() == old(self).spec_num_last(),
            final(self).spec_max_hops() == old(self).spec_max_hops(),
    ;
}

/// Key of the position whose bytes start at `ix` of a banked hasher.
pub open spec fn banked_key(data: Seq<u8>, mask: usize, ix: usize) -> usize {
    hash_h40(le32(data, (ix & mask) as int)) as usize
}

/// The probe state after trying the first `k` cache slots of a banked
/// hasher; slots after the first must carry the key's fingerprint `tiny`.
pub open spec fn banked_cache_slots<T: BankedStorage>(
    h: &T,
    data: Seq<u8>,
    mask: usize,
    distance_cache: Seq<i32>,
    cur_ix: usize,
    max_length: usize,
    max_backward: usize,
    tiny: u8,
    st: ProbeState,
    k: nat,
) -> ProbeState
    decreases k,
{
    if k == 0 {
        st
    } else {
        let i = k - 1;
        let prev_abs = (cur_ix - distance_cache[i]) as usize;
        cache_slot_step(
            data,
            mask,
            distance_cache,
            cur_ix,
            max_length,
            max_backward,
            i,
            true,
            h.spec_tiny_hash()[(prev_abs & 0xffff) as int] == tiny,
            banked_cache_slots(h, data, mask, distance_cache, cur_ix, max_length, max_backward, tiny, st, (k - 1) as nat),
        )
    }
}

/// The walk of a key's list after `k` hops: probe state, distance reached,
/// gap to the next entry, next slot, and whether the walk stopped because
/// the next entry lies beyond `max_backward`.
pub open spec fn banked_chain<T: BankedStorage>(
    h: &T,
    key: usize,
    data: Seq<u8>,
    mask: usize,
    cur_ix: usize,
    max_length: usize,
    max_backward: usize,
    st: ProbeState,
    k: nat,
) -> (ProbeState, usize, usize, u16, bool)
    decreases k,
{
    if k == 0 {
        (st, 0, cur_ix.wrapping_sub(h.spec_addr()[key as int] as usize), h.spec_head()[key as int], false)
    } else {
        let s = banked_chain(h, key, data, mask, cur_ix, max_length, max_backward, st, (k - 1) as nat);
        if s.4 {
            s
        } else if s.2 > max_backward - s.1 {
            (s.0, s.1, s.2, s.3, true)
        } else {
            let b = (s.1 + s.2) as usize;
            let nx = h.spec_slot(key, s.3);
            (chain_step(data, mask, cur_ix, max_length, max_backward, b, s.0), b, nx.0 as usize, nx.1, false)
        }
    }
}

proof fn lemma_banked_chain_stopped<T: BankedStorage>(
    h: &T,
    key: usize,
    data: Seq<u8>,
    mask: usize,
    cur_ix: usize,
    max_length: usize,
    max_backward: usize,
    st: ProbeState,
    k: nat,
    k2: nat,
)
    requires
        k <= k2,
        banked_chain(h, key, data, mask, cur_ix, max_length, max_backward, st, k).4,
    ensures
        banked_chain(h, key, data, mask, cur_ix, max_length, max_backward, st, k2) == banked_chain(
            h,
            key,
            data,
            mask,
            cur_ix,
            max_length,
            max_backward,
            st,
            k,
        ),
    decreases k2,
{
    if k2 > k {
        lemma_banked_chain_stopped(h, key, data, mask, cur_ix, max_length, max_backward, st, k, (k2 - 1) as nat);
    }
}

/// Outcome of a probe of a banked hasher (see `AnyHasher::probe`).
pub open spec fn banked_probe<T: BankedStorage>(
    h: &T,
    dict: &BrotliDictionary,
    dict_hash: Seq<u16>,
    data: Seq<u8>,
    mask: usize,
    distance_cache: Seq<i32>,
    cur_ix: usize,
    max_length: usize,
    max_backward: usize,
    out: HasherSearchResult,
) -> (bool, HasherSearchResult, Struct1) {
    let cur_m = (cur_ix & mask) as int;
    let key = banked_key(data, mask, cur_ix);
    let st0 = ProbeState {
        found: false,
        best_score: out.score,
        best_len: out.len,
        out: HasherSearchResult { len: 0, len_x_code: 0, distance: out.distance, score: out.score },
    };
    let st1 = banked_cache_slots(
        h,
        data,
        mask,
        distance_cache,
        cur_ix,
        max_length,
        max_backward,
        (key & 0xff) as u8,
        st0,
        h.spec_num_last() as nat,
    );
    let st2 = banked_chain(h, key, data, mask, cur_ix, max_length, max_backward, st1, h.spec_max_hops() as nat).0;
    if !st2.found {
        dict_search(dict, dict_hash, data, cur_m, max_length, max_backward, st2.out, false, h.spec_common())
    } else {
        (true, st2.out, h.spec_common())
    }
}

/// Records position `ix` in a banked hasher.
fn banked_store<T: BankedStorage>(h: &mut T, data: &[u8], mask: usize, ix: usize)
    requires
        old(h).storage_ok(),
        data@.len() >= mask as int + 8,
    ensures
        final(h).storage_ok(),
        old(h).linked(&*final(h), banked_key(data@, mask, ix), ix),
        final(h).spec_common() == old(h).spec_common(),
        final(h).spec_num_last() == old(h).spec_num_last(),
{
    proof {
        lemma_mask_le(ix, mask);
    }
    let key: usize = HashBytesH40(data, ix & mask);
    h.link(key, ix);
}

/// Shared match finder of the banked hashers.
fn banked_find_longest_match<T: BankedStorage>(
    h: &mut T,
    dictionary: &BrotliDictionary,
    dictionary_hash: &[u16],
    data: &[u8],
    ring_buffer_mask: usize,
    distance_cache: &[i32],
    cur_ix: usize,
    max_length: usize,
    max_backward: usize,
    out: &mut HasherSearchResult,
) -> (found: bool)
    requires
        old(h).storage_ok(),
        probe_requires(
            dictionary,
            dictionary_hash@,
            data@,
            ring_buffer_mask,
            distance_cache@,
            cur_ix,
            max_length,
            max_backward,
        ),
    ensures
        final(h).storage_ok(),
        old(h).linked(&*final(h), banked_key(data@, ring_buffer_mask, cur_ix), cur_ix),
        (found, *final(out), final(h).spec_common()) == banked_probe(
            &*old(h),
            dictionary,
            dictionary_hash@,
            data@,
            ring_buffer_mask,
            distance_cache@,
            cur_ix,
            max_length,
            max_backward,
            *old(out),
        ),
        final(h).spec_num_last() == old(h).spec_num_last(),
        final(h).spec_common().params == old(h).spec_common().params,
        found == (final(out).score > old(out).score),
        !found ==> final(out).score == old(out).score,
        found ==> valid_search_result(
            dictionary,
            data@,
            ring_buffer_mask,
            cur_ix,
            max_length,
            max_backward,
            *final(out),
        ),
        !dict_probe_allowed(old(h).spec_common()) ==> final(h).spec_common() == old(
            h,
        ).spec_common() && (found ==> final(out).distance <= max_backward),
{
    let ghost seed = *out;
    let cur_ix_masked: usize = cur_ix & ring_buffer_mask;
    proof {
        lemma_mask_le(cur_ix, ring_buffer_mask);
    }
    let mut is_match_found: bool = false;
    let mut best_score: usize = out.score;
    let mut best_len: usize = out.len;
    let key: usize = HashBytesH40(data, cur_ix_masked);
    let tiny_hash: u8 = (key & 0xff) as u8;
    out.len = 0;
    out.len_x_code = 0;
    let ghost st0 = ProbeState { found: false, best_score, best_len, out: *out };
    let num_distances: usize = h.num_last_distances();
    let mut i: usize = 0;
    while i < num_distances
        invariant
            h.storage_ok(),
            *h == *old(h),
            num_distances == h.spec_num_last(),
            num_distances <= 16,
            i <= num_distances,
            tiny_hash == (key & 0xff) as u8,
            key == banked_key(data@, ring_buffer_mask, cur_ix),
            (ProbeState { found: is_match_found, best_score, best_len, out: *out })
                == banked_cache_slots(
                &*h,
                data@,
                ring_buffer_mask,
                distance_cache@,
                cur_ix,
                max_length,
                max_backward,
                tiny_hash,
                st0,
                i as nat,
            ),
            probe_requires(
                dictionary,
                dictionary_hash@,
                data@,
                ring_buffer_mask,
                distance_cache@,
                cur_ix,
                max_length,
                max_backward,
            ),
            cur_ix_masked == cur_ix & ring_buffer_mask,
            cur_ix_masked <= ring_buffer_mask,
            key < kBankedBucketCount,
            best_score == out.score,
            is_match_found ==> best_len == out.len,
            out.len_x_code == 0,
            is_match_found == (out.score > seed.score),
            !is_match_found ==> out.score == seed.score,
            is_match_found ==> out.distance <= max_backward && valid_search_result(
                dictionary,
                data@,
                ring_buffer_mask,
                cur_ix,
                max_length,
                max_backward,
                *out,
            ),
        decreases num_distances - i,
    {
        let cached: i32 = distance_cache[i];
        if 0 < cached && cached as usize <= max_backward {
            let backward: usize = cached as usize;
            let prev_abs: usize = cur_ix - backward;
            proof {
                lemma_mask_le(prev_abs, 0xffff);
            }
            if i == 0 || h.tiny_hash_at(prev_abs & 0xffff) == tiny_hash {
                let prev_ix: usize = prev_abs & ring_buffer_mask;
                proof {
                    lemma_mask_le(prev_abs, ring_buffer_mask);
                }
                let len: usize = FindMatchLengthWithLimit(
                    data,
                    prev_ix,
                    data,
                    cur_ix_masked,
                    max_length,
                );
                proof {
                    lemma_match_len(
                        data@,
                        prev_ix as int,
                        data@,
                        cur_ix_masked as int,
                        max_length as nat,
                    );
                }
                if len >= 2 {
                    let mut score: usize = BackwardReferenceScoreUsingLastDistance(len);
                    if best_score < score {
                        if i != 0 {
                            score = score - BackwardReferencePenaltyUsingLastDistance(i);
                        }
                        if best_score < score {
                            best_score = score;
                            best_len = len;
                            out.len = len;
                            out.distance = backward;
                            out.score = score;
                            is_match_found = true;
                        }
                    }
                }
            }
        }
        i = i + 1;
    }
    let mut backward: usize = 0;
    let mut hops: usize = h.max_hops();
    let mut delta: usize = cur_ix.wrapping_sub(h.addr_at(key) as usize);
    let mut slot: u16 = h.head_at(key);
    let ghost st1 = ProbeState { found: is_match_found, best_score, best_len, out: *out };
    let ghost mut stopped = false;
    while hops > 0
        invariant_except_break
            !stopped,
        invariant
            h.storage_ok(),
            *h == *old(h),
            backward <= max_backward,
            hops <= h.spec_max_hops(),
            key == banked_key(data@, ring_buffer_mask, cur_ix),
            (ProbeState { found: is_match_found, best_score, best_len, out: *out }, backward, delta, slot, stopped)
                == banked_chain(
                &*h,
                key,
                data@,
                ring_buffer_mask,
                cur_ix,
                max_length,
                max_backward,
                st1,
                (h.spec_max_hops() - hops) as nat,
            ),
            probe_requires(
                dictionary,
                dictionary_hash@,
                data@,
                ring_buffer_mask,
                distance_cache@,
                cur_ix,
                max_length,
                max_backward,
            ),
            cur_ix_masked == cur_ix & ring_buffer_mask,
            cur_ix_masked <= ring_buffer_mask,
            key < kBankedBucketCount,
            best_score == out.score,
            is_match_found ==> best_len == out.len,
            out.len_x_code == 0,
            is_match_found == (out.score > seed.score),
            !is_match_found ==> out.score == seed.score,
            is_match_found ==> out.distance <= max_backward && valid_search_result(
                dictionary,
                data@,
                ring_buffer_mask,
                cur_ix,
                max_length,
                max_backward,
                *out,
            ),
        ensures
            stopped || hops == 0,
        decreases hops,
    {
        hops = hops - 1;
        let last: u16 = slot;
        if delta > max_backward - backward {
            proof {
                stopped = true;
            }
            break;
        }
        backward = backward + delta;
        let (d, n) = h.slot_at(key, last);
        slot = n;
        delta = d as usize;
        if backward != 0 {
            let prev_ix: usize = (cur_ix - backward) & ring_buffer_mask;
            proof {
                lemma_mask_le((cur_ix - backward) as usize, ring_buffer_mask);
            }
            if best_len <= ring_buffer_mask - cur_ix_masked && best_len <= ring_buffer_mask
                - prev_ix && bytes_agree_at(data, prev_ix, cur_ix_masked, best_len) {
                let len: usize = FindMatchLengthWithLimit(
                    data,
                    prev_ix,
                    data,
                    cur_ix_masked,
                    max_length,
                );
                proof {
                    lemma_match_len(
                        data@,
                        prev_ix as int,
                        data@,
                        cur_ix_masked as int,
                        max_length as nat,
                    );
                }
                if len >= 4 {
                    let score: usize = BackwardReferenceScore(len, backward);
                    if best_score < score {
                        best_score = score;
                        best_len = len;
                        out.len = len;
                        out.distance = backward;
                        out.score = score;
                        is_match_found = true;
                    }
                }
            }
        }
    }
    proof {
        if stopped {
            lemma_banked_chain_stopped(
                &*h,
                key,
                data@,
                ring_buffer_mask,
                cur_ix,
                max_length,
                max_backward,
                st1,
                (h.spec_max_hops() - hops) as nat,
                h.spec_max_hops() as nat,
            );
        }
    }
    banked_store(h, data, ring_buffer_mask, cur_ix);
    let ghost linked_state = *h;
    if !is_match_found {
        proof {
            lemma_dict_probe_valid(
                dictionary,
                dictionary_hash@,
                data@,
                ring_buffer_mask,
                cur_ix,
                max_length,
                max_backward,
                *out,
                false,
            );
        }
        let mut common: Struct1 = h.get_common();
        is_match_found = SearchInStaticDictionary(
            dictionary,
            dictionary_hash,
            &mut common,
            data,
            cur_ix_masked,
            max_length,
            max_backward,
            out,
            0,
        ) != 0;
        h.set_common(common);
        proof {
            old(h).lemma_linked_tables(
                &linked_state,
                &*h,
                banked_key(data@, ring_buffer_mask, cur_ix),
                cur_ix,
            );
        }
    }
    is_match_found
}

/// Banked hasher H40: one bank of 65536 slots, four cache slots probed.
pub struct H40 {
    pub common: Struct1,
    /// Newest position stored under each key.
    pub addr: Vec<u32>,
    /// Slot of the newest position of each key.
    pub head: Vec<u16>,
    /// Low byte of the key of each position, by its low 16 bits.
    pub tiny_hash: Vec<u8>,
    pub banks: Vec<BankH40>,
    /// Next slot to hand out in each bank.
    pub free_slot_idx: Vec<u16>,
    /// Most list entries a probe visits.
    pub max_hops: usize,
}

impl H40 {
    /// An empty hasher that visits at most `max_hops` list entries per probe.
    pub fn new(params: BrotliHasherParams, max_hops: usize) -> (r: Self)
        ensures
            r.storage_ok(),
            r.common == (Struct1 {
                params,
                is_prepared_: 1,
                dict_num_lookups: 0,
                dict_num_matches: 0,
            }),
            r.max_hops == max_hops,
    {
        let mut banks: Vec<BankH40> = Vec::new();
        let mut b: usize = 0;
        while b < 1
            invariant
                b <= 1,
                banks@.len() == b,
                forall|j: int| 0 <= j < b ==> (#[trigger] banks@[j]).slots@.len() == 65536,
            decreases 1 - b,
        {
            let slots: Vec<SlotH40> = vec![SlotH40 { delta: 0, next: 0 }; 65536];
            banks.push(BankH40 { slots });
            b = b + 1;
        }
        H40 {
            common: Struct1 { params, is_prepared_: 1, dict_num_lookups: 0, dict_num_matches: 0 },
            addr: vec![0u32; kBankedBucketCount],
            head: vec![0u16; kBankedBucketCount],
            tiny_hash: vec![0u8; kTinyHashSize],
            banks,
            free_slot_idx: vec![0u16; 1],
            max_hops,
        }
    }
}

impl BankedStorage for H40 {
    open spec fn storage_ok(&self) -> bool {
        &&& self.addr@.len() == kBankedBucketCount
        &&& self.head@.len() == kBankedBucketCount
        &&& self.tiny_hash@.len() == kTinyHashSize
        &&& self.banks@.len() == 1
        &&& self.free_slot_idx@.len() == 1
        &&& forall|j: int| 0 <= j < 1 ==> (#[trigger] self.banks@[j]).slots@.len() == 65536
    }

    open spec fn spec_common(&self) -> Struct1 {
        self.common
    }

    open spec fn spec_num_last(&self) -> usize {
        4
    }

    open spec fn spec_addr(&self) -> Seq<u32> {
        self.addr@
    }

    open spec fn spec_head(&self) -> Seq<u16> {
        self.head@
    }

    open spec fn spec_tiny_hash(&self) -> Seq<u8> {
        self.tiny_hash@
    }

    open spec fn spec_max_hops(&self) -> usize {
        self.max_hops
    }

    open spec fn spec_slot(&self, key: usize, idx: u16) -> (u16, u16) {
        let s = self.banks@[(key & 0) as int].slots@[(idx as usize & 0xffff) as int];
        (s.delta, s.next)
    }

    open spec fn linked(&self, after: &Self, key: usize, ix: usize) -> bool {
        let bank = (key & 0) as int;
        let free = self.free_slot_idx@[bank];
        let idx = (free as usize & 0xffff) as int;
        let prev = self.addr@[key as int] as usize;
        let delta: usize = if ix < prev || ix - prev > 0xffff {
            0xffff
        } else {
            (ix - prev) as usize
        };
        &&& after.max_hops == self.max_hops
        &&& after.free_slot_idx@ == self.free_slot_idx@.update(bank, free.wrapping_add(1))
        &&& after.tiny_hash@ == self.tiny_hash@.update((ix % 0x10000) as int, (key % 0x100) as u8)
        &&& after.addr@ == self.addr@.update(key as int, ix as u32)
        &&& after.head@ == self.head@.update(key as int, idx as u16)
        &&& after.banks@.len() == self.banks@.len()
        &&& forall|j: int|
            0 <= j < self.banks@.len() && j != bank ==> #[trigger] after.banks@[j] == self.banks@[j]
        &&& after.banks@[bank].slots@ == self.banks@[bank].slots@.update(
            idx,
            SlotH40 { delta: delta as u16, next: self.head@[key as int] },
        )
    }

    open spec fn same_tables(&self, other: &Self) -> bool {
        &&& self.addr@ == other.addr@
        &&& self.head@ == other.head@
        &&& self.tiny_hash@ == other.tiny_hash@
        &&& self.banks@ == other.banks@
        &&& self.free_slot_idx@ == other.free_slot_idx@
        &&& self.max_hops == other.max_hops
    }

    proof fn lemma_linked_tables(&self, mid: &Self, fin: &Self, key: usize, ix: usize) {
    }

    fn num_last_distances(&self) -> (r: usize) {
        4
    }

    fn max_hops(&self) -> usize {
        self.max_hops
    }

    fn get_common(&self) -> (r: Struct1) {
        self.common
    }

    fn set_common(&mut self, c: Struct1) {
        self.common = c;
    }

    fn addr_at(&self, key: usize) -> u32 {
        self.addr[key]
    }

    fn head_at(&self, key: usize) -> u16 {
        self.head[key]
    }

    fn tiny_hash_at(&self, ix: usize) -> u8 {
        self.tiny_hash[ix]
    }

    fn slot_at(&self, key: usize, idx: u16) -> (u16, u16) {
        let bank: usize = key & 0;
        let i: usize = idx as usize & 0xffff;
        proof {
            lemma_mask_le(key, 0);
            lemma_mask_le(idx as usize, 0xffff);
        }
        let s: SlotH40 = self.banks[bank].slots[i];
        (s.delta, s.next)
    }

    fn link(&mut self, key: usize, ix: usize) {
        let bank: usize = key & 0;
        proof {
            lemma_mask_le(key, 0);
            lemma_mask_le(ix, 0xffff);
        }
        let free: u16 = self.free_slot_idx[bank];
        self.free_slot_idx.set(bank, free.wrapping_add(1));
        let idx: usize = free as usize & 0xffff;
        proof {
            lemma_mask_le(free as usize, 0xffff);
            assert(idx & 0xffff == idx) by (bit_vector)
                requires
                    idx == free as usize & 0xffff,
            ;
        }
        let prev_addr: usize = self.addr[key] as usize;
        let delta: usize = if ix < prev_addr || ix - prev_addr > 0xffff {
            0xffff
        } else {
            ix - prev_addr
        };
        proof {
            assert(ix & 0xffff == ix % 0x10000 && key & 0xff == key % 0x100) by (bit_vector);
        }
        self.tiny_hash.set(ix & 0xffff, (key & 0xff) as u8);
        let next: u16 = self.head[key];
        let ghost banks_before = self.banks@;
        self.banks[bank].slots.set(idx, SlotH40 { delta: delta as u16, next });
        assert forall|j: int| 0 <= j < 1 implies (#[trigger] self.banks@[j]).slots@.len() == 65536 by {
            if j != bank {
                assert(self.banks@[j] == banks_before[j]);
            }
        }
        self.addr.set(key, #[verifier::truncate] (ix as u32));
        self.head.set(key, idx as u16);
        proof {
            assert((idx as u16) as usize == idx);
            assert(self.spec_head()[key as int] == idx as u16);
        }
    }
}

impl AnyHasher for H40 {
    open spec fn inv(&self) -> bool {
        self.storage_ok()
    }

    open spec fn common(&self) -> Struct1 {
        self.common
    }

    open spec fn hash_type_length(&self) -> usize {
        4
    }

    open spec fn store_lookahead(&self) -> usize {
        4
    }

    open spec fn stored(&self, after: &Self, data: Seq<u8>, mask: usize, ix: usize) -> bool {
        self.linked(after, banked_key(data, mask, ix), ix)
    }

    open spec fn probe(
        &self,
        dict: &BrotliDictionary,
        dict_hash: Seq<u16>,
        data: Seq<u8>,
        mask: usize,
        distance_cache: Seq<i32>,
        cur_ix: usize,
        max_length: usize,
        max_backward: usize,
        out: HasherSearchResult,
    ) -> (bool, HasherSearchResult, Struct1) {
        banked_probe(
            self,
            dict,
            dict_hash,
            data,
            mask,
            distance_cache,
            cur_ix,
            max_length,
            max_backward,
            out,
        )
    }

    open spec fn num_distances(&self) -> i32 {
        4
    }

    fn GetHasherCommon(&self) -> (r: &Struct1) {
        &self.common
    }

    fn HashTypeLength(&self) -> (r: usize) {
        4
    }

    fn StoreLookahead(&self) -> (r: usize) {
        4
    }

    fn PrepareDistanceCache(&self, distance_cache: &mut [i32]) {
        PrepareDistanceCache(distance_cache, 4);
    }

    fn Store(&mut self, data: &[u8], mask: usize, ix: usize) {
        banked_store(self, data, mask, ix);
    }

    fn FindLongestMatch(
        &mut self,
        dictionary: &BrotliDictionary,
        dictionary_hash: &[u16],
        data: &[u8],
        ring_buffer_mask: usize,
        distance_cache: &[i32],
        cur_ix: usize,
        max_length: usize,
        max_backward: usize,
        out: &mut HasherSearchResult,
    ) -> (found: bool) {
        banked_find_longest_match(
            self,
            dictionary,
            dictionary_hash,
            data,
            ring_buffer_mask,
            distance_cache,
            cur_ix,
            max_length,
            max_backward,
            out,
        )
    }
}

/// Banked hasher H41: one bank of 65536 slots, ten cache slots probed.
pub struct H41 {
    pub common: Struct1,
    /// Newest position stored under each key.
    pub addr: Vec<u32>,
    /// Slot of the newest position of each key.
    pub head: Vec<u16>,
    /// Low byte of the key of each position, by its low 16 bits.
    pub tiny_hash: Vec<u8>,
    pub banks: Vec<BankH41>,
    /// Next slot to hand out in each bank.
    pub free_slot_idx: Vec<u16>,
    /// Most list entries a probe visits.
    pub max_hops: usize,
}

impl H41 {
    /// An empty hasher that visits at most `max_hops` list entries per probe.
    pub fn new(params: BrotliHasherParams, max_hops: usize) -> (r: Self)
        ensures
            r.storage_ok(),
            r.common == (Struct1 {
                params,
                is_prepared_: 1,
                dict_num_lookups: 0,
                dict_num_matches: 0,
            }),
            r.max_hops == max_hops,
    {
        let mut banks: Vec<BankH41> = Vec::new();
        let mut b: usize = 0;
        while b < 1
            invariant
                b <= 1,
                banks@.len() == b,
                forall|j: int| 0 <= j < b ==> (#[trigger] banks@[j]).slots@.len() == 65536,
            decreases 1 - b,
        {
            let slots: Vec<SlotH41> = vec![SlotH41 { delta: 0, next: 0 }; 65536];
            banks.push(BankH41 { slots });
            b = b + 1;
        }
        H41 {
            common: Struct1 { params, is_prepared_: 1, dict_num_lookups: 0, dict_num_matches: 0 },
            addr: vec![0u32; kBankedBucketCount],
            head: vec![0u16; kBankedBucketCount],
            tiny_hash: vec![0u8; kTinyHashSize],
            banks,
            free_slot_idx: vec![0u16; 1],
            max_hops,
        }
    }
}

impl BankedStorage for H41 {
    open spec fn storage_ok(&self) -> bool {
        &&& self.addr@.len() == kBankedBucketCount
        &&& self.head@.len() == kBankedBucketCount
        &&& self.tiny_hash@.len() == kTinyHashSize
        &&& self.banks@.len() == 1
        &&& self.free_slot_idx@.len() == 1
        &&& forall|j: int| 0 <= j < 1 ==> (#[trigger] self.banks@[j]).slots@.len() == 65536
    }

    open spec fn spec_common(&self) -> Struct1 {
        self.common
    }

    open spec fn spec_num_last(&self) -> usize {
        10
    }

    open spec fn spec_addr(&self) -> Seq<u32> {
        self.addr@
    }

    open spec fn spec_head(&self) -> Seq<u16> {
        self.head@
    }

    open spec fn spec_tiny_hash(&self) -> Seq<u8> {
        self.tiny_hash@
    }

    open spec fn spec_max_hops(&self) -> usize {
        self.max_hops
    }

    open spec fn spec_slot(&self, key: usize, idx: u16) -> (u16, u16) {
        let s = self.banks@[(key & 0) as int].slots@[(idx as usize & 0xffff) as int];
        (s.delta, s.next)
    }

    open spec fn linked(&self, after: &Self, key: usize, ix: usize) -> bool {
        let bank = (key & 0) as int;
        let free = self.free_slot_idx@[bank];
        let idx = (free as usize & 0xffff) as int;
        let prev = self.addr@[key as int] as usize;
        let delta: usize = if ix < prev || ix - prev > 0xffff {
            0xffff
        } else {
            (ix - prev) as usize
        };
        &&& after.max_hops == self.max_hops
        &&& after.free_slot_idx@ == self.free_slot_idx@.update(bank, free.wrapping_add(1))
        &&& after.tiny_hash@ == self.tiny_hash@.update((ix % 0x10000) as int, (key % 0x100) as u8)
        &&& after.addr@ == self.addr@.update(key as int, ix as u32)
        &&& after.head@ == self.head@.update(key as int, idx as u16)
        &&& after.banks@.len() == self.banks@.len()
        &&& forall|j: int|
            0 <= j < self.banks@.len() && j != bank ==> #[trigger] after.banks@[j] == self.banks@[j]
        &&& after.banks@[bank].slots@ == self.banks@[bank].slots@.update(
            idx,
            SlotH41 { delta: delta as u16, next: self.head@[key as int] },
        )
    }

    open spec fn same_tables(&self, other: &Self) -> bool {
        &&& self.addr@ == other.addr@
        &&& self.head@ == other.head@
        &&& self.tiny_hash@ == other.tiny_hash@
        &&& self.banks@ == other.banks@
        &&& self.free_slot_idx@ == other.free_slot_idx@
        &&& self.max_hops == other.max_hops
    }

    proof fn lemma_linked_tables(&self, mid: &Self, fin: &Self, key: usize, ix: usize) {
    }

    fn num_last_distances(&self) -> (r: usize) {
        10
    }

    fn max_hops(&self) -> usize {
        self.max_hops
    }

    fn get_common(&self) -> (r: Struct1) {
        self.common
    }

    fn set_common(&mut self, c: Struct1) {
        self.common = c;
    }

    fn addr_at(&self, key: usize) -> u32 {
        self.addr[key]
    }

    fn head_at(&self, key: usize) -> u16 {
        self.head[key]
    }

    fn tiny_hash_at(&self, ix: usize) -> u8 {
        self.tiny_hash[ix]
    }

    fn slot_at(&self, key: usize, idx: u16) -> (u16, u16) {
        let bank: usize = key & 0;
        let i: usize = idx as usize & 0xffff;
        proof {
            lemma_mask_le(key, 0);
            lemma_mask_le(idx as usize, 0xffff);
        }
        let s: SlotH41 = self.banks[bank].slots[i];
        (s.delta, s.next)
    }

    fn link(&mut self, key: usize, ix: usize) {
        let bank: usize = key & 0;
        proof {
            lemma_mask_le(key, 0);
            lemma_mask_le(ix, 0xffff);
        }
        let free: u16 = self.free_slot_idx[bank];
        self.free_slot_idx.set(bank, free.wrapping_add(1));
        let idx: usize = free as usize & 0xffff;
        proof {
            lemma_mask_le(free as usize, 0xffff);
            assert(idx & 0xffff == idx) by (bit_vector)
                requires
                    idx == free as usize & 0xffff,
            ;
        }
        let prev_addr: usize = self.addr[key] as usize;
        let delta: usize = if ix < prev_addr || ix - prev_addr > 0xffff {
            0xffff
        } else {
            ix - prev_addr
        };
        proof {
            assert(ix & 0xffff == ix % 0x10000 && key & 0xff == key % 0x100) by (bit_vector);
        }
        self.tiny_hash.set(ix & 0xffff, (key & 0xff) as u8);
        let next: u16 = self.head[key];
        let ghost banks_before = self.banks@;
        self.banks[bank].slots.set(idx, SlotH41 { delta: delta as u16, next });
        assert forall|j: int| 0 <= j < 1 implies (#[trigger] self.banks@[j]).slots@.len() == 65536 by {
            if j != bank {
                assert(self.banks@[j] == banks_before[j]);
            }
        }
        self.addr.set(key, #[verifier::truncate] (ix as u32));
        self.head.set(key, idx as u16);
        proof {
            assert((idx as u16) as usize == idx);
            assert(self.spec_head()[key as int] == idx as u16);
        }
    }
}

impl AnyHasher for H41 {
    open spec fn inv(&self) -> bool {
        self.storage_ok()
    }

    open spec fn common(&self) -> Struct1 {
        self.common
    }

    open spec fn hash_type_length(&self) -> usize {
        4
    }

    open spec fn store_lookahead(&self) -> usize {
        4
    }

    open spec fn stored(&self, after: &Self, data: Seq<u8>, mask: usize, ix: usize) -> bool {
        self.linked(after, banked_key(data, mask, ix), ix)
    }

    open spec fn probe(
        &self,
        dict: &BrotliDictionary,
        dict_hash: Seq<u16>,
        data: Seq<u8>,
        mask: usize,
        distance_cache: Seq<i32>,
        cur_ix: usize,
        max_length: usize,
        max_backward: usize,
        out: HasherSearchResult,
    ) -> (bool, HasherSearchResult, Struct1) {
        banked_probe(
            self,
            dict,
            dict_hash,
            data,
            mask,
            distance_cache,
            cur_ix,
            max_length,
            max_backward,
            out,
        )
    }

    open spec fn num_distances(&self) -> i32 {
        10
    }

    fn GetHasherCommon(&self) -> (r: &Struct1) {
        &self.common
    }

    fn HashTypeLength(&self) -> (r: usize) {
        4
    }

    fn StoreLookahead(&self) -> (r: usize) {
        4
    }

    fn PrepareDistanceCache(&self, distance_cache: &mut [i32]) {
        PrepareDistanceCache(distance_cache, 10);
    }

    fn Store(&mut self, data: &[u8], mask: usize, ix: usize) {
        banked_store(self, data, mask, ix);
    }

    fn FindLongestMatch(
        &mut self,
        dictionary: &BrotliDictionary,
        dictionary_hash: &[u16],
        data: &[u8],
        ring_buffer_mask: usize,
        distance_cache: &[i32],
        cur_ix: usize,
        max_length: usize,
        max_backward: usize,
        out: &mut HasherSearchResult,
    ) -> (found: bool) {
        banked_find_longest_match(
            self,
            dictionary,
            dictionary_hash,
            data,
            ring_buffer_mask,
            distance_cache,
            cur_ix,
            max_length,
            max_backward,
            out,
        )
    }
}

/// Banked hasher H42: 512 banks of 512 slots, sixteen cache slots probed.
pub struct H42 {
    pub common: Struct1,
    /// Newest position stored under each key.
    pub addr: Vec<u32>,
    /// Slot of the newest position of each key.
    pub head: Vec<u16>,
    /// Low byte of the key of each position, by its low 16 bits.
    pub tiny_hash: Vec<u8>,
    pub banks: Vec<BankH42>,
    /// Next slot to hand out in each bank.
    pub free_slot_idx: Vec<u16>,
    /// Most list entries a probe visits.
    pub max_hops: usize,
}

impl H42 {
    /// An empty hasher that visits at most `max_hops` list entries per probe.
    pub fn new(params: BrotliHasherParams, max_hops: usize) -> (r: Self)
        ensures
            r.storage_ok(),
            r.common == (Struct1 {
                params,
                is_prepared_: 1,
                dict_num_lookups: 0,
                dict_num_matches: 0,
            }),
            r.max_hops == max_hops,
    {
        let mut banks: Vec<BankH42> = Vec::new();
        let mut b: usize = 0;
        while b < 512
            invariant
                b <= 512,
                banks@.len() == b,
                forall|j: int| 0 <= j < b ==> (#[trigger] banks@[j]).slots@.len() == 512,
            decreases 512 - b,
        {
            let slots: Vec<SlotH42> = vec![SlotH42 { delta: 0, next: 0 }; 512];
            banks.push(BankH42 { slots });
            b = b + 1;
        }
        H42 {
            common: Struct1 { params, is_prepared_: 1, dict_num_lookups: 0, dict_num_matches: 0 },
            addr: vec![0u32; kBankedBucketCount],
            head: vec![0u16; kBankedBucketCount],
            tiny_hash: vec![0u8; kTinyHashSize],
            banks,
            free_slot_idx: vec![0u16; 512],
            max_hops,
        }
    }
}

impl BankedStorage for H42 {
    open spec fn storage_ok(&self) -> bool {
        &&& self.addr@.len() == kBankedBucketCount
        &&& self.head@.len() == kBankedBucketCount
        &&& self.tiny_hash@.len() == kTinyHashSize
        &&& self.banks@.len() == 512
        &&& self.free_slot_idx@.len() == 512
        &&& forall|j: int| 0 <= j < 512 ==> (#[trigger] self.banks@[j]).slots@.len() == 512
    }

    open spec fn spec_common(&self) -> Struct1 {
        self.common
    }

    open spec fn spec_num_last(&self) -> usize {
        16
    }

    open spec fn spec_addr(&self) -> Seq<u32> {
        self.addr@
    }

    open spec fn spec_head(&self) -> Seq<u16> {
        self.head@
    }

    open spec fn spec_tiny_hash(&self) -> Seq<u8> {
        self.tiny_hash@
    }

    open spec fn spec_max_hops(&self) -> usize {
        self.max_hops
    }

    open spec fn spec_slot(&self, key: usize, idx: u16) -> (u16, u16) {
        let s = self.banks@[(key & 511) as int].slots@[(idx as usize & 511) as int];
        (s.delta, s.next)
    }

    open spec fn linked(&self, after: &Self, key: usize, ix: usize) -> bool {
        let bank = (key & 511) as int;
        let free = self.free_slot_idx@[bank];
        let idx = (free as usize & 511) as int;
        let prev = self.addr@[key as int] as usize;
        let delta: usize = if ix < prev || ix - prev > 0xffff {
            0xffff
        } else {
            (ix - prev) as usize
        };
        &&& after.max_hops == self.max_hops
        &&& after.free_slot_idx@ == self.free_slot_idx@.update(bank, free.wrapping_add(1))
        &&& after.tiny_hash@ == self.tiny_hash@.update((ix % 0x10000) as int, (key % 0x100) as u8)
        &&& after.addr@ == self.addr@.update(key as int, ix as u32)
        &&& after.head@ == self.head@.update(key as int, idx as u16)
        &&& after.banks@.len() == self.banks@.len()
        &&& forall|j: int|
            0 <= j < self.banks@.len() && j != bank ==> #[trigger] after.banks@[j] == self.banks@[j]
        &&& after.banks@[bank].slots@ == self.banks@[bank].slots@.update(
            idx,
            SlotH42 { delta: delta as u16, next: self.head@[key as int] },
        )
    }

    open spec fn same_tables(&self, other: &Self) -> bool {
        &&& self.addr@ == other.addr@
        &&& self.head@ == other.head@
        &&& self.tiny_hash@ == other.tiny_hash@
        &&& self.banks@ == other.banks@
        &&& self.free_slot_idx@ == other.free_slot_idx@
        &&& self.max_hops == other.max_hops
    }

    proof fn lemma_linked_tables(&self, mid: &Self, fin: &Self, key: usize, ix: usize) {
    }

    fn num_last_distances(&self) -> (r: usize) {
        16
    }

    fn max_hops(&self) -> usize {
        self.max_hops
    }

    fn get_common(&self) -> (r: Struct1) {
        self.common
    }

    fn set_common(&mut self, c: Struct1) {
        self.common = c;
    }

    fn addr_at(&self, key: usize) -> u32 {
        self.addr[key]
    }

    fn head_at(&self, key: usize) -> u16 {
        self.head[key]
    }

    fn tiny_hash_at(&self, ix: usize) -> u8 {
        self.tiny_hash[ix]
    }

    fn slot_at(&self, key: usize, idx: u16) -> (u16, u16) {
        let bank: usize = key & 511;
        let i: usize = idx as usize & 511;
        proof {
            lemma_mask_le(key, 511);
            lemma_mask_le(idx as usize, 511);
        }
        let s: SlotH42 = self.banks[bank].slots[i];
        (s.delta, s.next)
    }

    fn link(&mut self, key: usize, ix: usize) {
        let bank: usize = key & 511;
        proof {
            lemma_mask_le(key, 511);
            lemma_mask_le(ix, 0xffff);
        }
        let free: u16 = self.free_slot_idx[bank];
        self.free_slot_idx.set(bank, free.wrapping_add(1));
        let idx: usize = free as usize & 511;
        proof {
            lemma_mask_le(free as usize, 511);
            assert(idx & 511 == idx) by (bit_vector)
                requires
                    idx == free as usize & 511,
            ;
        }
        let prev_addr: usize = self.addr[key] as usize;
        let delta: usize = if ix < prev_addr || ix - prev_addr > 0xffff {
            0xffff
        } else {
            ix - prev_addr
        };
        proof {
            assert(ix & 0xffff == ix % 0x10000 && key & 0xff == key % 0x100) by (bit_vector);
        }
        self.tiny_hash.set(ix & 0xffff, (key & 0xff) as u8);
        let next: u16 = self.head[key];
        let ghost banks_before = self.banks@;
        self.banks[bank].slots.set(idx, SlotH42 { delta: delta as u16, next });
        assert forall|j: int| 0 <= j < 512 implies (#[trigger] self.banks@[j]).slots@.len() == 512 by {
            if j != bank {
                assert(self.banks@[j] == banks_before[j]);
            }
        }
        self.addr.set(key, #[verifier::truncate] (ix as u32));
        self.head.set(key, idx as u16);
        proof {
            assert((idx as u16) as usize == idx);
            assert(self.spec_head()[key as int] == idx as u16);
        }
    }
}

impl AnyHasher for H42 {
    open spec fn inv(&self) -> bool {
        self.storage_ok()
    }

    open spec fn common(&self) -> Struct1 {
        self.common
    }

    open spec fn hash_type_length(&self) -> usize {
        4
    }

    open spec fn store_lookahead(&self) -> usize {
        4
    }

    open spec fn stored(&self, after: &Self, data: Seq<u8>, mask: usize, ix: usize) -> bool {
        self.linked(after, banked_key(data, mask, ix), ix)
    }

    open spec fn probe(
        &self,
        dict: &BrotliDictionary,
        dict_hash: Seq<u16>,
        data: Seq<u8>,
        mask: usize,
        distance_cache: Seq<i32>,
        cur_ix: usize,
        max_length: usize,
        max_backward: usize,
        out: HasherSearchResult,
    ) -> (bool, HasherSearchResult, Struct1) {
        banked_probe(
            self,
            dict,
            dict_hash,
            data,
            mask,
            distance_cache,
            cur_ix,
            max_length,
            max_backward,
            out,
        )
    }

    open spec fn num_distances(&self) -> i32 {
        16
    }

    fn GetHasherCommon(&self) -> (r: &Struct1) {
        &self.common
    }

    fn HashTypeLength(&self) -> (r: usize) {
        4
    }

    fn StoreLookahead(&self) -> (r: usize) {
        4
    }

    fn PrepareDistanceCache(&self, distance_cache: &mut [i32]) {
        PrepareDistanceCache(distance_cache, 16);
    }

    fn Store(&mut self, data: &[u8], mask: usize, ix: usize) {
        banked_store(self, data, mask, ix);
    }

    fn FindLongestMatch(
        &mut self,
        dictionary: &BrotliDictionary,
        dictionary_hash: &[u16],
        data: &[u8],
        ring_buffer_mask: usize,
        distance_cache: &[i32],
        cur_ix: usize,
        max_length: usize,
        max_backward: usize,
        out: &mut HasherSearchResult,
    ) -> (found: bool) {
        banked_find_longest_match(
            self,
            dictionary,
            dictionary_hash,
            data,
            ring_buffer_mask,
            distance_cache,
            cur_ix,
            max_length,
            max_backward,
            out,
        )
    }
}

} // verus!
