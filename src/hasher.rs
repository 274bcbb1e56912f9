//! What every hash-table index offers the driver, and what a probe promises
//! about the match it reports.
use vstd::prelude::*;

use crate::dictionary::{
    cutoff_transform_id, dict_probe, dict_try, kCutoffTransformsCount, kDictHashSize,
    BrotliDictionary,
};
use crate::distance_cache::prepared_cache;
use crate::score::score_fits;
use crate::search::{dict_probe_allowed, HasherSearchResult, Struct1};
use crate::util::{lemma_match_len, match_len};

verus! {

/// The `len` bytes `distance` back from `cur_ix` equal the `len` bytes at
/// `cur_ix`, both read at their masked ring-buffer slots.
pub open spec fn window_match(
    data: Seq<u8>,
    mask: usize,
    cur_ix: usize,
    distance: usize,
    len: usize,
) -> bool {
    let src = ((cur_ix - distance) as usize & mask) as int;
    let dst = (cur_ix & mask) as int;
    &&& 0 < distance <= cur_ix
    &&& src + len <= data.len()
    &&& dst + len <= data.len()
    &&& forall|k: int| 0 <= k < len ==> #[trigger] data[src + k] == data[dst + k]
}

/// The `len` bytes at `ix` are the start of the dictionary word of length
/// `word_len` and index `word`, cut by at most nine bytes, and `distance`
/// encodes that word and cut beyond `max_backward`.
pub open spec fn dictionary_word_match(
    dict: &BrotliDictionary,
    data: Seq<u8>,
    ix: int,
    max_backward: usize,
    distance: usize,
    len: usize,
    word_len: usize,
    word: usize,
) -> bool {
    let offset = dict.offsets_by_length@[word_len as int] + word_len * word;
    &&& word_len < dict.offsets_by_length@.len()
    &&& word < 2048
    &&& 0 < len <= word_len < len + kCutoffTransformsCount
    &&& match_len(data, ix, dict.data@, offset, word_len as nat) == len
    &&& distance == max_backward + word + 1 + ((cutoff_transform_id((word_len - len) as u64) as usize)
        << dict.size_bits_by_length@[word_len as int])
}

/// What a probe at `cur_ix` may report: a copy of 1 to `max_length` bytes,
/// either from the window (distance at most `max_backward`, bytes equal) or
/// of a dictionary word (distance beyond `max_backward`), with a score no
/// larger than any copy of that length can earn.
pub open spec fn valid_search_result(
    dict: &BrotliDictionary,
    data: Seq<u8>,
    mask: usize,
    cur_ix: usize,
    max_length: usize,
    max_backward: usize,
    r: HasherSearchResult,
) -> bool {
    &&& 1 <= r.len <= max_length
    &&& r.score <= 135 * r.len + 1935
    &&& r.distance <= max_backward + 0x8000_0800
    &&& if r.distance <= max_backward {
        r.len_x_code == 0 && window_match(data, mask, cur_ix, r.distance, r.len)
    } else {
        exists|word: usize|
            dictionary_word_match(
                dict,
                data,
                (cur_ix & mask) as int,
                max_backward,
                r.distance,
                r.len,
                r.len ^ r.len_x_code,
                word,
            )
    }
}

/// Running state of a probe: whether a candidate was taken, the best score
/// and length so far (a candidate must agree at the byte `best_len` past
/// both starts), and the result.
pub struct ProbeState {
    pub found: bool,
    pub best_score: usize,
    pub best_len: usize,
    pub out: HasherSearchResult,
}

/// The probe state after taking a copy of `len` bytes at `distance` with
/// score `score`.
pub open spec fn take_candidate(st: ProbeState, len: usize, distance: usize, score: usize) -> ProbeState {
    ProbeState {
        found: true,
        best_score: score,
        best_len: len,
        out: HasherSearchResult { len, len_x_code: st.out.len_x_code, distance, score },
    }
}

/// The bytes `off` past `a` and past `b` both exist and are equal.
pub open spec fn agree_at(data: Seq<u8>, a: int, b: int, off: int) -> bool {
    a + off < data.len() && b + off < data.len() && data[a + off] == data[b + off]
}

/// Requirements shared by every probe.
pub open spec fn probe_requires(
    dict: &BrotliDictionary,
    dict_hash: Seq<u16>,
    data: Seq<u8>,
    mask: usize,
    distance_cache: Seq<i32>,
    cur_ix: usize,
    max_length: usize,
    max_backward: usize,
) -> bool {
    &&& dict.wf()
    &&& dict_hash.len() == kDictHashSize
    &&& data.len() >= mask as int + 8
    &&& distance_cache.len() >= 16
    &&& max_backward <= cur_ix
    &&& max_backward + 0x8000_0800 <= usize::MAX
    &&& score_fits(data.len() as int)
}

/// A hash-table index over the ring buffer, as the driver uses it.
pub trait AnyHasher {
    /// The index's internal well-formedness.
    spec fn inv(&self) -> bool;

    /// Parameters and dictionary statistics.
    spec fn common(&self) -> Struct1;

    /// Bytes read to hash one position.
    spec fn hash_type_length(&self) -> usize;

    /// Bytes that must follow a position for it to be stored.
    spec fn store_lookahead(&self) -> usize;

    /// Number of distance-cache slots whose derived values the probe reads.
    spec fn num_distances(&self) -> i32;

    /// Outcome of a probe at `cur_ix` that starts from `out`: whether a
    /// better match was found, the search result, and the parameters and
    /// statistics after it.
    spec fn probe(
        &self,
        dict: &BrotliDictionary,
        dict_hash: Seq<u16>,
        data: Seq<u8>,
        mask: usize,
        distance_cache: Seq<i32>,
        cur_ix: usize,
        max_length: usize,
        max_backward: usize,
        out: HasherSearchResult,
    ) -> (bool, HasherSearchResult, Struct1);

    /// `after` is this index with position `ix` recorded, the bytes of `ix`
    /// read at its masked slot of `data`; parameters and statistics aside.
    spec fn stored(&self, after: &Self, data: Seq<u8>, mask: usize, ix: usize) -> bool;

    /// Parameters and dictionary statistics.
    fn GetHasherCommon(&self) -> (r: &Struct1)
        ensures
            *r == self.common(),
    ;

    fn HashTypeLength(&self) -> (r: usize)
        ensures
            r == self.hash_type_length(),
            4 <= r <= 8,
    ;

    fn StoreLookahead(&self) -> (r: usize)
        ensures
            r == self.store_lookahead(),
            4 <= r <= self.hash_type_length(),
    ;

    /// Fills the derived distance-cache slots this index probes.
    fn PrepareDistanceCache(&self, distance_cache: &mut [i32])
        requires
            crate::distance_cache::distance_cache_ok(old(distance_cache)@),
        ensures
            final(distance_cache)@ == prepared_cache(old(distance_cache)@, self.num_distances()),
    ;

    /// Records position `ix` in the index.
    fn Store(&mut self, data: &[u8], mask: usize, ix: usize)
        requires
            old(self).inv(),
            data@.len() >= mask as int + 8,
        ensures
            final(self).inv(),
            old(self).stored(&*final(self), data@, mask, ix),
            final(self).common() == old(self).common(),
            final(self).hash_type_length() == old(self).hash_type_length(),
            final(self).store_lookahead() == old(self).store_lookahead(),
            final(self).num_distances() == old(self).num_distances(),
    ;

    /// Finds the best match for the bytes at `cur_ix` that beats
    /// `out.score`, of at most `max_length` bytes and, inside the window, at
    /// most `max_backward` back, exactly as `probe` states; records `cur_ix`
    /// in the index as `Store` does. Returns whether `out` was improved. The dictionary is probed only while its
    /// hit rate is at least one in 128.
    fn FindLongestMatch(
        &mut self,
        dictionary: &BrotliDictionary,
        dictionary_hash: &[u16],
        data: &[u8],
        ring_buffer_mask: usize,
        distance_cache: &[i32],
        cur_ix: usize,
        max_length: usize,
        max_backward: usize,
        out: &mut HasherSearchResult,
    ) -> (found: bool)
        requires
            old(self).inv(),
            probe_requires(
                dictionary,
                dictionary_hash@,
                data@,
                ring_buffer_mask,
                distance_cache@,
                cur_ix,
                max_length,
                max_backward,
            ),
        ensures
            final(self).inv(),
            old(self).stored(&*final(self), data@, ring_buffer_mask, cur_ix),
            (found, *final(out), final(self).common()) == old(self).probe(
                dictionary,
                dictionary_hash@,
                data@,
                ring_buffer_mask,
                distance_cache@,
                cur_ix,
                max_length,
                max_backward,
                *old(out),
            ),
            final(self).hash_type_length() == old(self).hash_type_length(),
            final(self).store_lookahead() == old(self).store_lookahead(),
            final(self).num_distances() == old(self).num_distances(),
            final(self).common().params == old(self).common().params,
            found == (final(out).score > old(out).score),
            !found ==> final(out).score == old(out).score,
            found ==> valid_search_result(
                dictionary,
                data@,
                ring_buffer_mask,
                cur_ix,
                max_length,
                max_backward,
                *final(out),
            ),
            !dict_probe_allowed(old(self).common()) ==> final(self).common() == old(self).common()
                && (found ==> final(out).distance <= max_backward),
    ;
}

/// What a dictionary probe hands back: the result it was given, or a
/// better-scoring dictionary match.
pub proof fn lemma_dict_probe_valid(
    dict: &BrotliDictionary,
    dict_hash: Seq<u16>,
    data: Seq<u8>,
    mask: usize,
    cur_ix: usize,
    max_length: usize,
    max_backward: usize,
    out: HasherSearchResult,
    shallow: bool,
)
    requires
        dict.wf(),
        dict_hash.len() == kDictHashSize,
        (cur_ix & mask) + 4 <= data.len(),
        max_backward + 0x8000_0800 <= usize::MAX,
    ensures
        ({
            let p = dict_probe(
                dict,
                dict_hash,
                data,
                (cur_ix & mask) as int,
                max_length,
                max_backward,
                out,
                shallow,
            );
            &&& p.0 == 0 ==> p.1 == out
            &&& p.0 > 0 ==> p.1.score > out.score && p.1.distance > max_backward && valid_search_result(
                dict,
                data,
                mask,
                cur_ix,
                max_length,
                max_backward,
                p.1,
            )
        }),
{
    let ix = (cur_ix & mask) as int;
    let key = 2 * crate::dictionary::hash14(crate::util::le32(data, ix)) as int;
    lemma_dict_try_valid(dict, dict_hash[key] as usize, data, mask, cur_ix, max_length, max_backward, out);
    let first = dict_try(dict, dict_hash[key] as usize, data, ix, max_length, max_backward, out);
    lemma_dict_try_valid(
        dict,
        dict_hash[key + 1] as usize,
        data,
        mask,
        cur_ix,
        max_length,
        max_backward,
        first.1,
    );
}

proof fn lemma_dict_try_valid(
    dict: &BrotliDictionary,
    item: usize,
    data: Seq<u8>,
    mask: usize,
    cur_ix: usize,
    max_length: usize,
    max_backward: usize,
    out: HasherSearchResult,
)
    requires
        dict.wf(),
        item <= 0xffff,
        max_backward + 0x8000_0800 <= usize::MAX,
    ensures
        ({
            let t = dict_try(dict, item, data, (cur_ix & mask) as int, max_length, max_backward, out);
            &&& !t.0 ==> t.1 == out
            &&& t.0 ==> t.1.score > out.score && t.1.distance > max_backward && valid_search_result(
                dict,
                data,
                mask,
                cur_ix,
                max_length,
                max_backward,
                t.1,
            )
        }),
{
    let ix = (cur_ix & mask) as int;
    let t = dict_try(dict, item, data, ix, max_length, max_backward, out);
    if t.0 {
        let len = item & 0x1f;
        let word = item >> 5u64;
        let offset = dict.offsets_by_length@[len as int] + len * word;
        let matchlen = match_len(data, ix, dict.data@, offset, len as nat);
        lemma_match_len(data, ix, dict.data@, offset, len as nat);
        assert(len < 32 && word < 2048) by (bit_vector)
            requires
                len == item & 0x1f,
                word == item >> 5u64,
                item <= 0xffff,
        ;
        let m = matchlen as usize;
        assert(len ^ (len ^ m) == m && m ^ (len ^ m) == len) by (bit_vector);
        let cut = (len - matchlen) as u64;
        let tid = cutoff_transform_id(cut);
        let sb = dict.size_bits_by_length@[len as int];
        crate::dictionary::lemma_transform_id_small(cut);
        let tu = tid as usize;
        assert(tu << sb < 0x8000_0000) by (bit_vector)
            requires
                tu < 128,
                sb <= 24,
        ;
        assert(dictionary_word_match(
            dict,
            data,
            ix,
            max_backward,
            t.1.distance,
            t.1.len,
            t.1.len ^ t.1.len_x_code,
            word,
        ));
        crate::util::lemma_log2_floor_word(t.1.distance as nat);
    }
}

} // verus!
