//! Probe of the static dictionary: candidate words picked by a 14-bit hash of
//! the next four bytes, verified and scored on the same scale as in-window
//! matches.
use vstd::prelude::*;

use crate::score::{score, BackwardReferenceScore};
use crate::search::{dict_probe_allowed, HasherSearchResult, Struct1};
use crate::util::{le32, match_len, BROTLI_UNALIGNED_LOAD32, FindMatchLengthWithLimit};

verus! {

/// A match may drop at most this many bytes from the end of a word.
pub const kCutoffTransformsCount: usize = 10;

/// Packed 6-bit transform ids of the cut-off transforms, by bytes dropped.
pub const kCutoffTransforms: u64 = 0x071b520ada2d3200;

/// Multiplier of the four-byte hashes.
pub const kHashMul32: u32 = 0x1e35a7bd;

/// Number of entries of the dictionary hash table.
pub const kDictHashSize: usize = 32768;

/// The static dictionary: words of each length stored one after another.
pub struct BrotliDictionary {
    /// log2 of the number of words of each length.
    pub size_bits_by_length: Vec<u8>,
    /// Start in `data` of the words of each length.
    pub offsets_by_length: Vec<u32>,
    pub data: Vec<u8>,
}

impl BrotliDictionary {
    /// Both tables are indexed by word length and the word counts are small
    /// enough for a distance to fit in 32 bits.
    pub open spec fn wf(&self) -> bool {
        &&& self.size_bits_by_length@.len() == self.offsets_by_length@.len()
        &&& self.size_bits_by_length@.len() <= 32
        &&& forall|i: int|
            0 <= i < self.size_bits_by_length@.len() ==> #[trigger] self.size_bits_by_length@[i]
                <= 24
    }
}

/// 14-bit hash of a little-endian four-byte word.
pub open spec fn hash14(v: u32) -> u32 {
    v.wrapping_mul(kHashMul32) >> 18u32
}

/// Hash of the four bytes at `ix` that selects dictionary hash entries.
pub fn Hash14(data: &[u8], ix: usize) -> (r: u32)
    requires
        ix + 4 <= data@.len(),
    ensures
        r == hash14(le32(data@, ix as int)),
        r < 16384,
{
    let h: u32 = BROTLI_UNALIGNED_LOAD32(data, ix).wrapping_mul(kHashMul32);
    assert(h >> 18u32 < 16384) by (bit_vector);
    h >> 18u32
}

/// Transform id that drops `cut` bytes from the end of a word.
pub open spec fn cutoff_transform_id(cut: u64) -> u64 {
    ((cut << 2u64) + ((kCutoffTransforms >> ((cut * 6) as u64)) & 0x3f)) as u64
}

/// The match a nonzero dictionary hash entry `item` offers for the bytes at
/// `ix`, as `(length, len_x_code, distance, score)`, if it offers one.
pub open spec fn dict_item_match(
    dict: &BrotliDictionary,
    item: usize,
    data: Seq<u8>,
    ix: int,
    max_length: usize,
    max_backward: usize,
) -> Option<(usize, usize, usize, usize)> {
    let len = item & 0x1f;
    let dist = item >> 5u64;
    if len as int >= dict.offsets_by_length@.len() || len > max_length {
        None
    } else {
        let offset = dict.offsets_by_length@[len as int] + len * dist;
        let matchlen = match_len(data, ix, dict.data@, offset, len as nat);
        if matchlen + kCutoffTransformsCount <= len || matchlen == 0 {
            None
        } else {
            let cut = (len - matchlen) as u64;
            let backward = max_backward + dist + 1 + ((cutoff_transform_id(cut) as usize)
                << dict.size_bits_by_length@[len as int]);
            Some(
                (
                    matchlen as usize,
                    len ^ (matchlen as usize),
                    backward as usize,
                    score(matchlen as int, backward as nat) as usize,
                ),
            )
        }
    }
}

/// Result of trying one dictionary hash entry against `out`: whether it was
/// taken, and the search result after it.
pub open spec fn dict_try(
    dict: &BrotliDictionary,
    item: usize,
    data: Seq<u8>,
    ix: int,
    max_length: usize,
    max_backward: usize,
    out: HasherSearchResult,
) -> (bool, HasherSearchResult) {
    if item == 0 {
        (false, out)
    } else {
        match dict_item_match(dict, item, data, ix, max_length, max_backward) {
            Some(m) => if m.3 > out.score {
                (true, HasherSearchResult { len: m.0, len_x_code: m.1, distance: m.2, score: m.3 })
            } else {
                (false, out)
            },
            None => (false, out),
        }
    }
}

/// Every cut-off transform id is below 128.
pub proof fn lemma_transform_id_small(cut: u64)
    requires
        cut < 10,
    ensures
        cutoff_transform_id(cut) < 128,
{
    let t = (kCutoffTransforms >> ((cut * 6) as u64)) & 0x3f;
    assert(t <= 0x3f) by (bit_vector)
        requires
            t == (kCutoffTransforms >> ((cut * 6) as u64)) & 0x3f,
    ;
    assert(cut << 2u64 == cut * 4) by (bit_vector)
        requires
            cut < 10,
    ;
}

/// Checks one dictionary hash entry against the bytes at `ix`; takes it into
/// `out` (returning 1) when its score beats `out.score`, else returns 0 and
/// leaves `out` alone.
pub fn TestStaticDictionaryItem(
    dictionary: &BrotliDictionary,
    item: usize,
    data: &[u8],
    ix: usize,
    max_length: usize,
    max_backward: usize,
    out: &mut HasherSearchResult,
) -> (r: i32)
    requires
        dictionary.wf(),
        0 < item <= 0xffff,
        max_backward + 0x8000_0800 <= usize::MAX,
    ensures
        (r == 1) == dict_try(dictionary, item, data@, ix as int, max_length, max_backward, *old(out)).0,
        *final(out) == dict_try(
            dictionary,
            item,
            data@,
            ix as int,
            max_length,
            max_backward,
            *old(out),
        ).1,
        r == 0 || r == 1,
{
    let len: usize = item & 0x1f;
    let dist: usize = item >> 5u64;
    if len >= dictionary.offsets_by_length.len() || len > max_length {
        return 0;
    }
    assert(len < 32 && dist < 2048) by (bit_vector)
        requires
            len == item & 0x1f,
            dist == item >> 5u64,
            item <= 0xffff,
    ;
    assert(len * dist < 0x1_0000) by (nonlinear_arith)
        requires
            len < 32,
            dist < 2048,
    ;
    let base: usize = dictionary.offsets_by_length[len] as usize;
    if base > usize::MAX - len * dist {
        let dl = dictionary.data.len();
        assert(match_len(data@, ix as int, dictionary.data@, base + len * dist, len as nat) == 0);
        return 0;
    }
    let offset: usize = base + len * dist;
    let matchlen: usize = FindMatchLengthWithLimit(data, ix, &dictionary.data, offset, len);
    proof {
        crate::util::lemma_match_len(data@, ix as int, dictionary.data@, offset as int, len as nat);
    }
    if matchlen + kCutoffTransformsCount <= len || matchlen == 0 {
        return 0;
    }
    let cut: usize = len - matchlen;
    proof {
        lemma_transform_id_small(cut as u64);
    }
    let low: u64 = (kCutoffTransforms >> (cut as u64 * 6)) & 0x3f;
    assert(low <= 0x3f) by (bit_vector)
        requires
            low == (kCutoffTransforms >> (cut as u64 * 6)) & 0x3f,
    ;
    assert(cut << 2usize == cut * 4) by (bit_vector)
        requires
            cut < 10,
    ;
    let transform_id: usize = (cut << 2usize) + low as usize;
    assert((cut << 2usize) as u64 == (cut as u64) << 2u64) by (bit_vector)
        requires
            cut < 10,
    ;
    let sb: u8 = dictionary.size_bits_by_length[len];
    assert(transform_id << sb < 0x8000_0000) by (bit_vector)
        requires
            transform_id < 128,
            sb <= 24,
    ;
    let backward: usize = max_backward + dist + 1 + (transform_id << sb);
    let sc: usize = BackwardReferenceScore(matchlen, backward);
    if sc <= out.score {
        return 0;
    }
    out.len = matchlen;
    out.len_x_code = len ^ matchlen;
    out.distance = backward;
    out.score = sc;
    1
}

/// Outcome of a dictionary probe at `ix` that passed the hit-rate gate: the
/// number of entries taken, and the search result after the one (`shallow`)
/// or two hash entries it inspects.
pub open spec fn dict_probe(
    dict: &BrotliDictionary,
    dict_hash: Seq<u16>,
    data: Seq<u8>,
    ix: int,
    max_length: usize,
    max_backward: usize,
    out: HasherSearchResult,
    shallow: bool,
) -> (nat, HasherSearchResult) {
    let key = 2 * hash14(le32(data, ix)) as int;
    let first = dict_try(dict, dict_hash[key] as usize, data, ix, max_length, max_backward, out);
    let hits0: nat = if first.0 {
        1
    } else {
        0
    };
    if shallow {
        (hits0, first.1)
    } else {
        let second = dict_try(
            dict,
            dict_hash[key + 1] as usize,
            data,
            ix,
            max_length,
            max_backward,
            first.1,
        );
        (hits0 + if second.0 {
            1nat
        } else {
            0nat
        }, second.1)
    }
}

/// `a + b` on a machine word, wrapping around.
pub open spec fn wrap_add(a: usize, b: nat) -> usize {
    ((a + b) % (usize::MAX as int + 1)) as usize
}

/// Adds one to a counter, wrapping around at the top of the word.
pub fn wrapping_inc(c: usize) -> (r: usize)
    ensures
        r == wrap_add(c, 1),
{
    if c == usize::MAX {
        proof {
            vstd::arithmetic::div_mod::lemma_mod_self_0(usize::MAX as int + 1);
        }
        0
    } else {
        proof {
            vstd::arithmetic::div_mod::lemma_small_mod(c as nat + 1, usize::MAX as nat + 1);
        }
        c + 1
    }
}

proof fn lemma_wrap_add_twice(a: usize, b: nat, c: nat)
    requires
        c <= 2,
    ensures
        wrap_add(wrap_add(a, b), c) == wrap_add(a, b + c),
{
    let m = usize::MAX as int + 1;
    vstd::arithmetic::div_mod::lemma_add_mod_noop(a + b, c as int, m);
    vstd::arithmetic::div_mod::lemma_mod_twice(c as int, m);
    vstd::arithmetic::div_mod::lemma_small_mod(c as nat, m as nat);
}

/// Number of dictionary hash entries a probe inspects.
pub open spec fn dict_probe_width(shallow: bool) -> usize {
    if shallow {
        1
    } else {
        2
    }
}

/// Result of a dictionary search at `ix` from the statistics `common`:
/// whether an entry was taken, the search result and the statistics after
/// it. Nothing happens while fewer than one inspected entry in 128 matched.
pub open spec fn dict_search(
    dict: &BrotliDictionary,
    dict_hash: Seq<u16>,
    data: Seq<u8>,
    ix: int,
    max_length: usize,
    max_backward: usize,
    out: HasherSearchResult,
    shallow: bool,
    common: Struct1,
) -> (bool, HasherSearchResult, Struct1) {
    if !dict_probe_allowed(common) {
        (false, out, common)
    } else {
        let p = dict_probe(dict, dict_hash, data, ix, max_length, max_backward, out, shallow);
        (
            p.0 > 0,
            p.1,
            Struct1 {
                params: common.params,
                is_prepared_: common.is_prepared_,
                dict_num_lookups: wrap_add(common.dict_num_lookups, dict_probe_width(shallow) as nat),
                dict_num_matches: wrap_add(common.dict_num_matches, p.0),
            },
        )
    }
}

/// Probes the static dictionary for the bytes at `ix`, unless fewer than one
/// inspected entry in 128 has matched so far. Inspects one hash entry when
/// `shallow` is nonzero, two otherwise; counts each inspected entry and each
/// accepted one in `common`. Returns 1 when an entry improved `out`.
pub fn SearchInStaticDictionary(
    dictionary: &BrotliDictionary,
    dictionary_hash: &[u16],
    common: &mut Struct1,
    data: &[u8],
    ix: usize,
    max_length: usize,
    max_backward: usize,
    out: &mut HasherSearchResult,
    shallow: i32,
) -> (r: i32)
    requires
        dictionary.wf(),
        dictionary_hash@.len() == kDictHashSize,
        ix + 4 <= data@.len(),
        max_backward + 0x8000_0800 <= usize::MAX,
    ensures
        r == 0 || r == 1,
        (r == 1, *final(out), *final(common)) == dict_search(
            dictionary,
            dictionary_hash@,
            data@,
            ix as int,
            max_length,
            max_backward,
            *old(out),
            shallow != 0,
            *old(common),
        ),
        !dict_probe_allowed(*old(common)) ==> r == 0 && *final(out) == *old(out) && *final(common)
            == *old(common),
        dict_probe_allowed(*old(common)) ==> ({
            let p = dict_probe(
                dictionary,
                dictionary_hash@,
                data@,
                ix as int,
                max_length,
                max_backward,
                *old(out),
                shallow != 0,
            );
            &&& (r == 1) == (p.0 > 0)
            &&& *final(out) == p.1
            &&& final(common).params == old(common).params
            &&& final(common).is_prepared_ == old(common).is_prepared_
            &&& final(common).dict_num_lookups == wrap_add(
                old(common).dict_num_lookups,
                dict_probe_width(shallow != 0) as nat,
            )
            &&& final(common).dict_num_matches == wrap_add(old(common).dict_num_matches, p.0)
        }),
{
    if common.dict_num_matches < common.dict_num_lookups >> 7usize {
        return 0;
    }
    let ghost old_lookups = common.dict_num_lookups;
    let ghost old_matches = common.dict_num_matches;
    let key: usize = (Hash14(data, ix) as usize) * 2;
    let item0: usize = dictionary_hash[key] as usize;
    common.dict_num_lookups = wrapping_inc(common.dict_num_lookups);
    let mut found: i32 = 0;
    if item0 != 0 {
        if TestStaticDictionaryItem(dictionary, item0, data, ix, max_length, max_backward, out)
            != 0 {
            common.dict_num_matches = wrapping_inc(common.dict_num_matches);
            found = 1;
        }
    }
    if shallow == 0 {
        let item1: usize = dictionary_hash[key + 1] as usize;
        common.dict_num_lookups = wrapping_inc(common.dict_num_lookups);
        if item1 != 0 {
            if TestStaticDictionaryItem(dictionary, item1, data, ix, max_length, max_backward, out)
                != 0 {
                common.dict_num_matches = wrapping_inc(common.dict_num_matches);
                found = 1;
            }
        }
    }
    proof {
        lemma_wrap_add_twice(old_lookups, 1, 1);
        lemma_wrap_add_twice(old_matches, 1, 1);
        lemma_wrap_add_twice(old_matches, 0, 1);
        assert(wrap_add(old_matches, 0) == old_matches) by {
            vstd::arithmetic::div_mod::lemma_small_mod(old_matches as nat, usize::MAX as nat + 1);
        }
    }
    found
}

} // verus!
