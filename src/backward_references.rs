//! The greedy/lazy driver: walks the input, asks the hasher for matches,
//! defers a match by one byte when the next position scores clearly better,
//! keeps the distance cache, and appends literal-run/copy commands.
use vstd::prelude::*;

use crate::dictionary::{kDictHashSize, BrotliDictionary};
use crate::distance_cache::{
    code_distance, distance_cache_ok, prepared_cache, rotated_cache, ComputeDistanceCode,
};
use crate::hasher::{dictionary_word_match, valid_search_result, window_match, AnyHasher};
use crate::params::{literal_spree_length, BrotliEncoderParams, LiteralSpreeLengthForSparseSearch};
use crate::score::kMinScore;
use crate::search::HasherSearchResult;
use crate::util::{brotli_max_size_t, brotli_min_size_t};

verus! {

/// A score gain below this does not justify deferring a match by one byte.
pub const kCostDiffLazy: usize = 175;

/// One literal run followed by one copy.
#[derive(Clone, Copy, Debug, PartialEq, Eq, Structural)]
pub struct Command {
    /// Literals before the copy.
    pub insert_len: usize,
    /// Bytes copied.
    pub copy_len: usize,
    /// `copy_len` for a window copy; the dictionary word length for a
    /// dictionary copy.
    pub copy_len_code: usize,
    /// Distance code: below 16 a short code of the distance cache, else the
    /// distance plus 15.
    pub distance_code: usize,
}

/// Largest in-window distance at `pos`: `min(pos, limit)`.
pub open spec fn max_distance_at(pos: int, limit: usize) -> int {
    if pos < limit {
        pos
    } else {
        limit as int
    }
}

/// The copy of `c`, emitted at `pos` with distance `d`, reproduces bytes
/// already seen (from the window, at most `min(pos, limit)` back) or the
/// start of a dictionary word.
pub open spec fn copy_ok(
    dict: &BrotliDictionary,
    data: Seq<u8>,
    mask: usize,
    limit: usize,
    pos: int,
    c: Command,
    d: int,
) -> bool {
    let max_distance = max_distance_at(pos, limit);
    &&& 0 <= pos <= usize::MAX
    &&& 0 < d <= usize::MAX
    &&& c.copy_len >= 1
    &&& if d <= max_distance {
        c.copy_len_code == c.copy_len && window_match(data, mask, pos as usize, d as usize, c.copy_len)
    } else {
        exists|word: usize|
            #[trigger] dictionary_word_match(
                dict,
                data,
                (pos as usize & mask) as int,
                max_distance_at(pos, limit) as usize,
                d as usize,
                c.copy_len,
                c.copy_len_code,
                word,
            )
    }
}

/// Replays `cmds` from position `start` and distance cache `cache`: the
/// position after the last copy, the cache after it, and whether every copy
/// was valid. A copy whose code is not 0 and whose distance lies in the
/// window becomes the newest cached distance.
pub open spec fn replay(
    dict: &BrotliDictionary,
    data: Seq<u8>,
    mask: usize,
    limit: usize,
    num_distances: i32,
    cmds: Seq<Command>,
    start: int,
    cache: Seq<i32>,
) -> (int, Seq<i32>, bool)
    decreases cmds.len(),
{
    if cmds.len() == 0 {
        (start, cache, true)
    } else {
        let prev = replay(dict, data, mask, limit, num_distances, cmds.drop_last(), start, cache);
        let c = cmds.last();
        let pos = prev.0 + c.insert_len;
        let max_distance = if pos < limit {
            pos
        } else {
            limit as int
        };
        let d = code_distance(c.distance_code as int, prev.1);
        let next_cache = if c.distance_code > 0 && d <= max_distance {
            prepared_cache(rotated_cache(prev.1, d as i32), num_distances)
        } else {
            prev.1
        };
        (pos + c.copy_len, next_cache, prev.2 && copy_ok(dict, data, mask, limit, pos, c, d))
    }
}

/// Sum of the literal runs of `cmds`.
pub open spec fn total_inserts(cmds: Seq<Command>) -> int
    decreases cmds.len(),
{
    if cmds.len() == 0 {
        0
    } else {
        total_inserts(cmds.drop_last()) + cmds.last().insert_len
    }
}

/// Window limit `(1 << lgwin) - 16`.
pub open spec fn window_limit(lgwin: i32) -> usize {
    ((1usize << lgwin as usize) - 16) as usize
}

/// Inputs the driver accepts.
pub open spec fn create_requires<H: AnyHasher>(
    dictionary: &BrotliDictionary,
    dictionary_hash: Seq<u16>,
    num_bytes: usize,
    position: usize,
    ringbuffer: Seq<u8>,
    ringbuffer_mask: usize,
    params: &BrotliEncoderParams,
    hasher: H,
    dist_cache: Seq<i32>,
    last_insert_len: usize,
    num_commands: usize,
    num_literals: usize,
) -> bool {
    &&& hasher.inv()
    &&& dictionary.wf()
    &&& dictionary_hash.len() == kDictHashSize
    &&& 10 <= params.lgwin <= 24
    &&& ringbuffer.len() >= ringbuffer_mask as int + 8
    &&& 135 * ringbuffer.len() + 4096 <= usize::MAX
    &&& distance_cache_ok(dist_cache)
    &&& position + 2 * num_bytes + 0x1000 <= usize::MAX
    &&& last_insert_len + num_bytes <= usize::MAX
    &&& num_literals + last_insert_len + num_bytes <= usize::MAX
    &&& num_commands + num_bytes <= usize::MAX
}

proof fn lemma_replay_push(
    dict: &BrotliDictionary,
    data: Seq<u8>,
    mask: usize,
    limit: usize,
    num_distances: i32,
    cmds: Seq<Command>,
    c: Command,
    start: int,
    cache: Seq<i32>,
)
    ensures
        replay(dict, data, mask, limit, num_distances, cmds.push(c), start, cache) == ({
            let prev = replay(dict, data, mask, limit, num_distances, cmds, start, cache);
            let pos = prev.0 + c.insert_len;
            let max_distance = if pos < limit {
                pos
            } else {
                limit as int
            };
            let d = code_distance(c.distance_code as int, prev.1);
            let next_cache = if c.distance_code > 0 && d <= max_distance {
                prepared_cache(rotated_cache(prev.1, d as i32), num_distances)
            } else {
                prev.1
            };
            (pos + c.copy_len, next_cache, prev.2 && copy_ok(dict, data, mask, limit, pos, c, d))
        }),
        total_inserts(cmds.push(c)) == total_inserts(cmds) + c.insert_len,
{
    assert(cmds.push(c).drop_last() =~= cmds);
}

/// The commands emitted so far replay validly from `start` and `cache0`,
/// leave the distance cache `cache`, and end `insert_length` literals before
/// `position`.
#[verifier::opaque]
pub open spec fn emitted_ok(
    dict: &BrotliDictionary,
    data: Seq<u8>,
    mask: usize,
    limit: usize,
    num_distances: i32,
    start: int,
    cache0: Seq<i32>,
    cmds: Seq<Command>,
    cache: Seq<i32>,
    position: int,
    insert_length: int,
) -> bool {
    let r = replay(dict, data, mask, limit, num_distances, cmds, start, cache0);
    r.2 && r.1 == cache && r.0 + insert_length == position
}

proof fn lemma_emitted_ok_literals(
    dict: &BrotliDictionary,
    data: Seq<u8>,
    mask: usize,
    limit: usize,
    num_distances: i32,
    start: int,
    cache0: Seq<i32>,
    cmds: Seq<Command>,
    cache: Seq<i32>,
    position: int,
    insert_length: int,
    k: int,
)
    requires
        emitted_ok(dict, data, mask, limit, num_distances, start, cache0, cmds, cache, position, insert_length),
    ensures
        emitted_ok(
            dict,
            data,
            mask,
            limit,
            num_distances,
            start,
            cache0,
            cmds,
            cache,
            position + k,
            insert_length + k,
        ),
{
    reveal(emitted_ok);
}

/// `states` runs the hasher through storing the positions `start`,
/// `start + stride`, ... in order: each state is the one before it with the
/// next position recorded.
pub open spec fn store_run<H: AnyHasher>(
    states: Seq<H>,
    data: Seq<u8>,
    mask: usize,
    start: int,
    stride: int,
) -> bool {
    forall|k: int|
        #![trigger states[k]]
        0 <= k < states.len() - 1 ==> states[k].stored(
            &states[k + 1],
            data,
            mask,
            (start + k * stride) as usize,
        )
}

proof fn lemma_store_run_push<H: AnyHasher>(
    states: Seq<H>,
    next: H,
    data: Seq<u8>,
    mask: usize,
    start: int,
    stride: int,
)
    requires
        states.len() >= 1,
        store_run(states, data, mask, start, stride),
        states.last().stored(
            &next,
            data,
            mask,
            (start + (states.len() - 1) * stride) as usize,
        ),
    ensures
        store_run(states.push(next), data, mask, start, stride),
{
    let s2 = states.push(next);
    assert forall|k: int| 0 <= k < s2.len() - 1 implies #[trigger] s2[k].stored(
        &s2[k + 1],
        data,
        mask,
        (start + k * stride) as usize,
    ) by {
        if k < states.len() - 1 {
            assert(s2[k] == states[k] && s2[k + 1] == states[k + 1]);
            assert(states[k].stored(&states[k + 1], data, mask, (start + k * stride) as usize));
        } else {
            assert(s2[k] == states.last() && s2[k + 1] == next);
        }
    }
}

/// Records every position in `ix_start..ix_end` in the hasher, in order.
pub fn StoreRange<H: AnyHasher>(hasher: &mut H, data: &[u8], mask: usize, ix_start: usize, ix_end: usize)
    requires
        old(hasher).inv(),
        data@.len() >= mask as int + 8,
    ensures
        final(hasher).inv(),
        final(hasher).common() == old(hasher).common(),
        final(hasher).hash_type_length() == old(hasher).hash_type_length(),
        final(hasher).store_lookahead() == old(hasher).store_lookahead(),
        final(hasher).num_distances() == old(hasher).num_distances(),
        exists|states: Seq<H>|
            #[trigger] store_run(states, data@, mask, ix_start as int, 1)
                && states.len() == (if ix_end > ix_start {
                ix_end - ix_start
            } else {
                0
            }) + 1 && states[0] == *old(hasher) && states.last() == *final(hasher),
{
    let mut i: usize = ix_start;
    let ghost mut states: Seq<H> = seq![*hasher];
    while i < ix_end
        invariant
            ix_start <= i,
            i <= ix_end || i == ix_start,
            states.len() == i - ix_start + 1,
            states[0] == *old(hasher),
            states.last() == *hasher,
            store_run(states, data@, mask, ix_start as int, 1),
            hasher.inv(),
            hasher.common() == old(hasher).common(),
            hasher.hash_type_length() == old(hasher).hash_type_length(),
            hasher.store_lookahead() == old(hasher).store_lookahead(),
            hasher.num_distances() == old(hasher).num_distances(),
            data@.len() >= mask as int + 8,
        decreases ix_end - i,
    {
        let ghost before = *hasher;
        hasher.Store(data, mask, i);
        proof {
            lemma_store_run_push(states, *hasher, data@, mask, ix_start as int, 1);
            states = states.push(*hasher);
        }
        i = i + 1;
    }
}

/// Skips through a poorly matching region: stores every `stride`-th
/// position from `position` on while it is below `pos_jump`, and returns the
/// first position not stored.
fn skip_sparse<H: AnyHasher>(
    hasher: &mut H,
    data: &[u8],
    mask: usize,
    position: usize,
    pos_jump: usize,
    stride: usize,
) -> (r: usize)
    requires
        old(hasher).inv(),
        data@.len() >= mask as int + 8,
        1 <= stride <= 4,
        pos_jump + stride <= usize::MAX,
    ensures
        final(hasher).inv(),
        final(hasher).common() == old(hasher).common(),
        final(hasher).hash_type_length() == old(hasher).hash_type_length(),
        final(hasher).store_lookahead() == old(hasher).store_lookahead(),
        final(hasher).num_distances() == old(hasher).num_distances(),
        position >= pos_jump ==> r == position,
        position < pos_jump ==> pos_jump <= r < pos_jump + stride,
        r >= position,
{
    let mut p: usize = position;
    while p < pos_jump
        invariant
            hasher.inv(),
            hasher.common() == old(hasher).common(),
            hasher.hash_type_length() == old(hasher).hash_type_length(),
            hasher.store_lookahead() == old(hasher).store_lookahead(),
            hasher.num_distances() == old(hasher).num_distances(),
            data@.len() >= mask as int + 8,
            position <= p,
            position < pos_jump ==> p < pos_jump + stride,
            position >= pos_jump ==> p == position,
            pos_jump + stride <= usize::MAX,
            1 <= stride <= 4,
        decreases pos_jump + stride - p,
    {
        hasher.Store(data, mask, p);
        p = p + stride;
    }
    p
}

proof fn lemma_copy_ok(
    dict: &BrotliDictionary,
    data: Seq<u8>,
    mask: usize,
    limit: usize,
    position: usize,
    max_length: usize,
    sr: HasherSearchResult,
    cmd: Command,
)
    requires
        valid_search_result(
            dict,
            data,
            mask,
            position,
            max_length,
            if position < limit {
                position
            } else {
                limit
            },
            sr,
        ),
        cmd.copy_len == sr.len,
        cmd.copy_len_code == sr.len ^ sr.len_x_code,
    ensures
        copy_ok(dict, data, mask, limit, position as int, cmd, sr.distance as int),
{
    let max_d: usize = if position < limit {
        position
    } else {
        limit
    };
    let l = sr.len;
    assert(l ^ 0usize == l) by (bit_vector);
    if sr.distance > max_d {
        let word = choose|word: usize|
            dictionary_word_match(
                dict,
                data,
                (position & mask) as int,
                max_d,
                sr.distance,
                sr.len,
                sr.len ^ sr.len_x_code,
                word,
            );
        let md: int = max_distance_at(position as int, limit);
        assert(md as usize == max_d);
        assert(dictionary_word_match(
            dict,
            data,
            ((position as int) as usize & mask) as int,
            md as usize,
            (sr.distance as int) as usize,
            cmd.copy_len,
            cmd.copy_len_code,
            word,
        ));
    } else {
        assert(window_match(data, mask, (position as int) as usize, (sr.distance as int) as usize, cmd.copy_len));
    }
}

/// Emits the copy `sr` found at `position` after `insert_length` literals:
/// makes its distance the newest cached one where its code asks for that,
/// appends the command and counts it.
fn emit_copy<H: AnyHasher>(
    hasher: &H,
    dictionary: &BrotliDictionary,
    ringbuffer: &[u8],
    ringbuffer_mask: usize,
    max_backward_limit: usize,
    dist_cache: &mut [i32],
    commands: &mut Vec<Command>,
    num_commands: &mut usize,
    num_literals: &mut usize,
    sr: HasherSearchResult,
    position: usize,
    insert_length: usize,
    max_length: usize,
    Ghost(old_len): Ghost<int>,
    Ghost(start): Ghost<int>,
    Ghost(cache0): Ghost<Seq<i32>>,
)
    requires
        hasher.inv(),
        1008 <= max_backward_limit <= 0x100_0000 - 16,
        distance_cache_ok(old(dist_cache)@),
        valid_search_result(
            dictionary,
            ringbuffer@,
            ringbuffer_mask,
            position,
            max_length,
            if position < max_backward_limit {
                position
            } else {
                max_backward_limit
            },
            sr,
        ),
        position + sr.len <= usize::MAX,
        0 <= old_len <= old(commands)@.len(),
        *old(num_commands) + 1 <= usize::MAX,
        *old(num_literals) + insert_length <= usize::MAX,
        emitted_ok(
            dictionary,
            ringbuffer@,
            ringbuffer_mask,
            max_backward_limit,
            hasher.num_distances(),
            start,
            cache0,
            old(commands)@.subrange(old_len, old(commands)@.len() as int),
            old(dist_cache)@,
            position as int,
            insert_length as int,
        ),
    ensures
        distance_cache_ok(final(dist_cache)@),
        final(commands)@ == old(commands)@.push(
            Command {
                insert_len: insert_length,
                copy_len: sr.len,
                copy_len_code: sr.len ^ sr.len_x_code,
                distance_code: final(commands)@.last().distance_code,
            },
        ),
        *final(num_commands) == *old(num_commands) + 1,
        *final(num_literals) == *old(num_literals) + insert_length,
        emitted_ok(
            dictionary,
            ringbuffer@,
            ringbuffer_mask,
            max_backward_limit,
            hasher.num_distances(),
            start,
            cache0,
            final(commands)@.subrange(old_len, final(commands)@.len() as int),
            final(dist_cache)@,
            position + sr.len,
            0,
        ),
{
    let max_distance: usize = brotli_min_size_t(position, max_backward_limit);
    let distance_code: usize = ComputeDistanceCode(sr.distance, max_distance, dist_cache);
    let ghost cache_before = dist_cache@;
    if sr.distance <= max_distance && distance_code > 0 {
        dist_cache[3] = dist_cache[2];
        dist_cache[2] = dist_cache[1];
        dist_cache[1] = dist_cache[0];
        dist_cache[0] = sr.distance as i32;
        assert(dist_cache@ =~= rotated_cache(cache_before, sr.distance as i32));
        hasher.PrepareDistanceCache(dist_cache);
    }
    let cmd = Command {
        insert_len: insert_length,
        copy_len: sr.len,
        copy_len_code: sr.len ^ sr.len_x_code,
        distance_code,
    };
    let ghost prev_cmds = commands@.subrange(old_len, commands@.len() as int);
    proof {
        reveal(emitted_ok);
        lemma_replay_push(
            dictionary,
            ringbuffer@,
            ringbuffer_mask,
            max_backward_limit,
            hasher.num_distances(),
            prev_cmds,
            cmd,
            start,
            cache0,
        );
        let l = sr.len;
        assert(l ^ 0usize == l) by (bit_vector);
    }
    commands.push(cmd);
    assert(commands@.subrange(old_len, commands@.len() as int) =~= prev_cmds.push(cmd));
    proof {
        reveal(emitted_ok);
        lemma_copy_ok(
            dictionary,
            ringbuffer@,
            ringbuffer_mask,
            max_backward_limit,
            position,
            max_length,
            sr,
            cmd,
        );
    }
    *num_commands = *num_commands + 1;
    *num_literals = *num_literals + insert_length;
}

#[verifier::rlimit(50)]
/// Finds backward references for the `num_bytes` bytes at `position` of the
/// ring buffer and appends them to `commands` as literal runs and copies.
/// Literals pending from before (`last_insert_len`) open the first run; the
/// trailing literals are left in `last_insert_len`.
pub fn CreateBackwardReferences<H: AnyHasher>(
    dictionary: &BrotliDictionary,
    dictionary_hash: &[u16],
    num_bytes: usize,
    position: usize,
    ringbuffer: &[u8],
    ringbuffer_mask: usize,
    params: &BrotliEncoderParams,
    hasher: &mut H,
    dist_cache: &mut [i32],
    last_insert_len: &mut usize,
    commands: &mut Vec<Command>,
    num_commands: &mut usize,
    num_literals: &mut usize,
)
    requires
        create_requires(
            dictionary,
            dictionary_hash@,
            num_bytes,
            position,
            ringbuffer@,
            ringbuffer_mask,
            params,
            *old(hasher),
            old(dist_cache)@,
            *old(last_insert_len),
            *old(num_commands),
            *old(num_literals),
        ),
    ensures
        final(hasher).inv(),
        final(hasher).common().params == old(hasher).common().params,
        final(hasher).num_distances() == old(hasher).num_distances(),
        distance_cache_ok(final(dist_cache)@),
        final(commands)@.len() >= old(commands)@.len(),
        final(commands)@.subrange(0, old(commands)@.len() as int) == old(commands)@,
        ({
            let new_cmds = final(commands)@.subrange(
                old(commands)@.len() as int,
                final(commands)@.len() as int,
            );
            let r = replay(
                dictionary,
                ringbuffer@,
                ringbuffer_mask,
                window_limit(params.lgwin),
                old(hasher).num_distances(),
                new_cmds,
                position - *old(last_insert_len),
                prepared_cache(old(dist_cache)@, old(hasher).num_distances()),
            );
            &&& r.2
            &&& r.1 == final(dist_cache)@
            &&& r.0 + *final(last_insert_len) == position + num_bytes
            &&& *final(num_commands) == *old(num_commands) + new_cmds.len()
            &&& *final(num_literals) == *old(num_literals) + total_inserts(new_cmds)
        }),
        position + old(hasher).hash_type_length() < position + num_bytes && old(hasher).probe(
            dictionary,
            dictionary_hash@,
            ringbuffer@,
            ringbuffer_mask,
            prepared_cache(old(dist_cache)@, old(hasher).num_distances()),
            position,
            num_bytes,
            max_distance_at(position as int, window_limit(params.lgwin)) as usize,
            HasherSearchResult { len: 0, len_x_code: 0, distance: 0, score: kMinScore },
        ).0 ==> final(commands)@.len() > old(commands)@.len(),
{
    let ghost old_len = commands@.len() as int;
    let ghost nd = hasher.num_distances();
    let ghost start: int = position - *last_insert_len;
    let ghost cache0 = prepared_cache(dist_cache@, nd);
    let lg: usize = params.lgwin as usize;
    assert(1usize << lg >= 1024 && 1usize << lg <= 0x100_0000) by (bit_vector)
        requires
            10 <= lg <= 24,
    ;
    let max_backward_limit: usize = (1usize << lg) - 16;
    let mut insert_length: usize = *last_insert_len;
    let pos_end: usize = position + num_bytes;
    let store_lookahead: usize = hasher.StoreLookahead();
    let hash_type_len: usize = hasher.HashTypeLength();
    let store_end: usize = if num_bytes >= store_lookahead {
        position + num_bytes - store_lookahead + 1
    } else {
        position
    };
    let random_heuristics_window_size: usize = LiteralSpreeLengthForSparseSearch(params);
    let mut apply_random_heuristics: usize = position + random_heuristics_window_size;
    hasher.PrepareDistanceCache(dist_cache);
    let mut position: usize = position;
    let ghost position0 = position;
    let ghost literals0 = *num_literals;
    let ghost commands0 = *num_commands;
    let ghost last0 = *last_insert_len;
    let ghost old_hasher = *hasher;
    let ghost first_found = old_hasher.probe(
        dictionary,
        dictionary_hash@,
        ringbuffer@,
        ringbuffer_mask,
        cache0,
        position0,
        num_bytes,
        max_distance_at(position0 as int, max_backward_limit) as usize,
        HasherSearchResult { len: 0, len_x_code: 0, distance: 0, score: kMinScore },
    ).0;
    proof {
        reveal(emitted_ok);
        assert(commands@.subrange(old_len, commands@.len() as int) =~= Seq::<Command>::empty());
        assert(commands@.subrange(0, old_len) =~= commands@);
    }
    while position + hash_type_len < pos_end
        invariant
            hasher.inv(),
            hasher.common().params == old(hasher).common().params,
            hasher.num_distances() == nd,
            hasher.hash_type_length() == hash_type_len,
            hasher.store_lookahead() == store_lookahead,
            4 <= store_lookahead <= hash_type_len <= 8,
            max_backward_limit == window_limit(params.lgwin),
            1008 <= max_backward_limit <= 0x100_0000 - 16,
            pos_end == position0 + num_bytes,
            position0 + 2 * num_bytes + 0x1000 <= usize::MAX,
            last0 + num_bytes <= usize::MAX,
            literals0 + last0 + num_bytes <= usize::MAX,
            commands0 + num_bytes <= usize::MAX,
            position0 <= position <= pos_end,
            insert_length <= last0 + (position - position0),
            apply_random_heuristics <= position0 + 2 * num_bytes + 512,
            random_heuristics_window_size == literal_spree_length(params.quality),
            store_end <= pos_end,
            dictionary.wf(),
            dictionary_hash@.len() == kDictHashSize,
            ringbuffer@.len() >= ringbuffer_mask as int + 8,
            135 * ringbuffer@.len() + 4096 <= usize::MAX,
            distance_cache_ok(dist_cache@),
            0 <= old_len <= commands@.len(),
            commands@.subrange(0, old_len) == old(commands)@,
            position == position0 ==> *hasher == old_hasher && dist_cache@ == cache0
                && commands@.len() == old_len,
            first_found && position > position0 ==> commands@.len() > old_len,
            first_found == old_hasher.probe(
                dictionary,
                dictionary_hash@,
                ringbuffer@,
                ringbuffer_mask,
                cache0,
                position0,
                num_bytes,
                max_distance_at(position0 as int, max_backward_limit) as usize,
                HasherSearchResult { len: 0, len_x_code: 0, distance: 0, score: kMinScore },
            ).0,
            emitted_ok(
                dictionary,
                ringbuffer@,
                ringbuffer_mask,
                max_backward_limit,
                nd,
                start,
                cache0,
                commands@.subrange(old_len, commands@.len() as int),
                dist_cache@,
                position as int,
                insert_length as int,
            ),
            *num_commands == commands0 + (commands@.len() - old_len),
            *num_literals == literals0 + total_inserts(
                commands@.subrange(old_len, commands@.len() as int),
            ),
            commands@.len() - old_len <= position - position0,
            total_inserts(commands@.subrange(old_len, commands@.len() as int)) + insert_length
                <= last0 + (position - position0),
        decreases pos_end - position,
    {
        let ghost iteration_start = position;
        let mut max_length: usize = pos_end - position;
        let mut max_distance: usize = brotli_min_size_t(position, max_backward_limit);
        let mut sr = HasherSearchResult { len: 0, len_x_code: 0, distance: 0, score: kMinScore };
        let ghost at_start = position == position0;
        assert(at_start ==> max_length == num_bytes);
        let ghost len_before = commands@.len();
        assert(max_distance == max_distance_at(position as int, max_backward_limit) as usize);
        let found: bool = hasher.FindLongestMatch(
            dictionary,
            dictionary_hash,
            ringbuffer,
            ringbuffer_mask,
            dist_cache,
            position,
            max_length,
            max_distance,
            &mut sr,
        );
        assert(at_start ==> found == first_found);
        if found {
            let mut delayed_backward_references_in_row: i32 = 0;
            max_length = max_length - 1;
            loop
                invariant_except_break
                    delayed_backward_references_in_row <= 3,
                    position + hash_type_len < pos_end,
                    max_length == pos_end - position - 1,
                invariant
                    hasher.inv(),
                    hasher.common().params == old(hasher).common().params,
                    hasher.num_distances() == nd,
                    hasher.hash_type_length() == hash_type_len,
                    hasher.store_lookahead() == store_lookahead,
                    0 <= delayed_backward_references_in_row <= 4,
                    pos_end == position0 + num_bytes,
                    position0 + 2 * num_bytes + 0x1000 <= usize::MAX,
                    last0 + num_bytes <= usize::MAX,
                    1008 <= max_backward_limit <= 0x100_0000 - 16,
                    position0 <= position < pos_end,
                    iteration_start <= position,
                    commands@.len() == len_before,
                    dictionary.wf(),
                    dictionary_hash@.len() == kDictHashSize,
                    ringbuffer@.len() >= ringbuffer_mask as int + 8,
                    135 * ringbuffer@.len() + 4096 <= usize::MAX,
                    distance_cache_ok(dist_cache@),
                    literals0 + last0 + num_bytes <= usize::MAX,
                    commands0 + num_bytes <= usize::MAX,
                    max_backward_limit == window_limit(params.lgwin),
                    0 <= old_len <= commands@.len(),
                    commands@.subrange(0, old_len) == old(commands)@,
                    *num_commands == commands0 + (commands@.len() - old_len),
                    *num_literals == literals0 + total_inserts(
                        commands@.subrange(old_len, commands@.len() as int),
                    ),
                    valid_search_result(
                        dictionary,
                        ringbuffer@,
                        ringbuffer_mask,
                        position,
                        (pos_end - position) as usize,
                        if position < max_backward_limit {
                            position
                        } else {
                            max_backward_limit
                        },
                        sr,
                    ),
                    insert_length <= last0 + (position - position0),
                    emitted_ok(
                        dictionary,
                        ringbuffer@,
                        ringbuffer_mask,
                        max_backward_limit,
                        nd,
                        start,
                        cache0,
                        commands@.subrange(old_len, commands@.len() as int),
                        dist_cache@,
                        position as int,
                        insert_length as int,
                    ),
                    commands@.len() - old_len <= position - position0,
                    total_inserts(commands@.subrange(old_len, commands@.len() as int))
                        + insert_length <= last0 + (position - position0),
                decreases 4 - delayed_backward_references_in_row,
            {
                let seed_len: usize = if params.quality < 5 {
                    brotli_min_size_t(sr.len - 1, max_length)
                } else {
                    0
                };
                let mut sr2 = HasherSearchResult {
                    len: seed_len,
                    len_x_code: 0,
                    distance: 0,
                    score: kMinScore,
                };
                max_distance = brotli_min_size_t(position + 1, max_backward_limit);
                let found2: bool = hasher.FindLongestMatch(
                    dictionary,
                    dictionary_hash,
                    ringbuffer,
                    ringbuffer_mask,
                    dist_cache,
                    position + 1,
                    max_length,
                    max_distance,
                    &mut sr2,
                );
                if found2 && sr2.score >= sr.score + kCostDiffLazy {
                    proof {
                        lemma_emitted_ok_literals(
                            dictionary,
                            ringbuffer@,
                            ringbuffer_mask,
                            max_backward_limit,
                            nd,
                            start,
                            cache0,
                            commands@.subrange(old_len, commands@.len() as int),
                            dist_cache@,
                            position as int,
                            insert_length as int,
                            1,
                        );
                    }
                    position = position + 1;
                    insert_length = insert_length + 1;
                    sr = sr2;
                    delayed_backward_references_in_row = delayed_backward_references_in_row + 1;
                    if delayed_backward_references_in_row < 4 && position + hash_type_len
                        < pos_end {
                        max_length = max_length - 1;
                        continue ;
                    }
                }
                break ;
            }
            apply_random_heuristics = position + 2 * sr.len + random_heuristics_window_size;
            let ghost before = commands@;
            emit_copy(
                hasher,
                dictionary,
                ringbuffer,
                ringbuffer_mask,
                max_backward_limit,
                dist_cache,
                commands,
                num_commands,
                num_literals,
                sr,
                position,
                insert_length,
                (pos_end - position) as usize,
                Ghost(old_len),
                Ghost(start),
                Ghost(cache0),
            );
            proof {
                let prev = commands@.subrange(old_len, commands@.len() as int - 1);
                assert(prev =~= before.subrange(old_len, before.len() as int));
                assert(commands@.subrange(old_len, commands@.len() as int) =~= prev.push(
                    commands@.last(),
                ));
                lemma_replay_push(
                    dictionary,
                    ringbuffer@,
                    ringbuffer_mask,
                    max_backward_limit,
                    nd,
                    prev,
                    commands@.last(),
                    start,
                    cache0,
                );
                assert(commands@.subrange(0, old_len) =~= old(commands)@);
            }
            insert_length = 0;
            StoreRange(
                hasher,
                ringbuffer,
                ringbuffer_mask,
                position + 2,
                brotli_min_size_t(position + sr.len, store_end),
            );
            position = position + sr.len;
            assert(iteration_start < position <= pos_end);
            assert(commands@.len() > len_before);
        } else {
            proof {
                lemma_emitted_ok_literals(
                    dictionary,
                    ringbuffer@,
                    ringbuffer_mask,
                    max_backward_limit,
                    nd,
                    start,
                    cache0,
                    commands@.subrange(old_len, commands@.len() as int),
                    dist_cache@,
                    position as int,
                    insert_length as int,
                    1,
                );
            }
            insert_length = insert_length + 1;
            position = position + 1;
            if position > apply_random_heuristics {
                let stride: usize = if position > apply_random_heuristics + 4
                    * random_heuristics_window_size {
                    4
                } else {
                    2
                };
                let kMargin: usize = brotli_max_size_t(store_lookahead - 1, stride);
                let pos_jump: usize = brotli_min_size_t(position + 4 * stride, pos_end - kMargin);
                let next: usize = skip_sparse(
                    hasher,
                    ringbuffer,
                    ringbuffer_mask,
                    position,
                    pos_jump,
                    stride,
                );
                proof {
                    lemma_emitted_ok_literals(
                        dictionary,
                        ringbuffer@,
                        ringbuffer_mask,
                        max_backward_limit,
                        nd,
                        start,
                        cache0,
                        commands@.subrange(old_len, commands@.len() as int),
                        dist_cache@,
                        position as int,
                        insert_length as int,
                        next - position,
                    );
                }
                insert_length = insert_length + (next - position);
                position = next;
            }
            assert(iteration_start < position <= pos_end);
        }
    }
    proof {
        lemma_emitted_ok_literals(
            dictionary,
            ringbuffer@,
            ringbuffer_mask,
            max_backward_limit,
            nd,
            start,
            cache0,
            commands@.subrange(old_len, commands@.len() as int),
            dist_cache@,
            position as int,
            insert_length as int,
            pos_end - position,
        );
        reveal(emitted_ok);
    }
    insert_length = insert_length + (pos_end - position);
    *last_insert_len = insert_length;
}

} // verus!
