//! Properties of the command stream the driver emits, stated over its
//! replay and proved from the driver's contract.
use vstd::prelude::*;

use crate::backward_references::{copy_ok, max_distance_at, replay, Command};
use crate::dictionary::BrotliDictionary;
use crate::distance_cache::{code_distance, prepared_cache, rotated_cache};
use crate::hasher::{dictionary_word_match, window_match};
use crate::util::lemma_match_len;

verus! {

/// Sum of the literal runs and copies of `cmds`.
pub open spec fn total_length(cmds: Seq<Command>) -> int
    decreases cmds.len(),
{
    if cmds.len() == 0 {
        0
    } else {
        total_length(cmds.drop_last()) + cmds.last().insert_len + cmds.last().copy_len
    }
}

/// Position at which the copy of command `i` starts.
pub open spec fn copy_position(
    dict: &BrotliDictionary,
    data: Seq<u8>,
    mask: usize,
    limit: usize,
    num_distances: i32,
    cmds: Seq<Command>,
    start: int,
    cache: Seq<i32>,
    i: int,
) -> int {
    replay(dict, data, mask, limit, num_distances, cmds.take(i), start, cache).0 + cmds[i].insert_len
}

/// Distance the code of command `i` names, given the cache before it.
pub open spec fn copy_distance(
    dict: &BrotliDictionary,
    data: Seq<u8>,
    mask: usize,
    limit: usize,
    num_distances: i32,
    cmds: Seq<Command>,
    start: int,
    cache: Seq<i32>,
    i: int,
) -> int {
    code_distance(
        cmds[i].distance_code as int,
        replay(dict, data, mask, limit, num_distances, cmds.take(i), start, cache).1,
    )
}

/// Replaying commands moves the position by their total length.
pub proof fn lemma_replay_length(
    dict: &BrotliDictionary,
    data: Seq<u8>,
    mask: usize,
    limit: usize,
    num_distances: i32,
    cmds: Seq<Command>,
    start: int,
    cache: Seq<i32>,
)
    ensures
        replay(dict, data, mask, limit, num_distances, cmds, start, cache).0 == start
            + total_length(cmds),
    decreases cmds.len(),
{
    if cmds.len() > 0 {
        lemma_replay_length(dict, data, mask, limit, num_distances, cmds.drop_last(), start, cache);
    }
}

/// Length law: the literal runs and copies of the emitted commands, with the
/// trailing literals, cover exactly the input handed in plus the literals
/// that were pending before it.
pub proof fn lemma_lengths_cover_input(
    dict: &BrotliDictionary,
    data: Seq<u8>,
    mask: usize,
    limit: usize,
    num_distances: i32,
    cmds: Seq<Command>,
    position: int,
    num_bytes: int,
    old_last_insert_len: int,
    last_insert_len: int,
    cache: Seq<i32>,
)
    requires
        replay(dict, data, mask, limit, num_distances, cmds, position - old_last_insert_len, cache).0
            + last_insert_len == position + num_bytes,
    ensures
        total_length(cmds) + last_insert_len == num_bytes + old_last_insert_len,
{
    lemma_replay_length(dict, data, mask, limit, num_distances, cmds, position - old_last_insert_len, cache);
}

proof fn lemma_replay_prefix_ok(
    dict: &BrotliDictionary,
    data: Seq<u8>,
    mask: usize,
    limit: usize,
    num_distances: i32,
    cmds: Seq<Command>,
    start: int,
    cache: Seq<i32>,
    n: int,
)
    requires
        0 <= n <= cmds.len(),
        replay(dict, data, mask, limit, num_distances, cmds, start, cache).2,
    ensures
        replay(dict, data, mask, limit, num_distances, cmds.take(n), start, cache).2,
    decreases cmds.len(),
{
    if n < cmds.len() {
        assert(cmds.drop_last().take(n) =~= cmds.take(n));
        lemma_replay_prefix_ok(dict, data, mask, limit, num_distances, cmds.drop_last(), start, cache, n);
    } else {
        assert(cmds.take(n) =~= cmds);
    }
}

/// Validity law: where a replay succeeds, every command's copy repeats the
/// bytes at its distance inside the window (at most `min(pos, limit)`
/// back), or is the start of a dictionary word whose distance lies beyond
/// the window.
pub proof fn lemma_every_copy_valid(
    dict: &BrotliDictionary,
    data: Seq<u8>,
    mask: usize,
    limit: usize,
    num_distances: i32,
    cmds: Seq<Command>,
    start: int,
    cache: Seq<i32>,
    i: int,
)
    requires
        0 <= i < cmds.len(),
        replay(dict, data, mask, limit, num_distances, cmds, start, cache).2,
    ensures
        copy_ok(
            dict,
            data,
            mask,
            limit,
            copy_position(dict, data, mask, limit, num_distances, cmds, start, cache, i),
            cmds[i],
            copy_distance(dict, data, mask, limit, num_distances, cmds, start, cache, i),
        ),
{
    lemma_replay_prefix_ok(dict, data, mask, limit, num_distances, cmds, start, cache, i + 1);
    let pre = cmds.take(i + 1);
    assert(pre.drop_last() =~= cmds.take(i));
    assert(pre.last() == cmds[i]);
}

/// Cache law: a copy whose code is not 0 and whose distance lies in the
/// window makes that distance the newest and shifts the three newest down
/// one slot; any other copy leaves the four newest distances as they were.
pub proof fn lemma_cache_rotation(
    dict: &BrotliDictionary,
    data: Seq<u8>,
    mask: usize,
    limit: usize,
    num_distances: i32,
    cmds: Seq<Command>,
    c: Command,
    start: int,
    cache: Seq<i32>,
)
    requires
        replay(dict, data, mask, limit, num_distances, cmds, start, cache).1.len() >= 16,
        0 <= code_distance(
            c.distance_code as int,
            replay(dict, data, mask, limit, num_distances, cmds, start, cache).1,
        ) <= i32::MAX,
    ensures
        ({
            let before = replay(dict, data, mask, limit, num_distances, cmds, start, cache);
            let after = replay(dict, data, mask, limit, num_distances, cmds.push(c), start, cache);
            let pos = before.0 + c.insert_len;
            let d = code_distance(c.distance_code as int, before.1);
            if c.distance_code > 0 && d <= max_distance_at(pos, limit) {
                &&& after.1[0] == d
                &&& after.1[1] == before.1[0]
                &&& after.1[2] == before.1[1]
                &&& after.1[3] == before.1[2]
            } else {
                after.1.subrange(0, 4) == before.1.subrange(0, 4)
            }
        }),
{
    assert(cmds.push(c).drop_last() =~= cmds);
    let before = replay(dict, data, mask, limit, num_distances, cmds, start, cache);
    let d = code_distance(c.distance_code as int, before.1);
    let rot = rotated_cache(before.1, d as i32);
    assert(prepared_cache(rot, num_distances).subrange(0, 4) =~= rot.subrange(0, 4));
}

/// `out` extended by `n` bytes, each copied from `d` bytes before it, one at
/// a time (so a copy may overlap its own output).
pub open spec fn copy_back(out: Seq<u8>, d: int, n: nat) -> Seq<u8>
    decreases n,
{
    if n == 0 {
        out
    } else {
        let o = copy_back(out, d, (n - 1) as nat);
        o.push(o[o.len() - d])
    }
}

/// Start in the dictionary of the word that a dictionary copy names.
pub open spec fn dictionary_word_start(
    dict: &BrotliDictionary,
    data: Seq<u8>,
    mask: usize,
    pos: int,
    max_distance: int,
    c: Command,
    d: int,
) -> int {
    let word = choose|word: usize|
        #[trigger] dictionary_word_match(
            dict,
            data,
            (pos as usize & mask) as int,
            max_distance as usize,
            d as usize,
            c.copy_len,
            c.copy_len_code,
            word,
        );
    dict.offsets_by_length@[c.copy_len_code as int] + c.copy_len_code * word
}

/// What a decoder rebuilds from `cmds`: the bytes before `start`, then for
/// each command its literal run (taken from `data`) and its copy, resolved
/// against the bytes rebuilt so far or against the dictionary.
pub open spec fn decoded(
    dict: &BrotliDictionary,
    data: Seq<u8>,
    mask: usize,
    limit: usize,
    num_distances: i32,
    cmds: Seq<Command>,
    start: int,
    cache: Seq<i32>,
) -> Seq<u8>
    decreases cmds.len(),
{
    if cmds.len() == 0 {
        data.take(start)
    } else {
        let prev = replay(dict, data, mask, limit, num_distances, cmds.drop_last(), start, cache);
        let out = decoded(dict, data, mask, limit, num_distances, cmds.drop_last(), start, cache);
        let c = cmds.last();
        let pos = prev.0 + c.insert_len;
        let with_literals = out + data.subrange(prev.0, pos);
        let d = code_distance(c.distance_code as int, prev.1);
        if d <= max_distance_at(pos, limit) {
            copy_back(with_literals, d, c.copy_len as nat)
        } else {
            let w = dictionary_word_start(dict, data, mask, pos, max_distance_at(pos, limit), c, d);
            with_literals + dict.data@.subrange(w, w + c.copy_len)
        }
    }
}

proof fn lemma_copy_back(data: Seq<u8>, pos: int, d: int, n: nat)
    requires
        0 < d <= pos,
        pos + n <= data.len(),
        forall|k: int| 0 <= k < n ==> #[trigger] data[pos - d + k] == data[pos + k],
    ensures
        copy_back(data.take(pos), d, n) == data.take(pos + n),
    decreases n,
{
    if n > 0 {
        lemma_copy_back(data, pos, d, (n - 1) as nat);
        let k = n - 1;
        assert(data[pos - d + k] == data[pos + k]);
        assert(data.take(pos + k).push(data[pos + k]) =~= data.take(pos + n));
    }
}

proof fn lemma_replay_grows(
    dict: &BrotliDictionary,
    data: Seq<u8>,
    mask: usize,
    limit: usize,
    num_distances: i32,
    cmds: Seq<Command>,
    start: int,
    cache: Seq<i32>,
)
    ensures
        replay(dict, data, mask, limit, num_distances, cmds, start, cache).0 >= start,
    decreases cmds.len(),
{
    if cmds.len() > 0 {
        lemma_replay_grows(dict, data, mask, limit, num_distances, cmds.drop_last(), start, cache);
    }
}

/// Round-trip law: where the replay of `cmds` succeeds over an unwrapped
/// window (positions below `mask + 1`, `mask` one less than a power of
/// two), rebuilding literal runs and copies gives back exactly the input up
/// to the end of the last copy.
pub proof fn lemma_round_trip(
    dict: &BrotliDictionary,
    data: Seq<u8>,
    mask: usize,
    limit: usize,
    num_distances: i32,
    cmds: Seq<Command>,
    start: int,
    cache: Seq<i32>,
)
    requires
        mask & ((mask + 1) as usize) == 0,
        data.len() >= mask + 1,
        0 <= start,
        replay(dict, data, mask, limit, num_distances, cmds, start, cache).2,
        replay(dict, data, mask, limit, num_distances, cmds, start, cache).0 <= mask + 1,
    ensures
        decoded(dict, data, mask, limit, num_distances, cmds, start, cache) == data.take(
            replay(dict, data, mask, limit, num_distances, cmds, start, cache).0,
        ),
    decreases cmds.len(),
{
    if cmds.len() > 0 {
        let pre = cmds.drop_last();
        let prev = replay(dict, data, mask, limit, num_distances, pre, start, cache);
        lemma_replay_grows(dict, data, mask, limit, num_distances, pre, start, cache);
        lemma_round_trip(dict, data, mask, limit, num_distances, pre, start, cache);
        let c = cmds.last();
        let pos = prev.0 + c.insert_len;
        let d = code_distance(c.distance_code as int, prev.1);
        let md = max_distance_at(pos, limit);
        assert(data.take(prev.0) + data.subrange(prev.0, pos) =~= data.take(pos));
        let p = pos as usize;
        assert(p & mask == p) by (bit_vector)
            requires
                p <= mask,
                mask & ((mask + 1) as usize) == 0,
        ;
        if d <= md {
            assert(window_match(data, mask, pos as usize, d as usize, c.copy_len));
            let q = (pos - d) as usize;
            assert(q & mask == q) by (bit_vector)
                requires
                    q <= mask,
                    mask & ((mask + 1) as usize) == 0,
            ;
            assert forall|k: int| 0 <= k < c.copy_len implies #[trigger] data[pos - d + k] == data[pos
                + k] by {
                assert(data[q + k] == data[p + k]);
            }
            lemma_copy_back(data, pos, d, c.copy_len as nat);
        } else {
            let w = dictionary_word_start(dict, data, mask, pos, md, c, d);
            let word = choose|word: usize|
                #[trigger] dictionary_word_match(
                    dict,
                    data,
                    (pos as usize & mask) as int,
                    md as usize,
                    d as usize,
                    c.copy_len,
                    c.copy_len_code,
                    word,
                );
            assert(dictionary_word_match(
                dict,
                data,
                (pos as usize & mask) as int,
                md as usize,
                d as usize,
                c.copy_len,
                c.copy_len_code,
                word,
            ));
            lemma_match_len(data, p as int, dict.data@, w, c.copy_len_code as nat);
            assert(w + c.copy_len <= dict.data@.len());
            assert(pos + c.copy_len <= data.len());
            let lhs = data.take(pos) + dict.data@.subrange(w, w + c.copy_len);
            let rhs = data.take(pos + c.copy_len);
            assert forall|i: int| 0 <= i < lhs.len() implies lhs[i] == rhs[i] by {
                if i >= pos {
                    let k = i - pos;
                    assert(data[p + k] == dict.data@[w + k]);
                }
            }
            assert(lhs =~= rhs);
        }
    }
}

} // verus!
