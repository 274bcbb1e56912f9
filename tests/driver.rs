use brotli::adv_hasher::{AdvHashSpecialization, H6Sub};
use brotli::backward_references::{Command, CreateBackwardReferences};
use brotli::dictionary::{BrotliDictionary, Hash14, SearchInStaticDictionary, TestStaticDictionaryItem};
use brotli::hasher::AnyHasher;
use brotli::params::{BrotliEncoderMode, BrotliEncoderParams, BrotliHasherParams};
use brotli::score::kMinScore;
use brotli::search::{HasherSearchResult, Struct1};
use brotli::union_hasher::UnionHasher;

fn params(type_: i32, quality: i32, lgwin: i32) -> BrotliEncoderParams {
    let (bucket_bits, block_bits, hash_len, num_last) = match type_ {
        5 => (14, 4, 4, 4),
        6 => (15, 5, 5, 16),
        40 => (15, 0, 4, 4),
        41 => (15, 0, 4, 10),
        42 => (15, 0, 4, 16),
        _ => (16, 0, 5, 0),
    };
    BrotliEncoderParams {
        mode: BrotliEncoderMode::BROTLI_MODE_GENERIC,
        quality,
        lgwin,
        lgblock: 16,
        size_hint: 0,
        disable_literal_context_modeling: 0,
        hasher: BrotliHasherParams {
            type_,
            bucket_bits,
            block_bits,
            hash_len,
            num_last_distances_to_check: num_last,
        },
    }
}

fn empty_dictionary() -> BrotliDictionary {
    BrotliDictionary {
        size_bits_by_length: vec![0u8; 25],
        offsets_by_length: vec![0u32; 25],
        data: Vec::new(),
    }
}

struct Run {
    commands: Vec<Command>,
    last_insert_len: usize,
    num_literals: usize,
    num_commands: usize,
    dist_cache: Vec<i32>,
    hasher: UnionHasher,
    ringbuffer: Vec<u8>,
    mask: usize,
}

fn run_at(
    input: &[u8],
    position: usize,
    p: &BrotliEncoderParams,
    dict: &BrotliDictionary,
    dict_hash: &[u16],
) -> Run {
    let mask = (1usize << p.lgwin) - 1;
    let mut ringbuffer = vec![0u8; mask + 1 + 8];
    for (i, b) in input.iter().enumerate() {
        ringbuffer[(position + i) & mask] = *b;
    }
    let mut hasher = UnionHasher::new(p).expect("supported hasher");
    let mut dist_cache = vec![4, 11, 15, 16, 0, 0, 0, 0, 0, 0, 0, 0, 0, 0, 0, 0];
    let mut last_insert_len = 0usize;
    let mut commands = Vec::new();
    let mut num_commands = 0usize;
    let mut num_literals = 0usize;
    CreateBackwardReferences(
        dict,
        dict_hash,
        input.len(),
        position,
        &ringbuffer,
        mask,
        p,
        &mut hasher,
        &mut dist_cache,
        &mut last_insert_len,
        &mut commands,
        &mut num_commands,
        &mut num_literals,
    );
    Run { commands, last_insert_len, num_literals, num_commands, dist_cache, hasher, ringbuffer, mask }
}

fn run(input: &[u8], p: &BrotliEncoderParams) -> Run {
    run_at(input, 0, p, &empty_dictionary(), &vec![0u16; 32768])
}

/// Distance a code names given the four newest distances.
fn decode_distance(code: usize, cache: &[i64; 4]) -> i64 {
    if code >= 16 {
        return code as i64 - 15;
    }
    if code < 4 {
        return cache[code];
    }
    let (base, k) = if code < 10 { (cache[0], code - 4) } else { (cache[1], code - 10) };
    let mag = (k / 2 + 1) as i64;
    if k % 2 == 0 { base - mag } else { base + mag }
}

/// Rebuilds the input from the commands, taking literals from the input and
/// copies from what was rebuilt; returns the copy starts and distances.
fn replay_commands(r: &Run, input: &[u8], lgwin: i32) -> (Vec<u8>, Vec<(usize, i64)>) {
    let limit = (1i64 << lgwin) - 16;
    let mut cache: [i64; 4] = [4, 11, 15, 16];
    let mut out: Vec<u8> = Vec::new();
    let mut copies = Vec::new();
    for c in &r.commands {
        out.extend_from_slice(&input[out.len()..out.len() + c.insert_len]);
        let pos = out.len();
        let d = decode_distance(c.distance_code, &cache);
        let max_distance = std::cmp::min(pos as i64, limit);
        assert!(d >= 1 && d <= max_distance, "window copy expected");
        assert_eq!(c.copy_len_code, c.copy_len);
        for _ in 0..c.copy_len {
            let b = out[out.len() - d as usize];
            out.push(b);
        }
        if c.distance_code > 0 {
            cache = [d, cache[0], cache[1], cache[2]];
        }
        copies.push((pos, d));
    }
    out.extend_from_slice(&input[out.len()..out.len() + r.last_insert_len]);
    (out, copies)
}

fn sample_text() -> Vec<u8> {
    let mut v = Vec::new();
    for i in 0..40 {
        v.extend_from_slice(b"the cat sat on the mat; ");
        v.extend_from_slice(format!("line {} of {}\n", i % 7, i % 3).as_bytes());
    }
    v
}

#[test]
fn run_of_one_byte_h2() {
    let input = vec![b'a'; 20];
    let r = run(&input, &params(2, 5, 10));
    assert_eq!(r.commands.len(), 1);
    let c = r.commands[0];
    assert_eq!(c.insert_len, 1);
    assert_eq!(c.copy_len, 19);
    assert_eq!(c.copy_len_code, 19);
    assert_eq!(c.distance_code, 8);
    assert_eq!(decode_distance(c.distance_code, &[4, 11, 15, 16]), 1);
    assert_eq!(r.last_insert_len, 0);
    assert_eq!(&r.dist_cache[0..4], &[1, 4, 11, 15]);
}

#[test]
fn repeated_triple_h5() {
    let input = b"abcabcabcabcabcabc";
    let r = run(input, &params(5, 5, 10));
    assert_eq!(r.commands.len(), 1);
    let c = r.commands[0];
    assert_eq!(c.insert_len, 3);
    assert_eq!(c.copy_len, 15);
    assert_eq!(decode_distance(c.distance_code, &[4, 11, 15, 16]), 3);
    assert_eq!(r.last_insert_len, 0);
    assert_eq!(r.num_literals, 3);
    assert_eq!(r.num_commands, 1);
    assert_eq!(r.dist_cache[0], 3);
}

#[test]
fn random_bytes_h6_stop_dictionary_probes() {
    let mut x: u64 = 0x9e3779b97f4a7c15;
    let mut input = Vec::new();
    for _ in 0..4096 {
        x ^= x << 13;
        x ^= x >> 7;
        x ^= x << 17;
        input.push((x >> 24) as u8);
    }
    let r = run(&input, &params(6, 9, 16));
    let common = r.hasher.GetHasherCommon();
    assert_eq!(common.dict_num_matches, 0);
    assert!(common.dict_num_lookups <= 129);
    assert!(r.num_literals + r.last_insert_len >= 4096 * 9 / 10);
    let total: usize =
        r.commands.iter().map(|c| c.insert_len + c.copy_len).sum::<usize>() + r.last_insert_len;
    assert_eq!(total, 4096);
}

#[test]
fn second_sentence_copied_h4() {
    let input = b"The quick brown fox jumps over the lazy dog. The quick brown fox jumps over the lazy dog.";
    let r = run(input, &params(4, 5, 10));
    assert_eq!(r.commands.len(), 1);
    let c = r.commands[0];
    assert_eq!(c.insert_len, 45);
    assert_eq!(c.copy_len, 44);
    assert_eq!(c.distance_code, 45 + 15);
    assert_eq!(r.last_insert_len, 0);
}

#[test]
fn lazy_match_prefers_next_position() {
    let mut input = Vec::new();
    input.extend_from_slice(b"abcdef#__");
    input.extend_from_slice(b"++bcdefghijklm!__");
    let p = input.len();
    input.extend_from_slice(b"abcdefghijklm====");
    let r = run(&input, &params(5, 5, 10));
    let (out, copies) = replay_commands(&r, &input, 10);
    assert_eq!(out, input);
    let hit = copies.iter().position(|(pos, _)| *pos == p + 1).expect("copy at p + 1");
    assert_eq!(r.commands[hit].copy_len, 12);
    assert!(r.commands[hit].insert_len >= 1);
    assert!(copies.iter().all(|(pos, _)| *pos != p));
}

#[test]
fn dictionary_word_with_cut_h5() {
    let mut dict = empty_dictionary();
    dict.data = b"dictionaryAB".to_vec();
    let mut dict_hash = vec![0u16; 32768];
    let input = b"dictionaryXY";
    let key = (Hash14(input, 0) as usize) << 1;
    dict_hash[key] = 12;
    let r = run_at(input, 2000, &params(5, 5, 10), &dict, &dict_hash);
    assert_eq!(r.commands.len(), 1);
    let c = r.commands[0];
    assert_eq!(c.insert_len, 0);
    assert_eq!(c.copy_len, 10);
    assert_eq!(c.copy_len_code, 12);
    let limit = (1usize << 10) - 16;
    let backward = c.distance_code - 15;
    assert!(backward > limit);
    assert_eq!(backward, limit + 0 + 1 + 27);
    assert_eq!(r.last_insert_len, 2);
    let common = r.hasher.GetHasherCommon();
    assert_eq!(common.dict_num_matches, 1);
}

#[test]
fn same_input_same_commands() {
    let text = sample_text();
    for t in [2, 3, 4, 5, 6, 40, 41, 42, 54] {
        let a = run(&text, &params(t, 5, 16));
        let b = run(&text, &params(t, 5, 16));
        assert_eq!(a.commands, b.commands);
        assert_eq!(a.last_insert_len, b.last_insert_len);
        assert_eq!(a.dist_cache, b.dist_cache);
    }
}

#[test]
fn every_hasher_round_trips() {
    let text = sample_text();
    for t in [2, 3, 4, 5, 6, 40, 41, 42, 54] {
        for q in [4, 5, 9] {
            let r = run(&text, &params(t, q, 16));
            let (out, copies) = replay_commands(&r, &text, 16);
            assert_eq!(out, text, "hasher {} quality {}", t, q);
            assert!(!copies.is_empty(), "hasher {} found no copy", t);
            for (pos, d) in copies.iter().zip(r.commands.iter()).map(|((p, d), _)| (*p, *d)) {
                assert!(d as usize <= pos);
            }
        }
    }
}

#[test]
fn lengths_cover_input() {
    let text = sample_text();
    for t in [2, 5, 42] {
        let r = run(&text, &params(t, 5, 16));
        let total: usize =
            r.commands.iter().map(|c| c.insert_len + c.copy_len).sum::<usize>() + r.last_insert_len;
        assert_eq!(total, text.len());
        let inserts: usize = r.commands.iter().map(|c| c.insert_len).sum();
        assert_eq!(inserts, r.num_literals);
        assert_eq!(r.commands.len(), r.num_commands);
    }
}

#[test]
fn copies_repeat_window_bytes() {
    let text = sample_text();
    let r = run(&text, &params(6, 9, 16));
    let (_, copies) = replay_commands(&r, &text, 16);
    for ((pos, d), c) in copies.iter().zip(r.commands.iter()) {
        for k in 0..c.copy_len {
            let src = (*pos - *d as usize + k) & r.mask;
            let dst = (*pos + k) & r.mask;
            assert_eq!(r.ringbuffer[src], r.ringbuffer[dst]);
        }
    }
}

#[test]
fn empty_input_emits_nothing() {
    let r = run(b"", &params(5, 5, 10));
    assert!(r.commands.is_empty());
    assert_eq!(r.last_insert_len, 0);
    let r = run(b"abc", &params(2, 5, 10));
    assert!(r.commands.is_empty());
    assert_eq!(r.last_insert_len, 3);
}

#[test]
fn unknown_hasher_kind_is_refused() {
    assert!(UnionHasher::new(&params(7, 5, 10)).is_none());
    let mut p = params(5, 5, 10);
    p.hasher.bucket_bits = 30;
    assert!(UnionHasher::new(&p).is_none());
    let mut p = params(6, 5, 10);
    p.hasher.hash_len = 9;
    assert!(UnionHasher::new(&p).is_none());
    assert!(UnionHasher::new(&params(54, 5, 10)).is_some());
}

fn common() -> Struct1 {
    Struct1 {
        params: params(5, 5, 10).hasher,
        is_prepared_: 1,
        dict_num_lookups: 0,
        dict_num_matches: 0,
    }
}

#[test]
fn dictionary_item_scored_and_cut() {
    let mut dict = empty_dictionary();
    dict.data = b"dictionaryAB".to_vec();
    let data = b"dictionaryXY";
    let mut out = HasherSearchResult { len: 0, len_x_code: 0, distance: 0, score: kMinScore };
    assert_eq!(TestStaticDictionaryItem(&dict, 12, data, 0, 12, 100, &mut out), 1);
    assert_eq!(out.len, 10);
    assert_eq!(out.len_x_code, 12 ^ 10);
    assert_eq!(out.distance, 100 + 1 + 27);
    assert_eq!(out.score, 1920 + 1350 - 30 * 7);
    let before = out;
    assert_eq!(TestStaticDictionaryItem(&dict, 12, data, 0, 12, 100, &mut out), 0);
    assert_eq!(out, before);
    let mut out2 = HasherSearchResult { len: 0, len_x_code: 0, distance: 0, score: kMinScore };
    assert_eq!(TestStaticDictionaryItem(&dict, 12, data, 0, 11, 100, &mut out2), 0);
    assert_eq!(TestStaticDictionaryItem(&dict, 12, b"Xictionary12", 0, 12, 100, &mut out2), 0);
}

#[test]
fn dictionary_probe_counts_and_gates() {
    let mut dict = empty_dictionary();
    dict.data = b"dictionaryAB".to_vec();
    let data = b"dictionaryXY";
    let mut dict_hash = vec![0u16; 32768];
    dict_hash[(Hash14(data, 0) as usize) << 1] = 12;
    let mut c = common();
    let mut out = HasherSearchResult { len: 0, len_x_code: 0, distance: 0, score: kMinScore };
    assert_eq!(SearchInStaticDictionary(&dict, &dict_hash, &mut c, data, 0, 12, 100, &mut out, 0), 1);
    assert_eq!((c.dict_num_lookups, c.dict_num_matches), (2, 1));
    let mut out = HasherSearchResult { len: 0, len_x_code: 0, distance: 0, score: kMinScore };
    assert_eq!(SearchInStaticDictionary(&dict, &dict_hash, &mut c, data, 0, 12, 100, &mut out, 1), 1);
    assert_eq!((c.dict_num_lookups, c.dict_num_matches), (3, 2));
    let mut gated = common();
    gated.dict_num_lookups = 256;
    gated.dict_num_matches = 1;
    let mut out = HasherSearchResult { len: 0, len_x_code: 0, distance: 0, score: kMinScore };
    assert_eq!(SearchInStaticDictionary(&dict, &dict_hash, &mut gated, data, 0, 12, 100, &mut out, 0), 0);
    assert_eq!((gated.dict_num_lookups, gated.dict_num_matches), (256, 1));
    assert_eq!(out.score, kMinScore);
}

#[test]
fn probe_only_improves_on_seed() {
    let mask = (1usize << 10) - 1;
    let mut rb = vec![0u8; mask + 1 + 8];
    let text = b"0123456789abcdef0123456789abcdef";
    rb[..text.len()].copy_from_slice(text);
    let cache = vec![4, 11, 15, 16, 0, 0, 0, 0, 0, 0, 0, 0, 0, 0, 0, 0];
    let dict = empty_dictionary();
    let dict_hash = vec![0u16; 32768];
    for t in [2, 4, 5, 6, 42] {
        let p = params(t, 5, 10);
        let mut h = UnionHasher::new(&p).expect("supported hasher");
        for pos in 0..16 {
            h.Store(&rb, mask, pos);
        }
        let mut low = HasherSearchResult { len: 0, len_x_code: 0, distance: 0, score: kMinScore };
        assert!(h.FindLongestMatch(&dict, &dict_hash, &rb, mask, &cache, 16, 16, 16, &mut low));
        assert_eq!(low.distance, 16, "hasher {}", t);
        assert_eq!(low.len, 16, "hasher {}", t);
        assert!(low.score > kMinScore);
        let mut high = HasherSearchResult { len: 0, len_x_code: 0, distance: 0, score: 100_000 };
        let mut h2 = UnionHasher::new(&p).expect("supported hasher");
        for pos in 0..16 {
            h2.Store(&rb, mask, pos);
        }
        assert!(!h2.FindLongestMatch(&dict, &dict_hash, &rb, mask, &cache, 16, 16, 16, &mut high));
        assert_eq!(high.score, 100_000);
    }
}

#[test]
fn wide_blocks_are_accepted() {
    let mut p = params(5, 5, 10);
    p.hasher.bucket_bits = 4;
    p.hasher.block_bits = 20;
    assert!(UnionHasher::new(&p).is_some());
    p.hasher.block_bits = 25;
    assert!(UnionHasher::new(&p).is_none());
    p.hasher.block_bits = 0;
    assert!(UnionHasher::new(&p).is_none());
}

#[test]
fn hash_mask_keeps_low_bytes() {
    let mut h = H6Sub { hash_mask: 0 };
    h.set_hash_mask(5);
    assert_eq!(h.get_hash_mask(), 0xff_ffff_ffff);
    h.set_hash_mask(8);
    assert_eq!(h.get_hash_mask(), u64::MAX);
}
