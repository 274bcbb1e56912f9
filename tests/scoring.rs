use brotli::basic_hasher::HashBytesH2;
use brotli::dictionary::{Hash14, wrapping_inc};
use brotli::distance_cache::{ComputeDistanceCode, PrepareDistanceCache};
use brotli::params::{
    BrotliEncoderMode, BrotliEncoderParams, BrotliHasherParams, LiteralSpreeLengthForSparseSearch,
};
use brotli::score::{
    kMinScore, BackwardReferencePenaltyUsingLastDistance, BackwardReferenceScore,
    BackwardReferenceScoreUsingLastDistance,
};
use brotli::util::{
    brotli_max_size_t, brotli_min_size_t, bytes_agree_at, unopt_ctzll, FindMatchLengthWithLimit,
    Log2FloorNonZero, BROTLI_UNALIGNED_LOAD32, BROTLI_UNALIGNED_LOAD64,
};

fn params(quality: i32) -> BrotliEncoderParams {
    BrotliEncoderParams {
        mode: BrotliEncoderMode::BROTLI_MODE_GENERIC,
        quality,
        lgwin: 10,
        lgblock: 16,
        size_hint: 0,
        disable_literal_context_modeling: 0,
        hasher: BrotliHasherParams {
            type_: 2,
            bucket_bits: 16,
            block_bits: 0,
            hash_len: 5,
            num_last_distances_to_check: 0,
        },
    }
}

#[test]
fn score_of_copy_from_cache() {
    assert_eq!(BackwardReferenceScoreUsingLastDistance(4), 135 * 4 + 1920 + 15);
    assert_eq!(BackwardReferenceScoreUsingLastDistance(0), 1935);
}

#[test]
fn score_of_copy_falls_with_distance() {
    assert_eq!(BackwardReferenceScore(4, 1), 1920 + 540);
    assert_eq!(BackwardReferenceScore(10, 1024), 1920 + 1350 - 300);
    assert_eq!(BackwardReferenceScore(10, 1023), 1920 + 1350 - 270);
    assert!(BackwardReferenceScore(6, 8) > BackwardReferenceScore(6, 9000));
}

#[test]
fn minimum_score_is_word_based() {
    assert_eq!(kMinScore, 240 * 8 + 100);
}

#[test]
fn penalty_table_by_slot() {
    let expected = [39, 39, 43, 43, 39, 39, 47, 47, 49, 49, 41, 41, 51, 51, 45, 45];
    for (i, e) in expected.iter().enumerate() {
        assert_eq!(BackwardReferencePenaltyUsingLastDistance(i), *e);
    }
}

#[test]
fn log2_and_trailing_zeros() {
    assert_eq!(Log2FloorNonZero(1), 0);
    assert_eq!(Log2FloorNonZero(2), 1);
    assert_eq!(Log2FloorNonZero(1023), 9);
    assert_eq!(Log2FloorNonZero(1024), 10);
    assert_eq!(Log2FloorNonZero(usize::MAX), 63);
    assert_eq!(unopt_ctzll(1), 0);
    assert_eq!(unopt_ctzll(8), 3);
    assert_eq!(unopt_ctzll(12), 2);
    assert_eq!(unopt_ctzll(1usize << 63), 63);
}

#[test]
fn min_max_sizes() {
    assert_eq!(brotli_min_size_t(3, 5), 3);
    assert_eq!(brotli_min_size_t(5, 3), 3);
    assert_eq!(brotli_max_size_t(3, 5), 5);
    assert_eq!(brotli_max_size_t(5, 5), 5);
}

#[test]
fn literal_spree_by_quality() {
    assert_eq!(LiteralSpreeLengthForSparseSearch(&params(5)), 64);
    assert_eq!(LiteralSpreeLengthForSparseSearch(&params(8)), 64);
    assert_eq!(LiteralSpreeLengthForSparseSearch(&params(9)), 512);
    assert_eq!(LiteralSpreeLengthForSparseSearch(&params(11)), 512);
}

#[test]
fn match_length_stops_at_limit_mismatch_and_end() {
    let a = b"abcdefgh";
    let b = b"abcdXfgh";
    assert_eq!(FindMatchLengthWithLimit(a, 0, b, 0, 8), 4);
    assert_eq!(FindMatchLengthWithLimit(a, 0, a, 0, 3), 3);
    assert_eq!(FindMatchLengthWithLimit(a, 0, a, 0, 100), 8);
    assert_eq!(FindMatchLengthWithLimit(a, 5, b, 5, 100), 3);
    assert_eq!(FindMatchLengthWithLimit(a, 8, b, 0, 100), 0);
    assert_eq!(FindMatchLengthWithLimit(a, 0, b, 0, 0), 0);
}

#[test]
fn byte_agreement_checks_bounds() {
    let d = b"abab";
    assert!(bytes_agree_at(d, 0, 2, 1));
    assert!(!bytes_agree_at(d, 0, 1, 0));
    assert!(!bytes_agree_at(d, 0, 2, 2));
}

#[test]
fn little_endian_loads() {
    let d = [1u8, 2, 3, 4, 5, 6, 7, 8, 9];
    assert_eq!(BROTLI_UNALIGNED_LOAD32(&d, 0), 0x04030201);
    assert_eq!(BROTLI_UNALIGNED_LOAD32(&d, 1), 0x05040302);
    assert_eq!(BROTLI_UNALIGNED_LOAD64(&d, 1), 0x0908070605040302);
}

#[test]
fn hashes_of_known_bytes() {
    assert_eq!(Hash14(b"abcdefgh", 0), 11176);
    assert_eq!(Hash14(b"dictionaryXY", 0), 5174);
    assert_eq!(HashBytesH2(b"abcdefgh", 0), 4014);
    assert!(HashBytesH2(b"abcdefgh", 0) < 65536);
}

#[test]
fn wrapping_counter() {
    assert_eq!(wrapping_inc(0), 1);
    assert_eq!(wrapping_inc(usize::MAX), 0);
}

#[test]
fn prepare_cache_derives_near_distances() {
    let mut c = [10, 20, 30, 40, 0, 0, 0, 0, 0, 0, 0, 0, 0, 0, 0, 0];
    PrepareDistanceCache(&mut c, 4);
    assert_eq!(c, [10, 20, 30, 40, 0, 0, 0, 0, 0, 0, 0, 0, 0, 0, 0, 0]);
    PrepareDistanceCache(&mut c, 10);
    assert_eq!(c, [10, 20, 30, 40, 9, 11, 8, 12, 7, 13, 0, 0, 0, 0, 0, 0]);
    PrepareDistanceCache(&mut c, 16);
    assert_eq!(c, [10, 20, 30, 40, 9, 11, 8, 12, 7, 13, 19, 21, 18, 22, 17, 23]);
}

#[test]
fn distance_codes() {
    let c = [4, 11, 15, 16, 0, 0, 0, 0, 0, 0, 0, 0, 0, 0, 0, 0];
    assert_eq!(ComputeDistanceCode(4, 100, &c), 0);
    assert_eq!(ComputeDistanceCode(11, 100, &c), 1);
    assert_eq!(ComputeDistanceCode(15, 100, &c), 2);
    assert_eq!(ComputeDistanceCode(16, 100, &c), 3);
    assert_eq!(ComputeDistanceCode(3, 100, &c), 4);
    assert_eq!(ComputeDistanceCode(5, 100, &c), 5);
    assert_eq!(ComputeDistanceCode(1, 100, &c), 8);
    assert_eq!(ComputeDistanceCode(7, 100, &c), 9);
    assert_eq!(ComputeDistanceCode(10, 100, &c), 10);
    assert_eq!(ComputeDistanceCode(14, 100, &c), 15);
    assert_eq!(ComputeDistanceCode(45, 100, &c), 60);
    assert_eq!(ComputeDistanceCode(4, 3, &c), 19);
}
