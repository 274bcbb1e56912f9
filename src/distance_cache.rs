//! The distance cache: the four most recently used distances, and the near
//! distances derived from the two newest, which a copy can name by a short
//! code.
use vstd::prelude::*;

verus! {

/// Number of cache slots a caller must provide.
pub const kDistanceCacheSize: usize = 16;

/// The cache is long enough and its two newest distances leave room for the
/// derived slots `d ± 3` in an `i32`.
pub open spec fn distance_cache_ok(c: Seq<i32>) -> bool {
    &&& c.len() >= 16
    &&& i32::MIN + 3 <= c[0] <= i32::MAX - 3
    &&& i32::MIN + 3 <= c[1] <= i32::MAX - 3
}

/// Near distances around `d`, in slot order: `d-1, d+1, d-2, d+2, d-3, d+3`.
pub open spec fn near_distances(d: i32) -> Seq<i32> {
    seq![
        (d - 1) as i32,
        (d + 1) as i32,
        (d - 2) as i32,
        (d + 2) as i32,
        (d - 3) as i32,
        (d + 3) as i32,
    ]
}

/// The cache with its derived slots filled for a hasher that probes
/// `num_distances` slots: slots 4..=9 around slot 0 above four, and slots
/// 10..=15 around slot 1 above ten.
pub open spec fn prepared_cache(c: Seq<i32>, num_distances: i32) -> Seq<i32> {
    if num_distances > 10 {
        c.subrange(0, 4) + near_distances(c[0]) + near_distances(c[1]) + c.subrange(16, c.len() as int)
    } else if num_distances > 4 {
        c.subrange(0, 4) + near_distances(c[0]) + c.subrange(10, c.len() as int)
    } else {
        c
    }
}

/// The cache after a copy at the fresh distance `d`: the four newest
/// distances shift down one slot and `d` becomes the newest.
pub open spec fn rotated_cache(c: Seq<i32>, d: i32) -> Seq<i32> {
    seq![d, c[0], c[1], c[2]] + c.subrange(4, c.len() as int)
}

/// Fills the derived slots of the distance cache from its two newest
/// distances, as a hasher that probes `num_distances` slots needs them.
pub fn PrepareDistanceCache(distance_cache: &mut [i32], num_distances: i32)
    requires
        distance_cache_ok(old(distance_cache)@),
    ensures
        final(distance_cache)@ == prepared_cache(old(distance_cache)@, num_distances),
{
    if num_distances > 4 {
        let last_distance: i32 = distance_cache[0];
        distance_cache[4] = last_distance - 1;
        distance_cache[5] = last_distance + 1;
        distance_cache[6] = last_distance - 2;
        distance_cache[7] = last_distance + 2;
        distance_cache[8] = last_distance - 3;
        distance_cache[9] = last_distance + 3;
        if num_distances > 10 {
            let next_last_distance: i32 = distance_cache[1];
            distance_cache[10] = next_last_distance - 1;
            distance_cache[11] = next_last_distance + 1;
            distance_cache[12] = next_last_distance - 2;
            distance_cache[13] = next_last_distance + 2;
            distance_cache[14] = next_last_distance - 3;
            distance_cache[15] = next_last_distance + 3;
        }
    }
    assert(distance_cache@ =~= prepared_cache(old(distance_cache)@, num_distances));
}

/// Short code of a distance `off - 3` away from cache slot 0 (`off` in 0..7).
pub open spec fn near_code0(off: int) -> usize {
    if off == 0 {
        8
    } else if off == 1 {
        6
    } else if off == 2 {
        4
    } else if off == 3 {
        0
    } else if off == 4 {
        5
    } else if off == 5 {
        7
    } else {
        9
    }
}

/// Short code of a distance `off - 3` away from cache slot 1 (`off` in 0..7).
pub open spec fn near_code1(off: int) -> usize {
    if off == 0 {
        14
    } else if off == 1 {
        12
    } else if off == 2 {
        10
    } else if off == 3 {
        1
    } else if off == 4 {
        11
    } else if off == 5 {
        13
    } else {
        15
    }
}

/// Code of `distance` given the cache `c`: a short code below 16 where the
/// distance is within `max_distance` and the cache names it, else
/// `distance + 15`.
pub open spec fn distance_code(distance: usize, max_distance: usize, c: Seq<i32>) -> int {
    let off0 = distance + 3 - c[0];
    let off1 = distance + 3 - c[1];
    if distance > max_distance {
        distance + 15
    } else if distance == c[0] {
        0
    } else if distance == c[1] {
        1
    } else if 0 <= off0 < 7 {
        near_code0(off0) as int
    } else if 0 <= off1 < 7 {
        near_code1(off1) as int
    } else if distance == c[2] {
        2
    } else if distance == c[3] {
        3
    } else {
        distance + 15
    }
}

/// Distance a code names given the cache `c`.
pub open spec fn code_distance(code: int, c: Seq<i32>) -> int {
    if code >= 16 {
        code - 15
    } else if code < 4 {
        c[code] as int
    } else if code < 10 {
        let k = code - 4;
        let mag = k / 2 + 1;
        if k % 2 == 0 {
            c[0] - mag
        } else {
            c[0] + mag
        }
    } else {
        let k = code - 10;
        let mag = k / 2 + 1;
        if k % 2 == 0 {
            c[1] - mag
        } else {
            c[1] + mag
        }
    }
}

/// Code under which a copy at `distance` is emitted: 0 for the newest cached
/// distance, 1..=15 for another short code of the cache, `distance + 15`
/// otherwise. The code always names `distance` again.
pub fn ComputeDistanceCode(distance: usize, max_distance: usize, dist_cache: &[i32]) -> (r: usize)
    requires
        dist_cache@.len() >= 4,
        0 < distance,
        distance + 15 <= usize::MAX,
    ensures
        r as int == distance_code(distance, max_distance, dist_cache@),
        code_distance(r as int, dist_cache@) == distance,
{
    if distance <= max_distance {
        if distance as u64 <= 0x7fff_ffff_0000_0000 {
            let d: i64 = distance as i64;
            let c0: i64 = dist_cache[0] as i64;
            let c1: i64 = dist_cache[1] as i64;
            let c2: i64 = dist_cache[2] as i64;
            let c3: i64 = dist_cache[3] as i64;
            let off0: i64 = d + 3 - c0;
            let off1: i64 = d + 3 - c1;
            if d == c0 {
                return 0;
            } else if d == c1 {
                return 1;
            } else if 0 <= off0 && off0 < 7 {
                return if off0 == 0 {
                    8
                } else if off0 == 1 {
                    6
                } else if off0 == 2 {
                    4
                } else if off0 == 4 {
                    5
                } else if off0 == 5 {
                    7
                } else {
                    9
                };
            } else if 0 <= off1 && off1 < 7 {
                return if off1 == 0 {
                    14
                } else if off1 == 1 {
                    12
                } else if off1 == 2 {
                    10
                } else if off1 == 4 {
                    11
                } else if off1 == 5 {
                    13
                } else {
                    15
                };
            } else if d == c2 {
                return 2;
            } else if d == c3 {
                return 3;
            }
        }
    }
    distance + 15
}

} // verus!
