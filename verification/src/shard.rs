//! Cutting the rows of a grid into contiguous shards, one for each worker
//! of a phase that runs in parallel.

use vstd::prelude::*;

verus! {

/// The row at which shard `shard` of `shards` begins on a grid of the given
/// height; the shard ends where the next one begins.
pub open spec fn shard_bound(height: int, shard: int, shards: int) -> int {
    height * shard / shards
}

/// Whether `row` lies in one of the shards of the list.
pub open spec fn covered(list: Seq<(usize, usize)>, row: int) -> bool {
    exists|i: int| 0 <= i < list.len() && (#[trigger] list[i]).0 <= row < list[i].1
}

/// The number of workers that this machine offers.
///
/// Trusted: the body calls `num_cpus::get`. The number depends on the
/// machine and on the limits set for the process. All that is claimed of it
/// is what the documentation of that function promises for every machine:
/// it is at least one.
#[verifier::external_body]
fn workers() -> (n: usize)
    ensures
        n >= 1,
{
    num_cpus::get()
}

/// The bounds of the shards are whole rows between the first row and the
/// end of the grid, and they do not decrease from shard to shard.
pub proof fn lemma_shard_bounds(height: int, shard: int, shards: int)
    requires
        0 <= height,
        0 <= shard < shards,
    ensures
        shard_bound(height, 0, shards) == 0,
        shard_bound(height, shards, shards) == height,
        0 <= shard_bound(height, shard, shards) <= shard_bound(height, shard + 1, shards) <= height,
{
    assert(height * 0 == 0);
    assert(0int / shards == 0);
    vstd::arithmetic::div_mod::lemma_div_multiples_vanish(height, shards);
    assert(height * shards == shards * height) by (nonlinear_arith);
    assert(0 <= height * shard <= height * (shard + 1) <= height * shards) by (nonlinear_arith)
        requires
            0 <= height,
            0 <= shard < shards,
    ;
    vstd::arithmetic::div_mod::lemma_div_is_ordered(height * shard, height * (shard + 1), shards);
    vstd::arithmetic::div_mod::lemma_div_is_ordered(height * (shard + 1), height * shards, shards);
    vstd::arithmetic::div_mod::lemma_div_pos_is_pos(height * shard, shards);
}

/// Every row lies in one of the shards.
pub proof fn lemma_shards_cover(height: int, shards: int, row: int, upto: int)
    requires
        0 <= row < height,
        0 < upto <= shards,
        row < shard_bound(height, upto, shards),
    ensures
        exists|shard: int|
            0 <= shard < upto && shard_bound(height, shard, shards) <= row < #[trigger] shard_bound(
                height,
                shard + 1,
                shards,
            ),
    decreases upto,
{
    lemma_shard_bounds(height, upto - 1, shards);
    if shard_bound(height, upto - 1, shards) <= row {
        assert(shard_bound(height, (upto - 1) + 1, shards) == shard_bound(height, upto, shards));
    } else {
        lemma_shards_cover(height, shards, row, upto - 1);
    }
}

/// The bounds do not decrease from any shard to any later one.
pub proof fn lemma_shard_bounds_ordered(height: int, earlier: int, later: int, shards: int)
    requires
        0 <= height,
        0 <= earlier <= later <= shards,
        0 < shards,
    ensures
        shard_bound(height, earlier, shards) <= shard_bound(height, later, shards),
    decreases later - earlier,
{
    if earlier < later {
        lemma_shard_bounds_ordered(height, earlier, later - 1, shards);
        lemma_shard_bounds(height, later - 1, shards);
        assert(shard_bound(height, (later - 1) + 1, shards) == shard_bound(height, later, shards));
    }
}

/// No row lies in two shards: workers that write only to the rows of their
/// own shard never write to the same tile.
pub proof fn lemma_shards_disjoint(height: int, shards: int, row: int, one: int, other: int)
    requires
        0 <= height,
        0 <= one < shards,
        0 <= other < shards,
        shard_bound(height, one, shards) <= row < shard_bound(height, one + 1, shards),
        shard_bound(height, other, shards) <= row < shard_bound(height, other + 1, shards),
    ensures
        one == other,
{
    if one < other {
        lemma_shard_bounds_ordered(height, one + 1, other, shards);
    } else if other < one {
        lemma_shard_bounds_ordered(height, other + 1, one, shards);
    }
}

/// The rows of shard `shard` of `shards`: the first row, and the row after
/// the last.
pub fn shard_rows(height: usize, shard: usize, shards: usize) -> (rows: (usize, usize))
    requires
        shard < shards,
    ensures
        rows.0 == shard_bound(height as int, shard as int, shards as int),
        rows.1 == shard_bound(height as int, shard as int + 1, shards as int),
        rows.0 <= rows.1 <= height,
{
    proof {
        lemma_shard_bounds(height as int, shard as int, shards as int);
        assert(0 <= height * shard <= height * (shard + 1) <= usize::MAX * usize::MAX)
            by (nonlinear_arith)
            requires
                0 <= height <= usize::MAX,
                0 <= shard < usize::MAX,
        ;
    }
    let wide: u128 = height as u128;
    let first: u128 = wide * (shard as u128) / (shards as u128);
    let last: u128 = wide * (shard as u128 + 1) / (shards as u128);
    (first as usize, last as usize)
}

/// The shards of a grid of the given height for a given number of workers,
/// in order. No worker means no shard.
pub fn row_shards(height: usize, shards: usize) -> (list: Vec<(usize, usize)>)
    ensures
        list@.len() == shards,
        forall|i: int|
            0 <= i < shards ==> (#[trigger] list@[i]).0 == shard_bound(
                height as int,
                i,
                shards as int,
            ) && list@[i].1 == shard_bound(height as int, i + 1, shards as int),
{
    let mut list: Vec<(usize, usize)> = Vec::new();
    let mut i: usize = 0;
    while i < shards
        invariant
            i <= shards,
            list@.len() == i,
            forall|j: int|
                0 <= j < i ==> (#[trigger] list@[j]).0 == shard_bound(
                    height as int,
                    j,
                    shards as int,
                ) && list@[j].1 == shard_bound(height as int, j + 1, shards as int),
        decreases shards - i,
    {
        list.push(shard_rows(height, i, shards));
        i = i + 1;
    }
    list
}

/// The shards of a grid of the given height for the workers of this
/// machine. However many workers there are, there is a shard for each, the
/// shards are those that `row_shards` cuts for that number, and together
/// they are the rows of the grid: the first shard begins with the first
/// row, each shard ends where the next begins, the last ends with the last
/// row, and every row lies in one of them.
pub fn worker_shards(height: usize) -> (list: Vec<(usize, usize)>)
    ensures
        list@.len() >= 1,
        forall|i: int|
            0 <= i < list@.len() ==> (#[trigger] list@[i]).0 == shard_bound(
                height as int,
                i,
                list@.len() as int,
            ) && list@[i].1 == shard_bound(height as int, i + 1, list@.len() as int),
        list@[0].0 == 0,
        list@[list@.len() - 1].1 == height,
        forall|i: int| 0 <= i < list@.len() - 1 ==> (#[trigger] list@[i]).1 == list@[i + 1].0,
        forall|row: int| 0 <= row < height ==> #[trigger] covered(list@, row),
{
    let list = row_shards(height, workers());
    proof {
        let n = list@.len() as int;
        let h = height as int;
        lemma_shard_bounds(h, 0, n);
        lemma_shard_bounds(h, n - 1, n);
        assert(list@[0].0 == 0);
        assert(list@[n - 1].1 == shard_bound(h, (n - 1) + 1, n));
        assert forall|row: int| 0 <= row < h implies #[trigger] covered(list@, row) by {
            lemma_shards_cover(h, n, row, n);
            let k = choose|k: int|
                0 <= k < n && shard_bound(h, k, n) <= row < #[trigger] shard_bound(h, k + 1, n);
            assert(list@[k].0 <= row < list@[k].1);
        }
    }
    list
}

} // verus!
