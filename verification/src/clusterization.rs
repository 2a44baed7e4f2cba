//! Grouping of tiles that touch, and the tile in the middle of a group.

use vstd::prelude::*;
use crate::navigator::manhattan_distance;
use crate::vec2::Vec2i;

verus! {

/// Whether two tiles share a side.
pub open spec fn adjacent(lhs: Vec2i, rhs: Vec2i) -> bool {
    manhattan_distance(lhs, rhs) == 1
}

/// Whether two tiles share a side.
pub fn is_adjacent(lhs: Vec2i, rhs: Vec2i) -> (result: bool)
    ensures
        result == adjacent(lhs, rhs),
{
    let dx: i64 = lhs.x as i64 - rhs.x as i64;
    let dy: i64 = lhs.y as i64 - rhs.y as i64;
    let ax: i64 = if dx < 0 { -dx } else { dx };
    let ay: i64 = if dy < 0 { -dy } else { dy };
    ax + ay == 1
}

/// Whether some tile of the cluster shares a side with `tile`.
pub open spec fn touches(cluster: Seq<Vec2i>, tile: Vec2i) -> bool {
    exists|i: int| 0 <= i < cluster.len() && adjacent(#[trigger] cluster[i], tile)
}

/// The index of the first cluster at or after `from` that touches `tile`,
/// or the number of clusters where none does.
pub open spec fn first_touching(clusters: Seq<Seq<Vec2i>>, tile: Vec2i, from: int) -> int
    decreases clusters.len() - from,
{
    if from < 0 || from >= clusters.len() {
        clusters.len() as int
    } else if touches(clusters[from], tile) {
        from
    } else {
        first_touching(clusters, tile, from + 1)
    }
}

/// The clusters of the first `n` tiles: each tile joins the first cluster
/// that touches it, or starts a cluster of its own.
pub open spec fn clusters_upto(tiles: Seq<Vec2i>, n: int) -> Seq<Seq<Vec2i>>
    decreases n,
{
    if n <= 0 {
        Seq::empty()
    } else {
        let clusters = clusters_upto(tiles, n - 1);
        let tile = tiles[n - 1];
        let at = first_touching(clusters, tile, 0);
        if at < clusters.len() {
            clusters.update(at, clusters[at].push(tile))
        } else {
            clusters.push(seq![tile])
        }
    }
}

/// Every tile of a cluster is one of the tiles that were grouped.
pub proof fn lemma_clusters_hold_tiles(tiles: Seq<Vec2i>, n: int, c: int, j: int)
    requires
        0 <= n <= tiles.len(),
        0 <= c < clusters_upto(tiles, n).len(),
        0 <= j < clusters_upto(tiles, n)[c].len(),
    ensures
        tiles.contains(clusters_upto(tiles, n)[c][j]),
    decreases n,
{
    if n > 0 {
        let before = clusters_upto(tiles, n - 1);
        let tile = tiles[n - 1];
        let at = first_touching(before, tile, 0);
        lemma_first_touching(before, tile, 0);
        if at < before.len() {
            if c == at && j == before[at].len() {
                assert(tiles[n - 1] == tile);
            } else {
                lemma_clusters_hold_tiles(tiles, n - 1, c, j);
            }
        } else {
            if c == before.len() {
                assert(tiles[n - 1] == tile);
            } else {
                lemma_clusters_hold_tiles(tiles, n - 1, c, j);
            }
        }
    }
}

/// `first_touching` returns an index at or after `from`, at most the number
/// of clusters.
pub proof fn lemma_first_touching(clusters: Seq<Seq<Vec2i>>, tile: Vec2i, from: int)
    requires
        0 <= from <= clusters.len(),
    ensures
        from <= first_touching(clusters, tile, from) <= clusters.len(),
    decreases clusters.len() - from,
{
    if from < clusters.len() && !touches(clusters[from], tile) {
        lemma_first_touching(clusters, tile, from + 1);
    }
}

/// The tile lists of a list of clusters.
pub open spec fn cluster_views(clusters: Seq<Vec<Vec2i>>) -> Seq<Seq<Vec2i>> {
    Seq::new(clusters.len(), |i: int| clusters[i]@)
}

fn cluster_touches(cluster: &Vec<Vec2i>, tile: Vec2i) -> (result: bool)
    ensures
        result == touches(cluster@, tile),
{
    let mut i: usize = 0;
    while i < cluster.len()
        invariant
            i <= cluster.len(),
            forall|k: int| 0 <= k < i ==> !adjacent(#[trigger] cluster@[k], tile),
        decreases cluster.len() - i,
    {
        if is_adjacent(cluster[i], tile) {
            return true;
        }
        i += 1;
    }
    false
}

/// Groups the tiles in the order given: a tile joins the first cluster
/// that holds a tile sharing a side with it, else it starts a new cluster.
pub fn make_adjacent_tiles_clusters(tile_poses: &Vec<Vec2i>) -> (result: Vec<Vec<Vec2i>>)
    ensures
        cluster_views(result@) == clusters_upto(tile_poses@, tile_poses.len() as int),
{
    let mut clusters: Vec<Vec<Vec2i>> = Vec::new();
    let mut n: usize = 0;
    proof {
        assert(cluster_views(clusters@) =~= clusters_upto(tile_poses@, 0));
    }
    while n < tile_poses.len()
        invariant
            n <= tile_poses.len(),
            cluster_views(clusters@) == clusters_upto(tile_poses@, n as int),
        decreases tile_poses.len() - n,
    {
        let tile = tile_poses[n];
        let ghost before = cluster_views(clusters@);
        let mut at: usize = 0;
        let mut found = false;
        while at < clusters.len()
            invariant_except_break
                !found,
            invariant
                at <= clusters.len(),
                before == cluster_views(clusters@),
                first_touching(before, tile, at as int) == first_touching(before, tile, 0),
            ensures
                found ==> at < clusters.len() && first_touching(before, tile, 0) == at,
                !found ==> first_touching(before, tile, 0) == clusters.len(),
            decreases clusters.len() - at,
        {
            assert(before[at as int] == clusters@[at as int]@);
            if cluster_touches(&clusters[at], tile) {
                found = true;
                break;
            }
            at += 1;
        }
        if found {
            let ghost old_clusters = clusters@;
            clusters[at].push(tile);
            proof {
                assert forall|k: int| 0 <= k < clusters.len() implies #[trigger] cluster_views(
                    clusters@,
                )[k] == before.update(at as int, before[at as int].push(tile))[k] by {
                    if k != at {
                        assert(clusters@[k] == old_clusters[k]);
                        assert(before[k] == old_clusters[k]@);
                    } else {
                        assert(before[k] == old_clusters[k]@);
                    }
                }
                assert(cluster_views(clusters@) =~= before.update(
                    at as int,
                    before[at as int].push(tile),
                ));
            }
        } else {
            let mut single: Vec<Vec2i> = Vec::new();
            single.push(tile);
            clusters.push(single);
            proof {
                assert(cluster_views(clusters@) =~= before.push(seq![tile]));
            }
        }
        n += 1;
    }
    clusters
}

/// The square of the distance between `tile` and the mean of the cluster,
/// scaled by the square of the number of tiles: the centres of all tiles
/// lie half a tile off, which cancels out.
pub open spec fn spread(cluster: Seq<Vec2i>, tile: Vec2i) -> int {
    let n = cluster.len() as int;
    let dx = n * tile.x - sum_x(cluster, n);
    let dy = n * tile.y - sum_y(cluster, n);
    dx * dx + dy * dy
}

/// The sum of the `x` of the first `n` tiles.
pub open spec fn sum_x(cluster: Seq<Vec2i>, n: int) -> int
    decreases n,
{
    if n <= 0 {
        0
    } else {
        sum_x(cluster, n - 1) + cluster[n - 1].x
    }
}

/// The sum of the `y` of the first `n` tiles.
pub open spec fn sum_y(cluster: Seq<Vec2i>, n: int) -> int
    decreases n,
{
    if n <= 0 {
        0
    } else {
        sum_y(cluster, n - 1) + cluster[n - 1].y
    }
}

/// The index, among the first `n` tiles of the cluster, of the tile nearest
/// to the mean of all its tiles, and of several equally near the first.
pub open spec fn median_index(cluster: Seq<Vec2i>, n: int) -> int
    decreases n,
{
    if n <= 1 {
        0
    } else {
        let best = median_index(cluster, n - 1);
        if spread(cluster, cluster[n - 1]) < spread(cluster, cluster[best]) {
            n - 1
        } else {
            best
        }
    }
}

/// A number too wide for one machine word: `hi` times `2^96` and `lo`.
#[derive(Clone, Copy)]
pub struct Wide {
    pub hi: u128,
    pub lo: u128,
}

impl Wide {
    /// The number.
    pub open spec fn value(self) -> int {
        self.hi * 0x1_0000_0000_0000_0000_0000_0000 + self.lo
    }

    /// Whether the low part lies below `2^96` and the high part below
    /// `2^100`.
    pub open spec fn wf(self) -> bool {
        self.lo < 0x1_0000_0000_0000_0000_0000_0000 && self.hi
            < 0x10_0000_0000_0000_0000_0000_0000
    }
}

/// The square of a number of less than 96 bits.
pub fn square_wide(v: i128) -> (result: Wide)
    requires
        -0x1_0000_0000_0000_0000_0000_0000 < v < 0x1_0000_0000_0000_0000_0000_0000,
    ensures
        result.wf(),
        result.hi < 0x2_0000_0000_0000_0000_0000_0000,
        result.value() == v * v,
{
    let m: u128 = if v < 0 {
        (-v) as u128
    } else {
        v as u128
    };
    assert(m * m == v * v) by (nonlinear_arith)
        requires
            m == v || m == -v,
    ;
    let a: u128 = m / 0x1_0000_0000_0000;
    let b: u128 = m % 0x1_0000_0000_0000;
    assert(a < 0x1_0000_0000_0000 && b < 0x1_0000_0000_0000 && m == a * 0x1_0000_0000_0000 + b);
    assert(a * a < 0x1_0000_0000_0000_0000_0000_0000 && b * b < 0x1_0000_0000_0000_0000_0000_0000
        && a * b < 0x1_0000_0000_0000_0000_0000_0000) by (nonlinear_arith)
        requires
            a < 0x1_0000_0000_0000,
            b < 0x1_0000_0000_0000,
    ;
    let aa: u128 = a * a;
    let bb: u128 = b * b;
    let ab: u128 = a * b;
    let twice: u128 = 2 * ab;
    let q: u128 = twice / 0x1_0000_0000_0000;
    let r: u128 = twice % 0x1_0000_0000_0000;
    assert(r * 0x1_0000_0000_0000 < 0x1_0000_0000_0000_0000_0000_0000) by (nonlinear_arith)
        requires
            r < 0x1_0000_0000_0000,
    ;
    let low: u128 = r * 0x1_0000_0000_0000 + bb;
    let carry: u128 = low / 0x1_0000_0000_0000_0000_0000_0000;
    let lo: u128 = low % 0x1_0000_0000_0000_0000_0000_0000;
    let hi: u128 = aa + q + carry;
    assert(m * m == aa * 0x1_0000_0000_0000_0000_0000_0000 + twice * 0x1_0000_0000_0000 + bb)
        by (nonlinear_arith)
        requires
            m == a * 0x1_0000_0000_0000 + b,
            aa == a * a,
            bb == b * b,
            twice == 2 * (a * b),
    ;
    assert(twice * 0x1_0000_0000_0000 == q * 0x1_0000_0000_0000_0000_0000_0000 + r
        * 0x1_0000_0000_0000) by (nonlinear_arith)
        requires
            twice == q * 0x1_0000_0000_0000 + r,
    ;
    Wide { hi, lo }
}

/// The sum of two wide numbers.
pub fn add_wide(x: Wide, y: Wide) -> (result: Wide)
    requires
        x.wf(),
        y.wf(),
        x.hi < 0x2_0000_0000_0000_0000_0000_0000,
        y.hi < 0x2_0000_0000_0000_0000_0000_0000,
    ensures
        result.wf(),
        result.value() == x.value() + y.value(),
{
    let low: u128 = x.lo + y.lo;
    let carry: u128 = low / 0x1_0000_0000_0000_0000_0000_0000;
    let lo: u128 = low % 0x1_0000_0000_0000_0000_0000_0000;
    Wide { hi: x.hi + y.hi + carry, lo }
}

/// Whether the first of two wide numbers is the smaller.
pub fn less_wide(x: Wide, y: Wide) -> (result: bool)
    requires
        x.wf(),
        y.wf(),
    ensures
        result == (x.value() < y.value()),
{
    assert(x.hi < y.hi ==> x.value() < y.value()) by (nonlinear_arith)
        requires
            x.lo < 0x1_0000_0000_0000_0000_0000_0000,
            y.lo < 0x1_0000_0000_0000_0000_0000_0000,
            x.value() == x.hi * 0x1_0000_0000_0000_0000_0000_0000 + x.lo,
            y.value() == y.hi * 0x1_0000_0000_0000_0000_0000_0000 + y.lo,
    ;
    assert(x.hi > y.hi ==> x.value() > y.value()) by (nonlinear_arith)
        requires
            x.lo < 0x1_0000_0000_0000_0000_0000_0000,
            y.lo < 0x1_0000_0000_0000_0000_0000_0000,
            x.value() == x.hi * 0x1_0000_0000_0000_0000_0000_0000 + x.lo,
            y.value() == y.hi * 0x1_0000_0000_0000_0000_0000_0000 + y.lo,
    ;
    x.hi < y.hi || (x.hi == y.hi && x.lo < y.lo)
}

/// The tile of the cluster nearest to the mean of its tiles, and of several
/// equally near the first; nothing for an empty cluster.
pub fn get_cluster_median(cluster: &Vec<Vec2i>) -> (result: Option<Vec2i>)
    ensures
        result.is_none() == (cluster.len() == 0),
        result.is_some() ==> 0 <= median_index(cluster@, cluster.len() as int) < cluster.len()
            && result.unwrap() == cluster[median_index(cluster@, cluster.len() as int)],
        result.is_some() ==> exists|i: int|
            {
                &&& 0 <= i < cluster.len()
                &&& #[trigger] cluster[i] == result.unwrap()
                &&& forall|j: int|
                    0 <= j < cluster.len() ==> spread(cluster@, cluster[i]) <= spread(
                        cluster@,
                        #[trigger] cluster[j],
                    )
                &&& forall|j: int|
                    0 <= j < i ==> spread(cluster@, cluster[i]) < spread(
                        cluster@,
                        #[trigger] cluster[j],
                    )
            },
{
    if cluster.len() == 0 {
        return None;
    }
    let n: i128 = cluster.len() as i128;
    let mut total_x: i128 = 0;
    let mut total_y: i128 = 0;
    let mut i: usize = 0;
    while i < cluster.len()
        invariant
            i <= cluster.len(),
            total_x == sum_x(cluster@, i as int),
            total_y == sum_y(cluster@, i as int),
            -0x8000_0000 * i <= total_x <= 0x7fff_ffff * i,
            -0x8000_0000 * i <= total_y <= 0x7fff_ffff * i,
        decreases cluster.len() - i,
    {
        total_x = total_x + cluster[i].x as i128;
        total_y = total_y + cluster[i].y as i128;
        i += 1;
    }
    let mut best: usize = 0;
    let mut best_spread: Wide = spread_of(n, total_x, total_y, cluster[0]);
    let mut k: usize = 1;
    while k < cluster.len()
        invariant
            1 <= k <= cluster.len(),
            n == cluster.len(),
            total_x == sum_x(cluster@, cluster.len() as int),
            total_y == sum_y(cluster@, cluster.len() as int),
            -0x8000_0000 * n <= total_x <= 0x7fff_ffff * n,
            -0x8000_0000 * n <= total_y <= 0x7fff_ffff * n,
            best < k,
            best == median_index(cluster@, k as int),
            best_spread.wf(),
            best_spread.value() == spread(cluster@, cluster[best as int]),
            forall|j: int|
                0 <= j < k ==> best_spread.value() <= spread(cluster@, #[trigger] cluster[j]),
            forall|j: int|
                0 <= j < best ==> best_spread.value() < spread(cluster@, #[trigger] cluster[j]),
        decreases cluster.len() - k,
    {
        let candidate = spread_of(n, total_x, total_y, cluster[k]);
        if less_wide(candidate, best_spread) {
            best = k;
            best_spread = candidate;
        }
        k += 1;
    }
    Some(cluster[best])
}

fn spread_of(n: i128, total_x: i128, total_y: i128, tile: Vec2i) -> (result: Wide)
    requires
        0 < n <= usize::MAX,
        -0x8000_0000 * n <= total_x <= 0x7fff_ffff * n,
        -0x8000_0000 * n <= total_y <= 0x7fff_ffff * n,
    ensures
        result.wf(),
        result.value() == (n * tile.x - total_x) * (n * tile.x - total_x) + (n * tile.y - total_y)
            * (n * tile.y - total_y),
{
    assert(-0x8000_0000 * 0x1_0000_0000_0000_0000 <= n * tile.x <= 0x8000_0000
        * 0x1_0000_0000_0000_0000) by (nonlinear_arith)
        requires
            0 < n <= 0x1_0000_0000_0000_0000,
            -0x8000_0000 <= tile.x <= 0x7fff_ffff,
    ;
    assert(-0x8000_0000 * 0x1_0000_0000_0000_0000 <= n * tile.y <= 0x8000_0000
        * 0x1_0000_0000_0000_0000) by (nonlinear_arith)
        requires
            0 < n <= 0x1_0000_0000_0000_0000,
            -0x8000_0000 <= tile.y <= 0x7fff_ffff,
    ;
    assert(-0x8000_0000 * 0x1_0000_0000_0000_0000 <= -0x8000_0000 * n) by (nonlinear_arith)
        requires
            0 < n <= 0x1_0000_0000_0000_0000,
    ;
    assert(0x7fff_ffff * n <= 0x8000_0000 * 0x1_0000_0000_0000_0000) by (nonlinear_arith)
        requires
            0 < n <= 0x1_0000_0000_0000_0000,
    ;
    let dx: i128 = n * (tile.x as i128) - total_x;
    let dy: i128 = n * (tile.y as i128) - total_y;
    add_wide(square_wide(dx), square_wide(dy))
}

} // verus!
