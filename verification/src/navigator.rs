//! Areas of one grid: cells of equal tile joined into numbered areas, and the
//! outline of each area as a closed line along cell corners.

use vstd::prelude::*;
use crate::coords::{tile_index_to_tile_pos, tile_index_to_tile_pos_spec};
use crate::grid::Grid;
use crate::vec2::{abs_spec, fits_i32, signum_spec, Vec2i};

verus! {

/// One area of a grid: its tile and the corners of its outline.
#[derive(Debug, PartialEq)]
pub struct Area {
    pub tile: i32,
    pub border: Vec<Vec2i>,
}

/// `|a.x - b.x| + |a.y - b.y|`.
pub open spec fn manhattan_distance(a: Vec2i, b: Vec2i) -> int {
    abs_spec(a.x - b.x) + abs_spec(a.y - b.y)
}

/// The signs of the step from `from` to `to`, one per axis.
pub open spec fn direction(from: Vec2i, to: Vec2i) -> Vec2i {
    Vec2i { x: signum_spec(to.x - from.x) as i32, y: signum_spec(to.y - from.y) as i32 }
}

/// `p` moved by `(dx, dy)`.
pub open spec fn shifted(p: Vec2i, dx: int, dy: int) -> Vec2i {
    Vec2i { x: (p.x + dx) as i32, y: (p.y + dy) as i32 }
}

fn manhattan_between(a: Vec2i, b: Vec2i) -> (result: i64)
    ensures
        result == manhattan_distance(a, b),
{
    let dx: i64 = a.x as i64 - b.x as i64;
    let dy: i64 = a.y as i64 - b.y as i64;
    let ax: i64 = if dx < 0 { -dx } else { dx };
    let ay: i64 = if dy < 0 { -dy } else { dy };
    ax + ay
}

fn direction_between(from: Vec2i, to: Vec2i) -> (result: Vec2i)
    ensures
        result == direction(from, to),
{
    let dx: i64 = to.x as i64 - from.x as i64;
    let dy: i64 = to.y as i64 - from.y as i64;
    let sx: i32 = if dx > 0 { 1 } else if dx < 0 { -1 } else { 0 };
    let sy: i32 = if dy > 0 { 1 } else if dy < 0 { -1 } else { 0 };
    Vec2i { x: sx, y: sy }
}

/// What smoothing emits once it stands at index `i`: of two unit steps in a
/// row the middle point is dropped; everything else is kept.
pub open spec fn smooth_from(border: Seq<Vec2i>, i: int) -> Seq<Vec2i>
    decreases border.len() - i,
{
    if i < 1 || i >= border.len() - 1 {
        if 1 <= i <= border.len() {
            border.subrange(i - 1, border.len() as int)
        } else {
            Seq::empty()
        }
    } else if manhattan_distance(border[i - 1], border[i]) != 1 {
        seq![border[i - 1]] + smooth_from(border, i + 1)
    } else if manhattan_distance(border[i], border[i + 1]) != 1 {
        seq![border[i - 1], border[i]] + smooth_from(border, i + 2)
    } else {
        seq![border[i - 1]] + smooth_from(border, i + 2)
    }
}

/// The smoothed outline: staircases of unit steps become diagonals.
pub open spec fn smooth_area_border_spec(border: Seq<Vec2i>) -> Seq<Vec2i> {
    if border.len() <= 2 {
        border
    } else {
        smooth_from(border, 1)
    }
}

/// Replaces each pair of unit steps by the diagonal between its ends.
pub fn smooth_area_border(border: Vec<Vec2i>) -> (result: Vec<Vec2i>)
    ensures
        result@ == smooth_area_border_spec(border@),
{
    if border.len() <= 2 {
        return border;
    }
    let mut result: Vec<Vec2i> = Vec::new();
    let mut i: usize = 1;
    while i < border.len() - 1
        invariant
            border.len() > 2,
            1 <= i <= border.len(),
            result@ + smooth_from(border@, i as int) == smooth_from(border@, 1),
        decreases border.len() - i,
    {
        let ghost before = result@;
        if manhattan_between(border[i - 1], border[i]) != 1 {
            result.push(border[i - 1]);
            proof {
                assert(result@ + smooth_from(border@, i + 1) =~= before + smooth_from(border@,
                    i as int));
            }
            i += 1;
            continue;
        }
        if manhattan_between(border[i], border[i + 1]) != 1 {
            result.push(border[i - 1]);
            result.push(border[i]);
            proof {
                assert(result@ + smooth_from(border@, i + 2) =~= before + smooth_from(border@,
                    i as int));
            }
            i += 2;
            continue;
        }
        result.push(border[i - 1]);
        proof {
            assert(result@ + smooth_from(border@, i + 2) =~= before + smooth_from(border@, i as int));
        }
        i += 2;
    }
    let ghost done = result@;
    let ghost start = i as int;
    let mut j: usize = i - 1;
    while j < border.len()
        invariant
            start - 1 <= j <= border.len(),
            1 <= start <= border.len(),
            result@ == done + border@.subrange(start - 1, j as int),
        decreases border.len() - j,
    {
        result.push(border[j]);
        proof {
            assert(result@ =~= done + border@.subrange(start - 1, j + 1));
        }
        j += 1;
    }
    result
}

/// Whether the outline changes direction at index `i`, the point after the
/// last being the first.
pub open spec fn is_turn(border: Seq<Vec2i>, i: int) -> bool {
    direction(border[i - 1], border[i]) != direction(border[i], border[(i + 1) % (border.len() as int)])
}

/// The first point and every turn among the indices below `n`.
pub open spec fn turns_upto(border: Seq<Vec2i>, n: int) -> Seq<Vec2i>
    decreases n,
{
    if n <= 1 {
        seq![border[0]]
    } else if is_turn(border, n - 1) {
        turns_upto(border, n - 1).push(border[n - 1])
    } else {
        turns_upto(border, n - 1)
    }
}

/// The outline without the points that lie on a straight run.
pub open spec fn remove_redundant_border_positions_spec(border: Seq<Vec2i>) -> Seq<Vec2i> {
    if border.len() <= 2 {
        border
    } else {
        turns_upto(border, border.len() as int)
    }
}

/// Every point kept by `turns_upto` is a point of the outline.
pub proof fn lemma_turns_are_points(border: Seq<Vec2i>, n: int)
    requires
        1 <= n <= border.len(),
    ensures
        turns_upto(border, n).len() >= 1,
        forall|k: int| 0 <= k < turns_upto(border, n).len()
            ==> border.contains(#[trigger] turns_upto(border, n)[k]),
    decreases n,
{
    if n > 1 {
        lemma_turns_are_points(border, n - 1);
        assert(border.contains(border[n - 1]));
    } else {
        assert(border.contains(border[0]));
    }
}

/// Drops every point at which the outline keeps its direction.
pub fn remove_redundant_border_positions(border: Vec<Vec2i>) -> (result: Vec<Vec2i>)
    ensures
        result@ == remove_redundant_border_positions_spec(border@),
        forall|k: int| 0 <= k < result.len() ==> border@.contains(#[trigger] result[k]),
{
    if border.len() <= 2 {
        proof {
            assert forall|k: int| 0 <= k < border.len() implies border@.contains(#[trigger] border[k]) by {
                assert(border@[k] == border[k]);
            }
        }
        return border;
    }
    let mut result: Vec<Vec2i> = Vec::new();
    result.push(border[0]);
    let mut i: usize = 1;
    while i < border.len()
        invariant
            border.len() > 2,
            1 <= i <= border.len(),
            result@ == turns_upto(border@, i as int),
        decreases border.len() - i,
    {
        let from_prev = direction_between(border[i - 1], border[i]);
        let to_next = direction_between(border[i], border[(i + 1) % border.len()]);
        if from_prev != to_next {
            result.push(border[i]);
        }
        i += 1;
    }
    proof {
        lemma_turns_are_points(border@, border.len() as int);
    }
    result
}

/// Whether every coordinate of the outline has room for the far corner of
/// its cell.
pub open spec fn has_far_corners(border: Seq<Vec2i>) -> bool {
    forall|i: int| 0 <= i < border.len() ==> (#[trigger] border[i]).x < i32::MAX
        && border[i].y < i32::MAX
}

/// The corners added for the cell at index `i`, after `result`.
///
/// A cell where the walk turns back is passed round its far side; any other
/// cell gives the one corner that the walk keeps on its left.
pub open spec fn contour_step(border: Seq<Vec2i>, i: int, result: Seq<Vec2i>) -> Seq<Vec2i> {
    let current = border[i];
    let from_prev = direction(border[i - 1], current);
    let to_next = direction(current, border[(i + 1) % (border.len() as int)]);
    let last = result.last();
    let lead = if current.x == last.x && current.y > last.y {
        result.push(shifted(last, 1, 0))
    } else {
        result
    };
    if to_next.x + from_prev.x == 0 && to_next.y + from_prev.y == 0 {
        if from_prev.x > 0 {
            lead.push(shifted(current, 1, 0)).push(shifted(current, 1, 1))
        } else if from_prev.x < 0 {
            lead.push(shifted(current, 0, 1)).push(current)
        } else if from_prev.y > 0 {
            lead.push(shifted(current, 1, 1)).push(shifted(current, 0, 1))
        } else if from_prev.y < 0 {
            lead.push(current).push(shifted(current, 1, 0))
        } else {
            lead
        }
    } else {
        lead.push(
            shifted(
                current,
                if from_prev.y > 0 || to_next.y > 0 { 1 } else { 0 },
                if from_prev.x < 0 || to_next.x < 0 { 1 } else { 0 },
            ),
        )
    }
}

/// The corners for the cells at the indices below `n`.
pub open spec fn contour_upto(border: Seq<Vec2i>, n: int) -> Seq<Vec2i>
    decreases n,
{
    if n <= 1 {
        seq![border[0]]
    } else {
        contour_step(border, n - 1, contour_upto(border, n - 1))
    }
}

/// The line closed: where its two ends differ on both axes, one corner is
/// added that lines up with the first point along the longer gap.
pub open spec fn contour_closed(line: Seq<Vec2i>) -> Seq<Vec2i> {
    let first = line[0];
    let last = line.last();
    let dx = first.x - last.x;
    let dy = first.y - last.y;
    if dx != 0 && dy != 0 {
        if abs_spec(dx) > abs_spec(dy) {
            line.push(Vec2i { x: first.x, y: last.y })
        } else {
            line.push(Vec2i { x: last.x, y: first.y })
        }
    } else {
        line
    }
}

/// The outline along cell corners of the area whose border cells are `border`.
pub open spec fn make_area_contour_spec(border: Seq<Vec2i>) -> Seq<Vec2i> {
    if border.len() == 0 {
        border
    } else if border.len() == 1 {
        seq![border[0], shifted(border[0], 1, 0), shifted(border[0], 1, 1), shifted(border[0], 0, 1)]
    } else {
        contour_closed(contour_upto(border, border.len() as int))
    }
}

/// Turns the cells on the border of an area into the corners of its outline.
pub fn make_area_contour(border: Vec<Vec2i>) -> (result: Vec<Vec2i>)
    requires
        has_far_corners(border@),
    ensures
        result@ == make_area_contour_spec(border@),
{
    if border.len() == 0 {
        return border;
    }
    if border.len() == 1 {
        let p = border[0];
        let mut single: Vec<Vec2i> = Vec::new();
        single.push(p);
        single.push(Vec2i { x: p.x + 1, y: p.y });
        single.push(Vec2i { x: p.x + 1, y: p.y + 1 });
        single.push(Vec2i { x: p.x, y: p.y + 1 });
        assert(single@ =~= make_area_contour_spec(border@));
        return single;
    }
    let mut result: Vec<Vec2i> = Vec::new();
    result.push(border[0]);
    let mut i: usize = 1;
    while i < border.len()
        invariant
            border.len() >= 2,
            has_far_corners(border@),
            1 <= i <= border.len(),
            result.len() >= 1,
            result@ == contour_upto(border@, i as int),
        decreases border.len() - i,
    {
        let prev = border[i - 1];
        let current = border[i];
        let from_prev = direction_between(prev, current);
        let to_next = direction_between(current, border[(i + 1) % border.len()]);
        let last = result[result.len() - 1];
        let ghost before = result@;
        if current.x == last.x && current.y > last.y {
            result.push(Vec2i { x: last.x + 1, y: last.y });
        }
        if to_next.x + from_prev.x == 0 && to_next.y + from_prev.y == 0 {
            if from_prev.x > 0 {
                result.push(Vec2i { x: current.x + 1, y: current.y });
                result.push(Vec2i { x: current.x + 1, y: current.y + 1 });
            } else if from_prev.x < 0 {
                result.push(Vec2i { x: current.x, y: current.y + 1 });
                result.push(current);
            } else if from_prev.y > 0 {
                result.push(Vec2i { x: current.x + 1, y: current.y + 1 });
                result.push(Vec2i { x: current.x, y: current.y + 1 });
            } else if from_prev.y < 0 {
                result.push(current);
                result.push(Vec2i { x: current.x + 1, y: current.y });
            }
        } else {
            let dx: i32 = if from_prev.y > 0 || to_next.y > 0 { 1 } else { 0 };
            let dy: i32 = if from_prev.x < 0 || to_next.x < 0 { 1 } else { 0 };
            result.push(Vec2i { x: current.x + dx, y: current.y + dy });
        }
        proof {
            assert(result@ == contour_step(border@, i as int, before));
        }
        i += 1;
    }
    let first = result[0];
    let last = result[result.len() - 1];
    let dx: i64 = first.x as i64 - last.x as i64;
    let dy: i64 = first.y as i64 - last.y as i64;
    if dx != 0 && dy != 0 {
        let ax: i64 = if dx < 0 { -dx } else { dx };
        let ay: i64 = if dy < 0 { -dy } else { dy };
        if ax > ay {
            result.push(Vec2i { x: first.x, y: last.y });
        } else {
            result.push(Vec2i { x: last.x, y: first.y });
        }
    }
    result
}

/// The area number of every cell of a square of `size` by `size` cells, row
/// by row; `number` is the first number not yet given out.
#[derive(Debug, PartialEq, PartialOrd)]
pub struct Areas {
    pub number: u16,
    pub size: usize,
    pub values: Vec<u16>,
}

/// Row-major index of a cell in a square of `size` by `size` cells.
pub open spec fn pos_to_index_spec(position: Vec2i, size: int) -> int {
    position.x + position.y * size
}

/// Whether `(x, y)` names a cell of a square of `size` by `size` cells.
pub open spec fn in_square(x: int, y: int, size: int) -> bool {
    0 <= x < size && 0 <= y < size
}

/// A cell of the square has an index below `size * size`.
pub proof fn lemma_index_in_square(x: int, y: int, size: int)
    requires
        in_square(x, y, size),
    ensures
        0 <= x + y * size < size * size,
{
    assert(y * size <= (size - 1) * size) by (nonlinear_arith)
        requires
            0 <= y <= size - 1,
            size > 0,
    ;
    assert((size - 1) * size == size * size - size) by (nonlinear_arith);
    assert(0 <= y * size) by (nonlinear_arith)
        requires
            0 <= y,
            0 <= size,
    ;
}

/// The row-major index of the cell `position`.
pub fn pos_to_index(position: Vec2i, size: usize) -> (result: usize)
    requires
        0 <= position.x,
        0 <= position.y,
        pos_to_index_spec(position, size as int) <= usize::MAX,
    ensures
        result == pos_to_index_spec(position, size as int),
{
    assert(0 <= position.y * size) by (nonlinear_arith)
        requires
            0 <= position.y,
            0 <= size,
    ;
    let wide: u128 = position.x as u128 + (position.y as u128) * (size as u128);
    wide as usize
}

impl Areas {
    /// Whether there is one area number for each cell.
    pub open spec fn wf(&self) -> bool {
        self.values.len() == self.size * self.size && self.size <= i32::MAX
    }

    /// Whether `position` names a cell of the square.
    pub open spec fn has_cell(&self, position: Vec2i) -> bool {
        in_square(position.x as int, position.y as int, self.size as int)
    }

    pub fn get(&self, index: usize) -> (result: u16)
        requires
            index < self.values.len(),
        ensures
            result == self.values[index as int],
    {
        self.values[index]
    }

    pub fn get_by_pos(&self, position: Vec2i) -> (result: u16)
        requires
            self.wf(),
            self.has_cell(position),
        ensures
            pos_to_index_spec(position, self.size as int) < self.values.len(),
            result == self.values[pos_to_index_spec(position, self.size as int)],
    {
        proof {
            lemma_index_in_square(position.x as int, position.y as int, self.size as int);
        }
        self.values[pos_to_index(position, self.size)]
    }

    pub fn contains(&self, position: Vec2i) -> (result: bool)
        ensures
            result == self.has_cell(position),
    {
        0 <= position.x && (position.x as u64) < self.size as u64 && 0 <= position.y && (
        position.y as u64) < self.size as u64
    }

    pub fn set(&mut self, index: usize, value: u16)
        requires
            index < old(self).values.len(),
        ensures
            final(self).values@ == old(self).values@.update(index as int, value),
            final(self).number == old(self).number,
            final(self).size == old(self).size,
    {
        self.values.set(index, value);
    }

    pub fn copy(&mut self, src: usize, dst: usize)
        requires
            src < old(self).values.len(),
            dst < old(self).values.len(),
        ensures
            final(self).values@ == old(self).values@.update(dst as int, old(self).values[src as int]),
            final(self).number == old(self).number,
            final(self).size == old(self).size,
    {
        let value: u16 = self.values[src];
        self.values.set(dst, value);
    }
}

/// The labels of the first `n` cells after the first pass, and the next free
/// number: a cell takes the number of its left neighbour, else of the one
/// above, else of the one above and to the right where the right neighbour
/// joins them, all of the same tile; else a new number.
pub open spec fn first_pass(tiles: Seq<i32>, n: int) -> (Seq<u16>, int)
    decreases n,
{
    if n <= 1 {
        (seq![1u16], 2)
    } else {
        let (values, next) = first_pass(tiles, n - 1);
        let i = n - 1;
        let tile = tiles[i];
        if i % 100 > 0 && tiles[i - 1] == tile {
            (values.push(values[i - 1]), next)
        } else if i >= 100 && tiles[i - 100] == tile {
            (values.push(values[i - 100]), next)
        } else if i >= 100 && i % 100 < 99 && tiles[i + 1] == tile && tiles[i + 1 - 100] == tile {
            (values.push(values[i + 1 - 100]), next)
        } else {
            (values.push(next as u16), next + 1)
        }
    }
}

/// The first pass labels `n` cells and gives out at most one number per cell.
pub proof fn lemma_first_pass_bounds(tiles: Seq<i32>, n: int)
    requires
        n >= 1,
    ensures
        first_pass(tiles, n).0.len() == n,
        2 <= first_pass(tiles, n).1 <= n + 1,
    decreases n,
{
    if n > 1 {
        lemma_first_pass_bounds(tiles, n - 1);
    }
}

/// Labels the cells of `grid` row by row, joining each cell to an equal
/// neighbour that was labelled before it.
pub fn divide_into_areas(grid: &Grid) -> (result: Areas)
    requires
        grid.tiles.len() == 10000,
    ensures
        result.wf(),
        result.size == 100,
        result.values@ == first_pass(grid.tiles@, 10000).0,
        result.number == first_pass(grid.tiles@, 10000).1,
{
    let mut values: Vec<u16> = Vec::new();
    let mut k: usize = 0;
    while k < 10000
        invariant
            k <= 10000,
            values.len() == k,
        decreases 10000 - k,
    {
        values.push(0);
        k += 1;
    }
    let mut next_area_number: u16 = 2;
    values.set(0, 1);
    let mut i: usize = 1;
    assert(values@.subrange(0, 1) =~= first_pass(grid.tiles@, 1).0);
    while i < 10000
        invariant
            1 <= i <= 10000,
            grid.tiles.len() == 10000,
            values.len() == 10000,
            values@.subrange(0, i as int) == first_pass(grid.tiles@, i as int).0,
            next_area_number == first_pass(grid.tiles@, i as int).1,
        decreases 10000 - i,
    {
        proof {
            lemma_first_pass_bounds(grid.tiles@, i as int);
            lemma_first_pass_bounds(grid.tiles@, i + 1);
        }
        let ghost before = values@;
        let ghost prefix = first_pass(grid.tiles@, i as int).0;
        assert(forall|j: int| 0 <= j < i ==> before[j] == #[trigger] prefix[j]) by {
            assert forall|j: int| 0 <= j < i implies before[j] == #[trigger] prefix[j] by {
                assert(before.subrange(0, i as int)[j] == before[j]);
            }
        }
        let tile: i32 = grid.tiles[i];
        if i % 100 > 0 && grid.tiles[i - 1] == tile {
            let value: u16 = values[i - 1];
            values.set(i, value);
        } else if i >= 100 && grid.tiles[i - 100] == tile {
            let value: u16 = values[i - 100];
            values.set(i, value);
        } else if i >= 100 && i % 100 < 99 && grid.tiles[i + 1] == tile && grid.tiles[i + 1 - 100]
            == tile {
            let value: u16 = values[i + 1 - 100];
            values.set(i, value);
        } else {
            values.set(i, next_area_number);
            next_area_number += 1;
        }
        proof {
            assert(values@.subrange(0, i + 1) =~= first_pass(grid.tiles@, i + 1).0);
        }
        i += 1;
    }
    proof {
        assert(values@.subrange(0, 10000) =~= values@);
    }
    Areas { number: next_area_number, size: 100, values }
}

/// The labels and the next free number after the second pass has gone over
/// the cells below `n`: a cell that closes a ring under a different tile
/// opens a new area; a cell whose equal neighbour to the left or above
/// carries a greater number takes that number.
pub open spec fn second_pass(tiles: Seq<i32>, values: Seq<u16>, number: int, n: int) -> (
    Seq<u16>,
    int,
)
    decreases n,
{
    if n <= 100 {
        (values, number)
    } else {
        let (v, next) = second_pass(tiles, values, number, n - 1);
        let i = n - 1;
        if i % 100 > 0 && i % 100 < 99 && v[i] == v[i - 1] && v[i] < v[i - 100] && tiles[i]
            != tiles[i - 100] {
            (v.update(i, next as u16), next + 1)
        } else if i % 100 > 0 && v[i] < v[i - 1] && tiles[i] == tiles[i - 1] {
            (v.update(i, v[i - 1]), next)
        } else if v[i] < v[i - 100] && tiles[i] == tiles[i - 100] {
            (v.update(i, v[i - 100]), next)
        } else {
            (v, next)
        }
    }
}

/// The second pass keeps the number of cells and gives out at most one
/// number per cell it visits.
pub proof fn lemma_second_pass_bounds(tiles: Seq<i32>, values: Seq<u16>, number: int, n: int)
    requires
        100 <= n <= values.len(),
    ensures
        second_pass(tiles, values, number, n).0.len() == values.len(),
        number <= second_pass(tiles, values, number, n).1 <= number + n - 100,
    decreases n,
{
    if n > 100 {
        lemma_second_pass_bounds(tiles, values, number, n - 1);
    }
}

/// Relabels the cells that the first pass joined wrongly or left apart.
pub fn divide_loop_areas(areas: &mut Areas, grid: &Grid)
    requires
        grid.tiles.len() == 10000,
        old(areas).values.len() == 10000,
        old(areas).number + 9900 <= u16::MAX,
    ensures
        final(areas).size == old(areas).size,
        final(areas).values@ == second_pass(
            grid.tiles@,
            old(areas).values@,
            old(areas).number as int,
            10000,
        ).0,
        final(areas).number == second_pass(
            grid.tiles@,
            old(areas).values@,
            old(areas).number as int,
            10000,
        ).1,
{
    let ghost start_values = areas.values@;
    let ghost start_number = areas.number as int;
    let mut i: usize = 100;
    while i < 10000
        invariant
            100 <= i <= 10000,
            grid.tiles.len() == 10000,
            areas.values.len() == 10000,
            areas.size == old(areas).size,
            start_values == old(areas).values@,
            start_values.len() == 10000,
            start_number == old(areas).number,
            start_number + 9900 <= u16::MAX,
            areas.values@ == second_pass(grid.tiles@, start_values, start_number, i as int).0,
            areas.number == second_pass(grid.tiles@, start_values, start_number, i as int).1,
        decreases 10000 - i,
    {
        proof {
            lemma_second_pass_bounds(grid.tiles@, start_values, start_number, i as int);
            lemma_second_pass_bounds(grid.tiles@, start_values, start_number, i + 1);
        }
        if i % 100 > 0 && i % 100 < 99 && areas.get(i) == areas.get(i - 1) && areas.get(i)
            < areas.get(i - 100) && grid.tiles[i] != grid.tiles[i - 100] {
            let number: u16 = areas.number;
            areas.set(i, number);
            areas.number += 1;
        } else if i % 100 > 0 && areas.get(i) < areas.get(i - 1) && grid.tiles[i] == grid.tiles[i
            - 1] {
            areas.copy(i - 1, i);
        } else if areas.get(i) < areas.get(i - 100) && grid.tiles[i] == grid.tiles[i - 100] {
            areas.copy(i - 100, i);
        }
        i += 1;
    }
}

/// The order in which the neighbours of a cell are tried after a step
/// `shift`: the turn to the left first, then straight on, right, and back.
pub open spec fn shifts_spec(shift: Vec2i) -> Seq<Vec2i> {
    if shift == (Vec2i { x: 1, y: 0 }) {
        seq![Vec2i { x: 0, y: -1i32 }, Vec2i { x: 1, y: 0 }, Vec2i { x: 0, y: 1 },
            Vec2i { x: -1i32, y: 0 }]
    } else if shift == (Vec2i { x: 0, y: 1 }) {
        seq![Vec2i { x: 1, y: 0 }, Vec2i { x: 0, y: 1 }, Vec2i { x: -1i32, y: 0 },
            Vec2i { x: 0, y: -1i32 }]
    } else if shift == (Vec2i { x: -1i32, y: 0 }) {
        seq![Vec2i { x: 0, y: 1 }, Vec2i { x: -1i32, y: 0 }, Vec2i { x: 0, y: -1i32 },
            Vec2i { x: 1, y: 0 }]
    } else if shift == (Vec2i { x: 0, y: -1i32 }) {
        seq![Vec2i { x: -1i32, y: 0 }, Vec2i { x: 0, y: -1i32 }, Vec2i { x: 1, y: 0 },
            Vec2i { x: 0, y: 1 }]
    } else {
        Seq::empty()
    }
}

/// The neighbours to try after a step `shift`, in order.
pub fn get_shifts(shift: Vec2i) -> (result: Vec<Vec2i>)
    ensures
        result@ == shifts_spec(shift),
{
    let up = Vec2i { x: 0, y: -1 };
    let right = Vec2i { x: 1, y: 0 };
    let down = Vec2i { x: 0, y: 1 };
    let left = Vec2i { x: -1, y: 0 };
    let mut result: Vec<Vec2i> = Vec::new();
    if shift == right {
        result.push(up);
        result.push(right);
        result.push(down);
        result.push(left);
    } else if shift == down {
        result.push(right);
        result.push(down);
        result.push(left);
        result.push(up);
    } else if shift == left {
        result.push(down);
        result.push(left);
        result.push(up);
        result.push(right);
    } else if shift == up {
        result.push(left);
        result.push(up);
        result.push(right);
        result.push(down);
    }
    assert(result@ =~= shifts_spec(shift));
    result
}

/// The corner reached by a step `shift` from the cell `position`, on the
/// line through `previous` across the step.
pub open spec fn border_position_spec(position: Vec2i, shift: Vec2i, previous: Vec2i) -> Vec2i {
    if shift.x == 0 {
        Vec2i {
            x: previous.x,
            y: (if shift.y < 0 { position.y as int } else { position.y + shift.y }) as i32,
        }
    } else {
        Vec2i {
            x: (if shift.x < 0 { position.x as int } else { position.x + shift.x }) as i32,
            y: previous.y,
        }
    }
}

/// The corner reached by a step `shift` from the cell `position`.
pub fn get_border_position(position: Vec2i, shift: Vec2i, previous: Vec2i) -> (result: Vec2i)
    requires
        shift.x == 0 && shift.y >= 0 ==> fits_i32(position.y + shift.y),
        shift.x > 0 ==> fits_i32(position.x + shift.x),
    ensures
        result == border_position_spec(position, shift, previous),
{
    if shift.x == 0 {
        let y: i32 = if shift.y < 0 { position.y } else { position.y + shift.y };
        Vec2i { x: previous.x, y }
    } else {
        let x: i32 = if shift.x < 0 { position.x } else { position.x + shift.x };
        Vec2i { x, y: previous.y }
    }
}

/// How the walk along a border leaves a cell.
pub enum BorderMove {
    /// A neighbour that was tried is the cell the walk began at.
    Closed,
    /// No neighbour belongs to the area.
    Blocked,
    /// The walk goes on by this step.
    Step(Vec2i),
}

/// The move from `position`, trying `shifts` from index `k` on: the first
/// neighbour that is the starting cell closes the walk; the first that lies
/// in the square and in the area is stepped to.
pub open spec fn scan_shifts(
    values: Seq<u16>,
    size: int,
    area: u16,
    initial: Vec2i,
    position: Vec2i,
    shifts: Seq<Vec2i>,
    k: int,
) -> BorderMove
    decreases shifts.len() - k,
{
    if k < 0 || k >= shifts.len() {
        BorderMove::Blocked
    } else {
        let x = position.x + shifts[k].x;
        let y = position.y + shifts[k].y;
        if x == initial.x && y == initial.y {
            BorderMove::Closed
        } else if in_square(x, y, size) && values[x + y * size] == area {
            BorderMove::Step(shifts[k])
        } else {
            scan_shifts(values, size, area, initial, position, shifts, k + 1)
        }
    }
}

/// The cells visited from `position` on, for at most `fuel` cells.
pub open spec fn border_walk(
    values: Seq<u16>,
    size: int,
    area: u16,
    initial: Vec2i,
    position: Vec2i,
    shifts: Seq<Vec2i>,
    fuel: nat,
) -> Seq<Vec2i>
    decreases fuel,
{
    if fuel == 0 {
        Seq::empty()
    } else {
        match scan_shifts(values, size, area, initial, position, shifts, 0) {
            BorderMove::Step(shift) => seq![position] + border_walk(
                values,
                size,
                area,
                initial,
                shifted(position, shift.x as int, shift.y as int),
                shifts_spec(shift),
                (fuel - 1) as nat,
            ),
            _ => seq![position],
        }
    }
}

/// The most cells a walk may visit: every cell once from each side.
pub open spec fn walk_limit(size: int) -> nat {
    (4 * size * size + 1) as nat
}

/// The border cells of `area`, walked from `initial_position` with the area
/// on the right hand, until the walk comes back to where it began.
pub open spec fn make_area_border_spec(
    values: Seq<u16>,
    size: int,
    area: u16,
    initial_position: Vec2i,
) -> Seq<Vec2i> {
    border_walk(
        values,
        size,
        area,
        initial_position,
        initial_position,
        shifts_spec(Vec2i { x: 1, y: 0 }),
        walk_limit(size),
    )
}

/// Walks along the border of `area` from `initial_position` and returns the
/// cells in the order they are visited.
pub fn make_area_border(initial_position: Vec2i, area: u16, areas: &Areas) -> (result: Vec<Vec2i>)
    requires
        areas.wf(),
    ensures
        result@ == make_area_border_spec(areas.values@, areas.size as int, area, initial_position),
        forall|k: int| 1 <= k < result.len() ==> areas.has_cell(#[trigger] result[k]),
        result.len() >= 1,
        result[0] == initial_position,
{
    let mut border: Vec<Vec2i> = Vec::new();
    let mut shifts = get_shifts(Vec2i { x: 1, y: 0 });
    let mut position = initial_position;
    assert(0 <= areas.size * areas.size) by (nonlinear_arith);
    let mut fuel: u128 = 4 * (areas.values.len() as u128) + 1;
    let ghost total = make_area_border_spec(areas.values@, areas.size as int, area, initial_position);
    assert(4 * (areas.size as int) * (areas.size as int) == 4 * (areas.size * areas.size))
        by (nonlinear_arith);
    while fuel > 0
        invariant
            areas.wf(),
            total == make_area_border_spec(
                areas.values@,
                areas.size as int,
                area,
                initial_position,
            ),
            border@ + border_walk(
                areas.values@,
                areas.size as int,
                area,
                initial_position,
                position,
                shifts@,
                fuel as nat,
            ) == total,
            border.len() == 0 ==> position == initial_position,
            border.len() > 0 ==> areas.has_cell(position) && border[0] == initial_position,
            forall|k: int| 1 <= k < border.len() ==> areas.has_cell(#[trigger] border[k]),
            total.len() >= 1,
            total[0] == initial_position,
            fuel == 0 ==> border.len() > 0,
        decreases fuel,
    {
        let ghost before = border@;
        border.push(position);
        let mut next_shift: Option<Vec2i> = None;
        let mut k: usize = 0;
        let mut closed = false;
        while k < shifts.len()
            invariant_except_break
                !closed,
                next_shift.is_none(),
            invariant
                areas.wf(),
                k <= shifts.len(),
                scan_shifts(
                    areas.values@,
                    areas.size as int,
                    area,
                    initial_position,
                    position,
                    shifts@,
                    k as int,
                ) == scan_shifts(
                    areas.values@,
                    areas.size as int,
                    area,
                    initial_position,
                    position,
                    shifts@,
                    0,
                ),
            ensures
                closed ==> scan_shifts(
                    areas.values@,
                    areas.size as int,
                    area,
                    initial_position,
                    position,
                    shifts@,
                    0,
                ) == BorderMove::Closed,
                !closed && next_shift.is_none() ==> scan_shifts(
                    areas.values@,
                    areas.size as int,
                    area,
                    initial_position,
                    position,
                    shifts@,
                    0,
                ) == BorderMove::Blocked,
                !closed && next_shift.is_some() ==> {
                    &&& scan_shifts(
                        areas.values@,
                        areas.size as int,
                        area,
                        initial_position,
                        position,
                        shifts@,
                        0,
                    ) == BorderMove::Step(next_shift.unwrap())
                    &&& in_square(
                        position.x + next_shift.unwrap().x,
                        position.y + next_shift.unwrap().y,
                        areas.size as int,
                    )
                },
            decreases shifts.len() - k,
        {
            let x: i64 = position.x as i64 + shifts[k].x as i64;
            let y: i64 = position.y as i64 + shifts[k].y as i64;
            if x == initial_position.x as i64 && y == initial_position.y as i64 {
                closed = true;
                break;
            }
            if 0 <= x && (x as u64) < areas.size as u64 && 0 <= y && (y as u64) < areas.size as u64 {
                let candidate = Vec2i { x: x as i32, y: y as i32 };
                if areas.get_by_pos(candidate) == area {
                    next_shift = Some(shifts[k]);
                    break;
                }
            }
            k += 1;
        }
        if closed {
            proof {
                assert(border@ =~= total);
            }
            return border;
        }
        match next_shift {
            Some(shift) => {
                position = Vec2i { x: position.x + shift.x, y: position.y + shift.y };
                shifts = get_shifts(shift);
                fuel -= 1;
                proof {
                    assert(border@ + border_walk(
                        areas.values@,
                        areas.size as int,
                        area,
                        initial_position,
                        position,
                        shifts@,
                        fuel as nat,
                    ) =~= total);
                }
            },
            None => {
                proof {
                    assert(border@ =~= total);
                }
                return border;
            },
        }
    }
    proof {
        assert(border@ =~= total);
    }
    border
}

/// The mathematical value of an `Area`.
pub struct AreaData {
    pub tile: i32,
    pub border: Seq<Vec2i>,
}

impl View for Area {
    type V = AreaData;

    open spec fn view(&self) -> AreaData {
        AreaData { tile: self.tile, border: self.border@ }
    }
}

/// The index of the first cell at or after `from` that carries `area`, or
/// the number of cells where there is none.
pub open spec fn first_cell_of(values: Seq<u16>, area: u16, from: int) -> int
    decreases values.len() - from,
{
    if from < 0 || from >= values.len() {
        values.len() as int
    } else if values[from] == area {
        from
    } else {
        first_cell_of(values, area, from + 1)
    }
}

/// The outline of `area`, walked from the cell `position`: the border cells
/// without straight runs, turned into corners, smoothed, and once more
/// without straight runs.
pub open spec fn area_outline(values: Seq<u16>, size: int, area: u16, position: Vec2i) -> Seq<
    Vec2i,
> {
    remove_redundant_border_positions_spec(
        smooth_area_border_spec(
            make_area_contour_spec(
                remove_redundant_border_positions_spec(
                    make_area_border_spec(values, size, area, position),
                ),
            ),
        ),
    )
}

/// The areas with a number from 1 up to but without `n`, in the order of
/// their numbers; a number that no cell carries gives no area.
pub open spec fn areas_upto(tiles: Seq<i32>, values: Seq<u16>, n: int) -> Seq<AreaData>
    decreases n,
{
    if n <= 1 {
        Seq::empty()
    } else {
        let rest = areas_upto(tiles, values, n - 1);
        let area = (n - 1) as u16;
        let cell = first_cell_of(values, area, 0);
        if cell < values.len() {
            rest.push(
                AreaData {
                    tile: tiles[cell],
                    border: area_outline(values, 100, area, tile_index_to_tile_pos_spec(cell)),
                },
            )
        } else {
            rest
        }
    }
}

/// The areas of a grid with the tiles `tiles`.
pub open spec fn make_areas_spec(tiles: Seq<i32>) -> Seq<AreaData> {
    let (first_values, first_number) = first_pass(tiles, 10000);
    let (values, number) = second_pass(tiles, first_values, first_number, 10000);
    areas_upto(tiles, values, number)
}

fn find_first_cell(areas: &Areas, area: u16) -> (result: usize)
    ensures
        result == first_cell_of(areas.values@, area, 0),
        result <= areas.values.len(),
        result < areas.values.len() ==> areas.values[result as int] == area,
{
    let mut i: usize = 0;
    while i < areas.values.len()
        invariant
            i <= areas.values.len(),
            first_cell_of(areas.values@, area, i as int) == first_cell_of(areas.values@, area, 0),
        decreases areas.values.len() - i,
    {
        if areas.values[i] == area {
            return i;
        }
        i += 1;
    }
    i
}

/// Divides `grid` into areas of equal tile and gives each its outline.
pub fn make_areas(grid: &Grid) -> (result: Vec<Area>)
    requires
        grid.tiles.len() == 10000,
    ensures
        result.len() == make_areas_spec(grid.tiles@).len(),
        forall|i: int| 0 <= i < result.len() ==> (#[trigger] result[i])@
            == make_areas_spec(grid.tiles@)[i],
{
    let mut areas = divide_into_areas(grid);
    proof {
        lemma_first_pass_bounds(grid.tiles@, 10000);
        lemma_second_pass_bounds(
            grid.tiles@,
            areas.values@,
            areas.number as int,
            10000,
        );
    }
    divide_loop_areas(&mut areas, grid);
    let mut result: Vec<Area> = Vec::new();
    let mut area: u16 = 1;
    while area < areas.number
        invariant
            grid.tiles.len() == 10000,
            areas.wf(),
            areas.size == 100,
            1 <= area,
            area <= areas.number || areas.number < 1,
            result.len() == areas_upto(grid.tiles@, areas.values@, area as int).len(),
            forall|i: int| 0 <= i < result.len() ==> (#[trigger] result[i])@ == areas_upto(
                grid.tiles@,
                areas.values@,
                area as int,
            )[i],
        decreases areas.number - area,
    {
        let cell = find_first_cell(&areas, area);
        if cell < areas.values.len() {
            let position = tile_index_to_tile_pos(cell);
            proof {
                crate::coords::lemma_tile_pos_round_trip(cell as int);
            }
            let walked = make_area_border(position, area, &areas);
            let ghost walked_cells = walked@;
            let corners = remove_redundant_border_positions(walked);
            proof {
                assert forall|k: int| 0 <= k < corners.len() implies (#[trigger] corners@[k]).x
                    < i32::MAX && corners@[k].y < i32::MAX by {
                    let p = corners[k];
                    assert(walked_cells.contains(p));
                    let j = choose|j: int| 0 <= j < walked_cells.len() && walked_cells[j] == p;
                    if j >= 1 {
                        assert(areas.has_cell(walked_cells[j]));
                    }
                }
            }
            let outline = remove_redundant_border_positions(
                smooth_area_border(make_area_contour(corners)),
            );
            result.push(Area { tile: grid.tiles[cell], border: outline });
        }
        area += 1;
    }
    result
}

} // verus!
