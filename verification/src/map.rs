//! The map of one session: the known tiles, and the grids joined into
//! segments by the places they hold.

use vstd::prelude::*;
use crate::coords::{
    relative_tile_pos_spec, tile_index_spec, tile_pos_to_grid_pos, tile_pos_to_grid_pos_spec,
};
use crate::grid::{Grid, GridData, GridNeighbour, Tile, TileData, TileSet};
use crate::map_db::MapDb;
use crate::ordered_map::OrderedMap;
use crate::vec2::{lemma_wrapping_add_injective, lemma_wrapping_add_sub_inverse, Vec2i};

verus! {

/// Under which id, and in which version, a tile name is known.
pub struct NameEntry {
    pub name: String,
    pub id: i32,
    pub version: i32,
}

/// The id and version that a tile name resolves to.
pub struct NameData {
    pub id: i32,
    pub version: i32,
}

/// The grid that holds a place of a segment.
#[derive(Clone, Copy)]
pub struct CoordEntry {
    pub segment_id: i64,
    pub position: Vec2i,
    pub grid_id: i64,
}

/// The tiles and grids of a snapshot.
#[derive(Debug, Clone, PartialEq)]
pub struct MapData {
    pub tiles: Vec<Tile>,
    pub grids: Vec<Grid>,
}

/// The key of a place: segments in the order of their ids, the places of a
/// segment in the order of `x`, then of `y`.
pub open spec fn place_key(segment_id: i64, position: Vec2i) -> int {
    segment_id * 0x1_0000_0000_0000_0000 + (position.x + 0x8000_0000) * 0x1_0000_0000 + (position.y
        + 0x8000_0000)
}

/// Two places with one key are one place.
pub proof fn lemma_place_key_injective(segment: i64, place: Vec2i, other_segment: i64,
    other_place: Vec2i)
    requires
        place_key(segment, place) == place_key(other_segment, other_place),
    ensures
        segment == other_segment,
        place == other_place,
{
}

/// The index of the first entry at or after `from` with the name `name`, or
/// the number of entries where there is none.
pub open spec fn find_name(names: Seq<NameEntry>, name: Seq<char>, from: int) -> int
    decreases names.len() - from,
{
    if from < 0 || from >= names.len() {
        names.len() as int
    } else if names[from].name@ == name {
        from
    } else {
        find_name(names, name, from + 1)
    }
}

/// What the name entries resolve each name to.
pub open spec fn name_index_of(names: Seq<NameEntry>) -> Map<Seq<char>, NameData> {
    Map::new(
        |name: Seq<char>| find_name(names, name, 0) < names.len(),
        |name: Seq<char>|
            NameData {
                id: names[find_name(names, name, 0)].id,
                version: names[find_name(names, name, 0)].version,
            },
    )
}

/// `find_name` returns an index in range that carries the name, or the
/// length when no entry from `from` on carries it.
pub proof fn lemma_find_name(names: Seq<NameEntry>, name: Seq<char>, from: int)
    requires
        0 <= from <= names.len(),
    ensures
        from <= find_name(names, name, from) <= names.len(),
        find_name(names, name, from) < names.len() ==> names[find_name(names, name, from)].name@
            == name,
        forall|i: int| from <= i < find_name(names, name, from) ==> (#[trigger] names[i]).name@ != name,
    decreases names.len() - from,
{
    if from < names.len() && names[from].name@ != name {
        lemma_find_name(names, name, from + 1);
    }
}

/// The first entry with a name is found from wherever the search starts
/// before it.
pub proof fn lemma_find_name_first(names: Seq<NameEntry>, name: Seq<char>, from: int, at: int)
    requires
        0 <= from <= at < names.len(),
        names[at].name@ == name,
        forall|i: int| from <= i < at ==> (#[trigger] names[i]).name@ != name,
    ensures
        find_name(names, name, from) == at,
    decreases at - from,
{
    if from < at {
        lemma_find_name_first(names, name, from + 1, at);
    }
}

/// How one tile changes what the names resolve to: a name that is new, or
/// known in a smaller version, resolves to the tile; else nothing changes.
pub open spec fn name_index_with(index: Map<Seq<char>, NameData>, tile: TileData) -> Map<
    Seq<char>,
    NameData,
> {
    if supersedes(index, tile) {
        index.insert(tile.name, NameData { id: tile.id, version: tile.version })
    } else {
        index
    }
}

/// Whether `tile` is newer than what its name resolves to.
pub open spec fn supersedes(index: Map<Seq<char>, NameData>, tile: TileData) -> bool {
    !index.contains_key(tile.name) || index[tile.name].version < tile.version
}

/// What the names resolve to after the tiles of `history` were set one
/// after the other.
pub open spec fn name_index_after(history: Seq<TileData>) -> Map<Seq<char>, NameData>
    decreases history.len(),
{
    if history.len() == 0 {
        Map::empty()
    } else {
        name_index_with(name_index_after(history.drop_last()), history.last())
    }
}

/// After any number of tiles were set, a name resolves to the tile that
/// was seen under it with the greatest version, and to the first such tile
/// where several share that version; a name never seen resolves to nothing.
pub proof fn lemma_name_resolves_to_greatest_version(history: Seq<TileData>, name: Seq<char>)
    ensures
        name_index_after(history).contains_key(name) <==> exists|i: int|
            0 <= i < history.len() && (#[trigger] history[i]).name == name,
        name_index_after(history).contains_key(name) ==> exists|i: int|
            {
                &&& 0 <= i < history.len()
                &&& (#[trigger] history[i]).name == name
                &&& history[i].id == name_index_after(history)[name].id
                &&& history[i].version == name_index_after(history)[name].version
                &&& forall|j: int|
                    0 <= j < history.len() && (#[trigger] history[j]).name == name
                        ==> history[j].version <= history[i].version
                &&& forall|j: int|
                    0 <= j < i && (#[trigger] history[j]).name == name ==> history[j].version
                        < history[i].version
            },
    decreases history.len(),
{
    if history.len() > 0 {
        let before = history.drop_last();
        let last = history.last();
        let n = history.len() - 1;
        lemma_name_resolves_to_greatest_version(before, name);
        let index = name_index_after(before);
        assert(forall|i: int| 0 <= i < before.len() ==> before[i] == history[i]);
        if index.contains_key(name) {
            let w = choose|i: int|
                {
                    &&& 0 <= i < before.len()
                    &&& (#[trigger] before[i]).name == name
                    &&& before[i].id == index[name].id
                    &&& before[i].version == index[name].version
                    &&& forall|j: int|
                        0 <= j < before.len() && (#[trigger] before[j]).name == name
                            ==> before[j].version <= before[i].version
                    &&& forall|j: int|
                        0 <= j < i && (#[trigger] before[j]).name == name ==> before[j].version
                            < before[i].version
                };
            if last.name == name && supersedes(index, last) {
                assert(history[n].name == name);
                assert forall|j: int|
                    0 <= j < history.len() && (#[trigger] history[j]).name
                        == name implies history[j].version
                    <= history[n].version by {
                    if j < n {
                        assert(before[j].version <= before[w].version);
                    }
                }
                assert forall|j: int| 0 <= j < n && (#[trigger] history[j]).name
                    == name implies history[j].version
                    < history[n].version by {
                    assert(before[j].version <= before[w].version);
                }
            } else {
                assert(history[w].name == name);
                assert forall|j: int|
                    0 <= j < history.len() && (#[trigger] history[j]).name
                        == name implies history[j].version
                    <= history[w].version by {
                    if j < n {
                        assert(before[j].version <= before[w].version);
                    }
                }
                assert forall|j: int| 0 <= j < w && (#[trigger] history[j]).name
                    == name implies history[j].version
                    < history[w].version by {
                    assert(before[j].version < before[w].version);
                }
            }
        } else {
            if last.name == name {
                assert(history[n].name == name);
                assert forall|j: int|
                    0 <= j < history.len() && (#[trigger] history[j]).name
                        == name implies history[j].version
                    <= history[n].version by {
                    if j < n {
                        assert(before[j].name == name);
                    }
                }
                assert forall|j: int| 0 <= j < n && (#[trigger] history[j]).name
                    == name implies history[j].version
                    < history[n].version by {
                    assert(before[j].name == name);
                }
            } else {
                assert forall|i: int| 0 <= i < history.len() implies (#[trigger] history[i]).name
                    != name by {
                    if i < n {
                        assert(before[i].name != name);
                    }
                }
            }
        }
    }
}

/// Whether no two grids stand at one place of one segment.
pub open spec fn placement_injective(grids: Map<i64, GridData>) -> bool {
    forall|a: i64, b: i64|
        #![trigger grids[a], grids[b]]
        grids.contains_key(a) && grids.contains_key(b) && a != b ==> !(grids[a].segment_id
            == grids[b].segment_id && grids[a].position == grids[b].position)
}

/// Whether the grid `id` stands at the place.
pub open spec fn stands_at(
    grids: Map<i64, GridData>,
    id: i64,
    segment_id: i64,
    position: Vec2i,
) -> bool {
    &&& grids.contains_key(id)
    &&& grids[id].segment_id == segment_id
    &&& grids[id].position == position
}

/// Whether the entry under the key `k` names the grid of greatest id that
/// stands at the place of `k`.
pub open spec fn entry_ok(grids: Map<i64, GridData>, index: Map<i128, CoordEntry>, k: i128) -> bool {
    let entry = index[k];
    &&& k == place_key(entry.segment_id, entry.position)
    &&& stands_at(grids, entry.grid_id, entry.segment_id, entry.position)
    &&& forall|id: i64| #[trigger]
        stands_at(grids, id, entry.segment_id, entry.position) ==> id <= entry.grid_id
}

/// Whether the index holds, for every place where a grid stands, the grid
/// of greatest id that stands there, and nothing else.
pub open spec fn index_wf(grids: Map<i64, GridData>, index: Map<i128, CoordEntry>) -> bool {
    &&& forall|k: i128| #[trigger] index.contains_key(k) ==> entry_ok(grids, index, k)
    &&& forall|id: i64| #[trigger]
        grids.contains_key(id) ==> index.contains_key(
            place_key(grids[id].segment_id, grids[id].position) as i128,
        )
}

/// The tiles by id after the tiles of `history` were set one after the
/// other: each tile that supersedes what its name resolved to is stored
/// under its id.
pub open spec fn tiles_after(history: Seq<TileData>) -> Map<i32, TileData>
    decreases history.len(),
{
    if history.len() == 0 {
        Map::empty()
    } else if supersedes(name_index_after(history.drop_last()), history.last()) {
        tiles_after(history.drop_last()).insert(history.last().id, history.last())
    } else {
        tiles_after(history.drop_last())
    }
}

/// The grids by id after the first `n` grids of `grids` were stored one
/// after the other.
pub open spec fn grids_from(grids: Seq<GridData>, n: int) -> Map<i64, GridData>
    decreases n,
{
    if n <= 0 {
        Map::empty()
    } else {
        grids_from(grids, n - 1).insert(grids[n - 1].id, grids[n - 1])
    }
}

/// The first `n` grids of a table that is keyed by id, stored one after
/// the other, are those grids by their ids.
pub proof fn lemma_grids_from_table(table: &OrderedMap<Grid>, n: int)
    requires
        table.wf(),
        forall|k: i128| #[trigger] table@.contains_key(k) ==> table@[k].id as i128 == k,
        0 <= n <= table.keys.len(),
    ensures
        forall|id: i64|
            #[trigger] grids_from(grid_views(table.values@), n).contains_key(id) <==> exists|i: int|
                0 <= i < n && #[trigger] table.keys[i] == id as i128,
        forall|i: int|
            0 <= i < n ==> grids_from(grid_views(table.values@), n)[(#[trigger] table.values[i]).id]
                == table.values[i]@,
    decreases n,
{
    let views = grid_views(table.values@);
    if n > 0 {
        lemma_grids_from_table(table, n - 1);
        table.lemma_entry(n - 1);
        let before = grids_from(views, n - 1);
        let after = grids_from(views, n);
        let last = table.values[n - 1];
        assert(views[n - 1] == last@);
        assert(last.id as i128 == table.keys[n - 1]);
        assert forall|id: i64| #[trigger] after.contains_key(id) <==> exists|i: int|
            0 <= i < n && #[trigger] table.keys[i] == id as i128 by {
            if id == last.id {
                assert(table.keys[n - 1] == id as i128);
            } else if before.contains_key(id) {
                let i = choose|i: int| 0 <= i < n - 1 && #[trigger] table.keys[i] == id as i128;
                assert(table.keys[i] == id as i128);
            } else if exists|i: int| 0 <= i < n && #[trigger] table.keys[i] == id as i128 {
                let i = choose|i: int| 0 <= i < n && #[trigger] table.keys[i] == id as i128;
                assert(i < n - 1);
                assert(table.keys[i] == id as i128);
            }
        }
        assert forall|i: int| 0 <= i < n implies after[(#[trigger] table.values[i]).id]
            == table.values[i]@ by {
            if i < n - 1 {
                table.lemma_entry(i);
                assert(table.keys[i] < table.keys[n - 1]);
                assert(table.values[i].id != last.id);
            }
        }
    }
}

/// The tile of the cell with the row-major index `cell`, if the list
/// reaches that far.
pub open spec fn tile_of_cell(tiles: Seq<i32>, cell: int) -> Option<i32> {
    if 0 <= cell < tiles.len() {
        Some(tiles[cell])
    } else {
        None
    }
}

/// The row-major index, inside its grid, of the cell at `tile_pos`.
pub open spec fn cell_of(tile_pos: Vec2i) -> int {
    tile_index_spec(relative_tile_pos_spec(tile_pos, tile_pos_to_grid_pos_spec(tile_pos)))
}

/// The views of the tiles of a list, in order.
pub open spec fn tile_views(tiles: Seq<Tile>) -> Seq<TileData> {
    Seq::new(tiles.len(), |i: int| tiles[i]@)
}

/// The views of the grids of a list, in order.
pub open spec fn grid_views(grids: Seq<Grid>) -> Seq<GridData> {
    Seq::new(grids.len(), |i: int| grids[i]@)
}

fn make_place_key(segment_id: i64, position: Vec2i) -> (result: i128)
    ensures
        result == place_key(segment_id, position),
{
    (segment_id as i128) * 0x1_0000_0000_0000_0000 + (position.x as i128 + 0x8000_0000)
        * 0x1_0000_0000 + (position.y as i128 + 0x8000_0000)
}

fn cell_index(tile_pos: Vec2i) -> (result: usize)
    ensures
        result == cell_of(tile_pos),
        result < 10000,
{
    let grid_pos = tile_pos_to_grid_pos(tile_pos);
    let x: i64 = tile_pos.x as i64 - (grid_pos.x as i64) * 100;
    let y: i64 = tile_pos.y as i64 - (grid_pos.y as i64) * 100;
    (x + y * 100) as usize
}

fn tile_in(tiles: &Vec<i32>, cell: usize) -> (result: Option<i32>)
    ensures
        result == tile_of_cell(tiles@, cell as int),
{
    if cell < tiles.len() {
        Some(tiles[cell])
    } else {
        None
    }
}

/// A neighbour hint resolved against the grids: the segment and position
/// of the neighbour, and the offset at which the hint sees it.
#[derive(Clone, Copy)]
pub struct Link {
    pub segment_id: i64,
    pub offset: Vec2i,
    pub position: Vec2i,
}

/// The links of the first `n` hints, in order; a hint to an unknown grid
/// gives none.
pub open spec fn links_upto(grids: Map<i64, GridData>, neighbours: Seq<GridNeighbour>, n: int) -> Seq<
    Link,
>
    decreases n,
{
    if n <= 0 {
        Seq::empty()
    } else {
        let rest = links_upto(grids, neighbours, n - 1);
        let hint = neighbours[n - 1];
        if grids.contains_key(hint.id) {
            rest.push(
                Link {
                    segment_id: grids[hint.id].segment_id,
                    offset: hint.offset,
                    position: grids[hint.id].position,
                },
            )
        } else {
            rest
        }
    }
}

/// How many of the first `n` grids belong to the segment.
pub open spec fn segment_size(grids: Seq<Grid>, segment_id: i64, n: int) -> int
    decreases n,
{
    if n <= 0 {
        0
    } else if grids[n - 1].segment_id == segment_id {
        segment_size(grids, segment_id, n - 1) + 1
    } else {
        segment_size(grids, segment_id, n - 1)
    }
}

/// Whether the segment of `a` is to be kept before that of `b`: the greater
/// segment, and of two of one size the one with the smaller id.
pub open spec fn strictly_better(grids: Seq<Grid>, a: Link, b: Link) -> bool {
    let size_a = segment_size(grids, a.segment_id, grids.len() as int);
    let size_b = segment_size(grids, b.segment_id, grids.len() as int);
    size_a > size_b || (size_a == size_b && a.segment_id < b.segment_id)
}

/// The index of the link, among the first `n`, whose segment is kept: the
/// first that no other is strictly better than.
pub open spec fn best_link(grids: Seq<Grid>, links: Seq<Link>, n: int) -> int
    decreases n,
{
    if n <= 1 {
        0
    } else {
        let best = best_link(grids, links, n - 1);
        if strictly_better(grids, links[n - 1], links[best]) {
            n - 1
        } else {
            best
        }
    }
}

/// No link is strictly better than the best, and the best is strictly
/// better than every link of another segment before it.
pub proof fn lemma_best_link(grids: Seq<Grid>, links: Seq<Link>, n: int)
    requires
        1 <= n <= links.len(),
    ensures
        0 <= best_link(grids, links, n) < n,
        forall|j: int| 0 <= j < n
            ==> !strictly_better(grids, #[trigger] links[j], links[best_link(grids, links, n)]),
    decreases n,
{
    if n > 1 {
        lemma_best_link(grids, links, n - 1);
    }
}

/// The index of the first link at or after `from` that belongs to the
/// segment, or the number of links where there is none.
pub open spec fn first_link_of(links: Seq<Link>, segment_id: i64, from: int) -> int
    decreases links.len() - from,
{
    if from < 0 || from >= links.len() {
        links.len() as int
    } else if links[from].segment_id == segment_id {
        from
    } else {
        first_link_of(links, segment_id, from + 1)
    }
}

/// `first_link_of` finds a link of the segment wherever there is one.
pub proof fn lemma_first_link_of(links: Seq<Link>, segment_id: i64, from: int)
    requires
        0 <= from <= links.len(),
    ensures
        from <= first_link_of(links, segment_id, from) <= links.len(),
        first_link_of(links, segment_id, from) < links.len() ==> links[first_link_of(
            links,
            segment_id,
            from,
        )].segment_id == segment_id,
        forall|i: int|
            from <= i < links.len() && (#[trigger] links[i]).segment_id == segment_id
                ==> first_link_of(links, segment_id, from) <= i,
    decreases links.len() - from,
{
    if from < links.len() && links[from].segment_id != segment_id {
        lemma_first_link_of(links, segment_id, from + 1);
    }
}

/// Every hint to a known grid has its link among the links.
pub proof fn lemma_links_cover(
    grids: Map<i64, GridData>,
    neighbours: Seq<GridNeighbour>,
    n: int,
    k: int,
)
    requires
        0 <= k < n <= neighbours.len(),
        grids.contains_key(neighbours[k].id),
    ensures
        exists|i: int|
            0 <= i < links_upto(grids, neighbours, n).len() && (#[trigger] links_upto(
                grids,
                neighbours,
                n,
            )[i]).segment_id == grids[neighbours[k].id].segment_id,
    decreases n,
{
    let links = links_upto(grids, neighbours, n);
    if k == n - 1 {
        assert(links[links.len() - 1].segment_id == grids[neighbours[k].id].segment_id);
    } else {
        lemma_links_cover(grids, neighbours, n - 1, k);
        let rest = links_upto(grids, neighbours, n - 1);
        let i = choose|i: int|
            0 <= i < rest.len() && (#[trigger] rest[i]).segment_id
                == grids[neighbours[k].id].segment_id;
        assert(links[i] == rest[i]);
    }
}

/// A counter one greater, held at the greatest value.
pub open spec fn next_revision(revision: i64) -> i64 {
    if revision < i64::MAX {
        (revision + 1) as i64
    } else {
        revision
    }
}

/// A grid after a merge into the segment `target`, whose new grid stands
/// at `base`: a grid of another segment that a link leads to joins the
/// target, shifted so that the link's offset from `base` is kept, and
/// counts one revision more; any other grid stays as it is.
pub open spec fn moved(grid: GridData, links: Seq<Link>, target: i64, base: Vec2i) -> GridData {
    let at = first_link_of(links, grid.segment_id, 0);
    if grid.segment_id != target && at < links.len() {
        GridData {
            segment_id: target,
            position: grid.position.wrapping_add_spec(
                base.wrapping_add_spec(links[at].offset).wrapping_sub_spec(links[at].position),
            ),
            revision: next_revision(grid.revision),
            ..grid
        }
    } else {
        grid
    }
}

/// The grids after `grid` was added with the hints `neighbours`.
///
/// Without a link the grid is stored as it is. Else the segment of the best
/// link is kept, the grid is put into it at the place that the best link
/// gives, and every other linked segment is merged into it.
pub open spec fn grids_with(
    grids: Map<i64, GridData>,
    table: Seq<Grid>,
    grid: GridData,
    neighbours: Seq<GridNeighbour>,
) -> Map<i64, GridData> {
    let links = links_upto(grids, neighbours, neighbours.len() as int);
    if links.len() == 0 {
        grids.insert(grid.id, grid)
    } else {
        let best = links[best_link(table, links, links.len() as int)];
        let base = best.position.wrapping_sub_spec(best.offset);
        Map::new(
            |id: i64| grids.contains_key(id) || id == grid.id,
            |id: i64|
                if id == grid.id {
                    GridData { segment_id: best.segment_id, position: base, ..grid }
                } else {
                    moved(grids[id], links, best.segment_id, base)
                },
        )
    }
}

/// After a grid was added, it and each of its known neighbours belong to
/// one segment.
pub proof fn lemma_added_grid_joins_neighbours(
    grids: Map<i64, GridData>,
    table: Seq<Grid>,
    grid: GridData,
    neighbours: Seq<GridNeighbour>,
    k: int,
)
    requires
        0 <= k < neighbours.len(),
        grids.contains_key(neighbours[k].id),
    ensures
        grids_with(grids, table, grid, neighbours).contains_key(grid.id),
        grids_with(grids, table, grid, neighbours).contains_key(neighbours[k].id),
        grids_with(grids, table, grid, neighbours)[neighbours[k].id].segment_id == grids_with(
            grids,
            table,
            grid,
            neighbours,
        )[grid.id].segment_id,
{
    let links = links_upto(grids, neighbours, neighbours.len() as int);
    lemma_links_cover(grids, neighbours, neighbours.len() as int, k);
    let segment = grids[neighbours[k].id].segment_id;
    let i = choose|i: int| 0 <= i < links.len() && (#[trigger] links[i]).segment_id == segment;
    lemma_first_link_of(links, segment, 0);
    lemma_best_link(table, links, links.len() as int);
}

fn find_link(links: &Vec<Link>, segment_id: i64) -> (result: usize)
    ensures
        result == first_link_of(links@, segment_id, 0),
        result <= links.len(),
{
    let mut i: usize = 0;
    while i < links.len()
        invariant
            i <= links.len(),
            first_link_of(links@, segment_id, i as int) == first_link_of(links@, segment_id, 0),
        decreases links.len() - i,
    {
        if links[i].segment_id == segment_id {
            return i;
        }
        i += 1;
    }
    i
}

/// The grids after `grid` took the place of the grid with its id: where
/// its position differs from the one stored, every other grid of its
/// segment is shifted by the difference. A grid with an unknown id is
/// stored as it is.
pub open spec fn grids_updated(grids: Map<i64, GridData>, grid: GridData) -> Map<i64, GridData> {
    if grids.contains_key(grid.id) {
        let shift = grid.position.wrapping_sub_spec(grids[grid.id].position);
        Map::new(
            |id: i64| grids.contains_key(id),
            |id: i64|
                if id == grid.id {
                    grid
                } else if grids[id].segment_id == grid.segment_id {
                    GridData { position: grids[id].position.wrapping_add_spec(shift), ..grids[id] }
                } else {
                    grids[id]
                },
        )
    } else {
        grids.insert(grid.id, grid)
    }
}

/// Where no two grids share a place, none do after a grid was updated
/// within its segment: the whole segment moves by one shift.
pub proof fn lemma_update_keeps_places_apart(grids: Map<i64, GridData>, grid: GridData)
    requires
        placement_injective(grids),
        grids.contains_key(grid.id),
        grids[grid.id].segment_id == grid.segment_id,
    ensures
        placement_injective(grids_updated(grids, grid)),
{
    let after = grids_updated(grids, grid);
    let shift = grid.position.wrapping_sub_spec(grids[grid.id].position);
    lemma_wrapping_add_sub_inverse(grid.position, grids[grid.id].position);
    assert forall|a: i64, b: i64|
        #![trigger after[a], after[b]]
        after.contains_key(a) && after.contains_key(b) && a != b implies !(after[a].segment_id
        == after[b].segment_id && after[a].position == after[b].position) by {
        assert(after[a].segment_id == grids[a].segment_id);
        assert(after[b].segment_id == grids[b].segment_id);
        if grids[a].segment_id == grids[b].segment_id {
            let _ = grids[a];
            let _ = grids[b];
            assert(grids[a].position != grids[b].position);
            if grids[a].segment_id == grid.segment_id {
                assert(after[a].position == grids[a].position.wrapping_add_spec(shift));
                assert(after[b].position == grids[b].position.wrapping_add_spec(shift));
                if after[a].position == after[b].position {
                    lemma_wrapping_add_injective(grids[a].position, grids[b].position, shift);
                }
            }
        }
    }
}

/// Where no two grids share a place, none do after a grid with a new id
/// was added without hints at a place that was free.
pub proof fn lemma_add_apart_keeps_places_apart(
    grids: Map<i64, GridData>,
    table: Seq<Grid>,
    grid: GridData,
)
    requires
        placement_injective(grids),
        forall|id: i64| !stands_at(grids, id, grid.segment_id, grid.position),
    ensures
        placement_injective(grids_with(grids, table, grid, Seq::empty())),
{
    let after = grids_with(grids, table, grid, Seq::empty());
    assert forall|a: i64, b: i64|
        #![trigger after[a], after[b]]
        after.contains_key(a) && after.contains_key(b) && a != b implies !(after[a].segment_id
        == after[b].segment_id && after[a].position == after[b].position) by {
        if a != grid.id && b != grid.id {
            let _ = grids[a];
            let _ = grids[b];
        } else if a == grid.id {
            assert(!stands_at(grids, b, grid.segment_id, grid.position));
        } else {
            assert(!stands_at(grids, a, grid.segment_id, grid.position));
        }
    }
}

/// Whether the grids lie as the world is laid out: `truth` gives each grid
/// its true position, each segment counts from an origin of its own, and
/// a grid stands at its true position counted from the origin of its
/// segment, modulo `2^32`.
pub open spec fn lies_true(
    grids: Map<i64, GridData>,
    truth: Map<i64, Vec2i>,
    origin: Map<i64, Vec2i>,
) -> bool {
    forall|id: i64| #[trigger]
        grids.contains_key(id) ==> truth.contains_key(id) && origin.contains_key(
            grids[id].segment_id,
        ) && grids[id].position == truth[id].wrapping_sub_spec(origin[grids[id].segment_id])
}

/// Whether no two grids have one true position.
pub open spec fn truth_apart(truth: Map<i64, Vec2i>) -> bool {
    forall|a: i64, b: i64|
        #![trigger truth[a], truth[b]]
        truth.contains_key(a) && truth.contains_key(b) && a != b ==> truth[a] != truth[b]
}

/// Whether each hint to a known grid tells truly where that grid lies
/// from the grid `id`.
pub open spec fn hints_true(
    grids: Map<i64, GridData>,
    truth: Map<i64, Vec2i>,
    id: i64,
    neighbours: Seq<GridNeighbour>,
) -> bool {
    forall|k: int|
        0 <= k < neighbours.len() && grids.contains_key((#[trigger] neighbours[k]).id)
            ==> neighbours[k].offset == truth[neighbours[k].id].wrapping_sub_spec(truth[id])
}

/// Whether the link tells truly where a grid of its segment lies: some true
/// position lies at the link's position from the origin of the segment
/// and at the link's offset from `from`.
pub open spec fn link_true(origin: Map<i64, Vec2i>, from: Vec2i, link: Link) -> bool {
    origin.contains_key(link.segment_id) && exists|at: Vec2i|
        link.position == #[trigger] at.wrapping_sub_spec(origin[link.segment_id]) && link.offset
            == at.wrapping_sub_spec(from)
}

/// Where the grids lie as the world is laid out and the hints are true,
/// every link is.
pub proof fn lemma_links_true(
    grids: Map<i64, GridData>,
    truth: Map<i64, Vec2i>,
    origin: Map<i64, Vec2i>,
    id: i64,
    neighbours: Seq<GridNeighbour>,
    n: int,
)
    requires
        0 <= n <= neighbours.len(),
        lies_true(grids, truth, origin),
        hints_true(grids, truth, id, neighbours),
    ensures
        forall|i: int|
            0 <= i < links_upto(grids, neighbours, n).len() ==> link_true(
                origin,
                truth[id],
                #[trigger] links_upto(grids, neighbours, n)[i],
            ),
    decreases n,
{
    if n > 0 {
        lemma_links_true(grids, truth, origin, id, neighbours, n - 1);
        let rest = links_upto(grids, neighbours, n - 1);
        let links = links_upto(grids, neighbours, n);
        let hint = neighbours[n - 1];
        assert forall|i: int| 0 <= i < links.len() implies link_true(
            origin,
            truth[id],
            #[trigger] links[i],
        ) by {
            if i < rest.len() {
                assert(links[i] == rest[i]);
            } else {
                assert(grids.contains_key(hint.id));
                let at = truth[hint.id];
                assert(links[i].position == at.wrapping_sub_spec(origin[links[i].segment_id]));
                assert(links[i].offset == at.wrapping_sub_spec(truth[id]));
            }
        }
    }
}

/// Grids that lie as the world is laid out, where no two grids have one
/// true position, stand at places of their own.
pub proof fn lemma_true_places_apart(
    grids: Map<i64, GridData>,
    truth: Map<i64, Vec2i>,
    origin: Map<i64, Vec2i>,
)
    requires
        lies_true(grids, truth, origin),
        truth_apart(truth),
    ensures
        placement_injective(grids),
{
    assert forall|a: i64, b: i64|
        #![trigger grids[a], grids[b]]
        grids.contains_key(a) && grids.contains_key(b) && a != b implies !(grids[a].segment_id
        == grids[b].segment_id && grids[a].position == grids[b].position) by {
        if grids[a].segment_id == grids[b].segment_id && grids[a].position == grids[b].position {
            crate::vec2::lemma_wrapping_sub_injective(
                truth[a],
                truth[b],
                origin[grids[a].segment_id],
            );
            let _ = truth[a];
            let _ = truth[b];
        }
    }
}

/// After a new grid was added with true hints, of which one at least names
/// a known grid, to grids that lie as the world is laid out, the grids lie
/// so still, the new one among them; so no two of them share a place where
/// no two grids have one true position. The grids are those that were,
/// and the new one.
pub proof fn lemma_add_keeps_places_apart(
    grids: Map<i64, GridData>,
    table: Seq<Grid>,
    grid: GridData,
    neighbours: Seq<GridNeighbour>,
    truth: Map<i64, Vec2i>,
    origin: Map<i64, Vec2i>,
)
    requires
        lies_true(grids, truth, origin),
        truth_apart(truth),
        truth.contains_key(grid.id),
        !grids.contains_key(grid.id),
        hints_true(grids, truth, grid.id, neighbours),
        links_upto(grids, neighbours, neighbours.len() as int).len() > 0,
    ensures
        lies_true(grids_with(grids, table, grid, neighbours), truth, origin),
        placement_injective(grids_with(grids, table, grid, neighbours)),
        grids_with(grids, table, grid, neighbours).dom() == grids.dom().insert(grid.id),
{
    let after = grids_with(grids, table, grid, neighbours);
    let links = links_upto(grids, neighbours, neighbours.len() as int);
    lemma_links_true(grids, truth, origin, grid.id, neighbours, neighbours.len() as int);
    lemma_best_link(table, links, links.len() as int);
    let best = links[best_link(table, links, links.len() as int)];
    let base = best.position.wrapping_sub_spec(best.offset);
    let target = best.segment_id;
    let from = truth[grid.id];
    assert(link_true(origin, from, best));
    let at_best = choose|at: Vec2i|
        best.position == #[trigger] at.wrapping_sub_spec(origin[target]) && best.offset
            == at.wrapping_sub_spec(from);
    crate::vec2::lemma_wrapping_base(at_best, origin[target], from);
    assert(base == from.wrapping_sub_spec(origin[target]));
    assert forall|id: i64| #[trigger] after.contains_key(id) implies truth.contains_key(id)
        && origin.contains_key(after[id].segment_id) && after[id].position
        == truth[id].wrapping_sub_spec(origin[after[id].segment_id]) by {
        if id != grid.id {
            assert(grids.contains_key(id));
            let was = grids[id];
            let at = first_link_of(links, was.segment_id, 0);
            lemma_first_link_of(links, was.segment_id, 0);
            if was.segment_id != target && at < links.len() {
                let link = links[at];
                assert(link_true(origin, from, link));
                let seen = choose|seen: Vec2i|
                    link.position == #[trigger] seen.wrapping_sub_spec(origin[link.segment_id])
                        && link.offset == seen.wrapping_sub_spec(from);
                crate::vec2::lemma_wrapping_shift(
                    truth[id],
                    origin[was.segment_id],
                    seen,
                    from,
                    origin[target],
                );
            }
        }
    }
    lemma_true_places_apart(after, truth, origin);
    assert(after.dom() =~= grids.dom().insert(grid.id));
}

/// The cell number `n` along a side of a grid: side 0 is the column
/// `x = 0`, side 1 the column `x = 99`, side 2 the row `y = 0`, side 3 the
/// row `y = 99`.
pub open spec fn edge_cell(side: int, n: int) -> Vec2i {
    if side == 0 {
        Vec2i { x: 0, y: n as i32 }
    } else if side == 1 {
        Vec2i { x: 99, y: n as i32 }
    } else if side == 2 {
        Vec2i { x: n as i32, y: 0 }
    } else {
        Vec2i { x: n as i32, y: 99 }
    }
}

/// The place next to `grid_pos` across the side `side`.
pub open spec fn place_across(grid_pos: Vec2i, side: int) -> Vec2i {
    if side == 0 {
        grid_pos.wrapping_sub_spec(Vec2i { x: 1, y: 0 })
    } else if side == 1 {
        grid_pos.wrapping_add_spec(Vec2i { x: 1, y: 0 })
    } else if side == 2 {
        grid_pos.wrapping_sub_spec(Vec2i { x: 0, y: 1 })
    } else {
        grid_pos.wrapping_add_spec(Vec2i { x: 0, y: 1 })
    }
}

/// The tile position of a cell of the grid at `grid_pos`, each coordinate
/// taken modulo `2^32`.
pub open spec fn wrapping_tile_pos(grid_pos: Vec2i, cell: Vec2i) -> Vec2i {
    Vec2i {
        x: vstd::wrapping::i32_specs::wrapping_add(
            vstd::wrapping::i32_specs::wrapping_mul(grid_pos.x, 100),
            cell.x,
        ),
        y: vstd::wrapping::i32_specs::wrapping_add(
            vstd::wrapping::i32_specs::wrapping_mul(grid_pos.y, 100),
            cell.y,
        ),
    }
}

/// The tile positions of the first `n` cells along a side whose tile is
/// allowed, in order.
pub open spec fn edge_tiles<T: TileSet>(
    tiles: Seq<i32>,
    grid_pos: Vec2i,
    side: int,
    allowed: &T,
    n: int,
) -> Seq<Vec2i>
    decreases n,
{
    if n <= 0 {
        Seq::empty()
    } else {
        let rest = edge_tiles(tiles, grid_pos, side, allowed, n - 1);
        let cell = edge_cell(side, n - 1);
        match tile_of_cell(tiles, tile_index_spec(cell)) {
            Some(tile) => if allowed.has(tile) {
                rest.push(wrapping_tile_pos(grid_pos, cell))
            } else {
                rest
            },
            None => rest,
        }
    }
}

/// The border tiles of one grid: along each of the first `sides` sides
/// across which no grid stands, the cells whose tile is allowed.
pub open spec fn grid_border<T: TileSet>(
    index: Map<i128, CoordEntry>,
    tiles: Seq<i32>,
    segment_id: i64,
    grid_pos: Vec2i,
    allowed: &T,
    sides: int,
) -> Seq<Vec2i>
    decreases sides,
{
    if sides <= 0 {
        Seq::empty()
    } else {
        let rest = grid_border(index, tiles, segment_id, grid_pos, allowed, sides - 1);
        let across = place_across(grid_pos, sides - 1);
        if index.contains_key(place_key(segment_id, across) as i128) {
            rest
        } else {
            rest + edge_tiles(tiles, grid_pos, sides - 1, allowed, 100)
        }
    }
}

/// The border tiles of the grids among the first `n` places that belong
/// to the segment, place by place.
pub open spec fn border_upto<T: TileSet>(
    places: Seq<CoordEntry>,
    index: Map<i128, CoordEntry>,
    grids: Map<i64, GridData>,
    segment_id: i64,
    allowed: &T,
    n: int,
) -> Seq<Vec2i>
    decreases n,
{
    if n <= 0 {
        Seq::empty()
    } else {
        let rest = border_upto(places, index, grids, segment_id, allowed, n - 1);
        if places[n - 1].segment_id == segment_id {
            rest + grid_border(
                index,
                grids[places[n - 1].grid_id].tiles,
                segment_id,
                places[n - 1].position,
                allowed,
                4,
            )
        } else {
            rest
        }
    }
}

fn push_edge_tiles<T: TileSet>(
    tiles: &Vec<i32>,
    grid_pos: Vec2i,
    side: u8,
    allowed: &T,
    result: &mut Vec<Vec2i>,
)
    requires
        side < 4,
    ensures
        final(result)@ == old(result)@ + edge_tiles(tiles@, grid_pos, side as int, allowed, 100),
{
    let mut n: i32 = 0;
    while n < 100
        invariant
            0 <= n <= 100,
            side < 4,
            result@ == old(result)@ + edge_tiles(tiles@, grid_pos, side as int, allowed, n as int),
        decreases 100 - n,
    {
        let cell = if side == 0 {
            Vec2i { x: 0, y: n }
        } else if side == 1 {
            Vec2i { x: 99, y: n }
        } else if side == 2 {
            Vec2i { x: n, y: 0 }
        } else {
            Vec2i { x: n, y: 99 }
        };
        let index: usize = (cell.x + cell.y * 100) as usize;
        if let Some(tile) = tile_in(tiles, index) {
            if allowed.contains(tile) {
                result.push(
                    Vec2i {
                        x: grid_pos.x.wrapping_mul(100).wrapping_add(cell.x),
                        y: grid_pos.y.wrapping_mul(100).wrapping_add(cell.y),
                    },
                );
            }
        }
        proof {
            assert(result@ =~= old(result)@ + edge_tiles(
                tiles@,
                grid_pos,
                side as int,
                allowed,
                n + 1,
            ));
        }
        n += 1;
    }
}

fn push_grid_border<T: TileSet>(
    index: &OrderedMap<CoordEntry>,
    tiles: &Vec<i32>,
    segment_id: i64,
    grid_pos: Vec2i,
    allowed: &T,
    result: &mut Vec<Vec2i>,
)
    requires
        index.wf(),
    ensures
        final(result)@ == old(result)@ + grid_border(
            index@,
            tiles@,
            segment_id,
            grid_pos,
            allowed,
            4,
        ),
{
    let mut side: u8 = 0;
    while side < 4
        invariant
            index.wf(),
            side <= 4,
            result@ == old(result)@ + grid_border(
                index@,
                tiles@,
                segment_id,
                grid_pos,
                allowed,
                side as int,
            ),
        decreases 4 - side,
    {
        let across = if side == 0 {
            grid_pos.wrapping_sub(Vec2i { x: 1, y: 0 })
        } else if side == 1 {
            grid_pos.wrapping_add(Vec2i { x: 1, y: 0 })
        } else if side == 2 {
            grid_pos.wrapping_sub(Vec2i { x: 0, y: 1 })
        } else {
            grid_pos.wrapping_add(Vec2i { x: 0, y: 1 })
        };
        if !index.contains_key(make_place_key(segment_id, across)) {
            push_edge_tiles(tiles, grid_pos, side, allowed, result);
        }
        proof {
            assert(result@ =~= old(result)@ + grid_border(
                index@,
                tiles@,
                segment_id,
                grid_pos,
                allowed,
                side + 1,
            ));
        }
        side += 1;
    }
}

/// The place in the store of the grid that stands at `grid_pos` here,
/// where the grid that stands at `local` here stands at `stored` there:
/// the same distance away from it.
pub fn stored_place(local: Vec2i, stored: Vec2i, grid_pos: Vec2i) -> (result: Vec2i)
    ensures
        result == grid_pos.wrapping_add_spec(stored.wrapping_sub_spec(local)),
{
    grid_pos.wrapping_add(stored.wrapping_sub(local))
}

/// Where the grids of a segment go when segments are merged: into the
/// segment that is kept, every position shifted by `shift`.
#[derive(Debug, Clone, Copy, PartialEq, Eq, Structural)]
pub struct SegmentMove {
    pub segment_id: i64,
    pub shift: Vec2i,
}

/// How a grid is added to a store that keeps its grids elsewhere: the
/// segment that is kept, the position of the new grid in it, and the
/// segments that are merged into it.
#[derive(Debug, Clone, PartialEq, Eq)]
pub struct MergePlan {
    pub segment_id: i64,
    pub position: Vec2i,
    pub moves: Vec<SegmentMove>,
}

/// Whether the segment of the link at `a` is to be kept before that of
/// the link at `b`, by the sizes of their segments.
pub open spec fn better_sized(links: Seq<Link>, sizes: Seq<usize>, a: int, b: int) -> bool {
    sizes[a] > sizes[b] || (sizes[a] == sizes[b] && links[a].segment_id < links[b].segment_id)
}

/// The index of the link, among the first `n`, whose segment is kept.
pub open spec fn best_sized(links: Seq<Link>, sizes: Seq<usize>, n: int) -> int
    decreases n,
{
    if n <= 1 {
        0
    } else {
        let best = best_sized(links, sizes, n - 1);
        if better_sized(links, sizes, n - 1, best) {
            n - 1
        } else {
            best
        }
    }
}

/// The moves for the first `n` links: one for each segment other than the
/// kept one, at the first link that leads to it.
pub open spec fn moves_upto(links: Seq<Link>, target: i64, base: Vec2i, n: int) -> Seq<SegmentMove>
    decreases n,
{
    if n <= 0 {
        Seq::empty()
    } else {
        let rest = moves_upto(links, target, base, n - 1);
        let link = links[n - 1];
        if link.segment_id != target && first_link_of(links, link.segment_id, 0) == n - 1 {
            rest.push(
                SegmentMove {
                    segment_id: link.segment_id,
                    shift: base.wrapping_add_spec(link.offset).wrapping_sub_spec(link.position),
                },
            )
        } else {
            rest
        }
    }
}

/// Plans the adding of a grid by the links to its known neighbours;
/// `sizes` holds, for each link, the number of grids in its segment.
/// Without a link there is nothing to plan.
pub fn plan_merge(links: &Vec<Link>, sizes: &Vec<usize>) -> (result: Option<MergePlan>)
    requires
        sizes.len() == links.len(),
    ensures
        result.is_none() == (links.len() == 0),
        result.is_some() ==> {
            let best = links[best_sized(links@, sizes@, links.len() as int)];
            let plan = result.unwrap();
            &&& plan.segment_id == best.segment_id
            &&& plan.position == best.position.wrapping_sub_spec(best.offset)
            &&& plan.moves@ == moves_upto(
                links@,
                plan.segment_id,
                plan.position,
                links.len() as int,
            )
        },
{
    if links.len() == 0 {
        return None;
    }
    let mut best: usize = 0;
    let mut i: usize = 1;
    while i < links.len()
        invariant
            1 <= i <= links.len(),
            sizes.len() == links.len(),
            best < i,
            best == best_sized(links@, sizes@, i as int),
        decreases links.len() - i,
    {
        if sizes[i] > sizes[best] || (sizes[i] == sizes[best] && links[i].segment_id
            < links[best].segment_id) {
            best = i;
        }
        i += 1;
    }
    let target = links[best].segment_id;
    let base = links[best].position.wrapping_sub(links[best].offset);
    let mut moves: Vec<SegmentMove> = Vec::new();
    let mut k: usize = 0;
    while k < links.len()
        invariant
            k <= links.len(),
            moves@ == moves_upto(links@, target, base, k as int),
        decreases links.len() - k,
    {
        let link = links[k];
        if link.segment_id != target && find_link(links, link.segment_id) == k {
            moves.push(
                SegmentMove {
                    segment_id: link.segment_id,
                    shift: base.wrapping_add(link.offset).wrapping_sub(link.position),
                },
            );
        }
        k += 1;
    }
    Some(MergePlan { segment_id: target, position: base, moves })
}

/// The map of one session.
///
/// `tiles` holds the tiles by id and `tiles_by_name` what each name resolves
/// to; `grids` holds the grids by id and `grids_by_coord` the grid at each
/// place of each segment; `db` is the store behind the session.
pub struct WorldMap<D: MapDb> {
    pub tiles: OrderedMap<Tile>,
    pub tiles_by_name: Vec<NameEntry>,
    pub grids: OrderedMap<Grid>,
    pub grids_by_coord: OrderedMap<CoordEntry>,
    pub db: D,
}

impl<D: MapDb> WorldMap<D> {
    /// The tiles by id.
    pub open spec fn tiles_view(&self) -> Map<i32, TileData> {
        Map::new(
            |id: i32| self.tiles@.contains_key(id as i128),
            |id: i32| self.tiles@[id as i128]@,
        )
    }

    /// What each tile name resolves to.
    pub open spec fn name_index(&self) -> Map<Seq<char>, NameData> {
        name_index_of(self.tiles_by_name@)
    }

    /// The grids by id.
    pub open spec fn grids_view(&self) -> Map<i64, GridData> {
        Map::new(
            |id: i64| self.grids@.contains_key(id as i128),
            |id: i64| self.grids@[id as i128]@,
        )
    }

    /// The id of the grid that holds a place, if one does.
    pub open spec fn grid_id_at(&self, segment_id: i64, position: Vec2i) -> Option<i64> {
        if self.grids_by_coord@.contains_key(place_key(segment_id, position) as i128) {
            Some(self.grids_by_coord@[place_key(segment_id, position) as i128].grid_id)
        } else {
            None
        }
    }

    /// The grid that holds a place, if one does.
    pub open spec fn grid_at(&self, segment_id: i64, position: Vec2i) -> Option<GridData> {
        match self.grid_id_at(segment_id, position) {
            Some(id) => Some(self.grids_view()[id]),
            None => None,
        }
    }

    /// Whether tiles and grids are keyed by their ids.
    pub open spec fn keyed_by_id(&self) -> bool {
        &&& self.tiles.wf()
        &&& self.grids.wf()
        &&& forall|k: i128| #[trigger]
            self.tiles@.contains_key(k) ==> self.tiles@[k].id as i128 == k
        &&& forall|k: i128| #[trigger]
            self.grids@.contains_key(k) ==> self.grids@[k].id as i128 == k
    }

    /// Whether tiles and grids are keyed by their ids and every place where
    /// a grid stands leads to the grid of greatest id that stands there.
    pub open spec fn wf(&self) -> bool {
        &&& self.keyed_by_id()
        &&& self.grids_by_coord.wf()
        &&& index_wf(self.grids_view(), self.grids_by_coord@)
    }

    /// Whether no two grids stand at one place.
    pub open spec fn coherent(&self) -> bool {
        placement_injective(self.grids_view())
    }

    /// In a coherent map every grid is the grid at its place, and a place
    /// leads to no other grid.
    pub proof fn lemma_coherent_index(&self, id: i64)
        requires
            self.wf(),
            self.coherent(),
            self.grids_view().contains_key(id),
        ensures
            self.grid_id_at(self.grids_view()[id].segment_id, self.grids_view()[id].position)
                == Some(id),
    {
        let g = self.grids_view()[id];
        let k = place_key(g.segment_id, g.position) as i128;
        assert(self.grids_by_coord@.contains_key(k));
        assert(entry_ok(self.grids_view(), self.grids_by_coord@, k));
        let entry = self.grids_by_coord@[k];
        assert(stands_at(self.grids_view(), id, g.segment_id, g.position));
        lemma_place_key_injective(entry.segment_id, entry.position, g.segment_id, g.position);
    }

    /// Storing the grids of the map anew, in the order of their ids, gives
    /// the grids of the map.
    pub proof fn lemma_grids_stored_anew(&self)
        requires
            self.wf(),
        ensures
            grids_from(grid_views(self.grids.values@), self.grids.values.len() as int)
                == self.grids_view(),
    {
        let n = self.grids.keys.len() as int;
        lemma_grids_from_table(&self.grids, n);
        let anew = grids_from(grid_views(self.grids.values@), n);
        assert forall|id: i64| anew.contains_key(id) == self.grids_view().contains_key(id) by {
            if self.grids@.contains_key(id as i128) {
                self.grids.lemma_key_index(id as i128);
                let i = self.grids.keys@.index_of(id as i128);
                assert(self.grids.keys[i] == id as i128);
            }
            if anew.contains_key(id) {
                let i = choose|i: int| 0 <= i < n && #[trigger] self.grids.keys[i] == id as i128;
                self.grids.lemma_entry(i);
            }
        }
        assert forall|id: i64| anew.contains_key(id) implies anew[id] == self.grids_view()[id] by {
            let i = choose|i: int| 0 <= i < n && #[trigger] self.grids.keys[i] == id as i128;
            self.grids.lemma_entry(i);
            assert(self.grids.values[i].id == id);
        }
        assert(anew =~= self.grids_view());
    }

    fn find_name_entry(&self, name: &String) -> (result: usize)
        ensures
            result == find_name(self.tiles_by_name@, name@, 0),
            result <= self.tiles_by_name.len(),
            result < self.tiles_by_name.len() ==> self.tiles_by_name[result as int].name@ == name@,
    {
        let mut i: usize = 0;
        proof {
            lemma_find_name(self.tiles_by_name@, name@, 0);
        }
        while i < self.tiles_by_name.len()
            invariant
                i <= self.tiles_by_name.len(),
                find_name(self.tiles_by_name@, name@, i as int) == find_name(
                    self.tiles_by_name@,
                    name@,
                    0,
                ),
            decreases self.tiles_by_name.len() - i,
        {
            if self.tiles_by_name[i].name == *name {
                return i;
            }
            i += 1;
        }
        i
    }

    /// Takes `tile` in unless its name is known in a version at least as
    /// new; the store behind the session is told of it either way.
    pub fn set_tile(&mut self, tile: Tile)
        requires
            old(self).wf(),
        ensures
            final(self).wf(),
            final(self).name_index() == name_index_with(old(self).name_index(), tile@),
            final(self).tiles_view() == if supersedes(old(self).name_index(), tile@) {
                old(self).tiles_view().insert(tile.id, tile@)
            } else {
                old(self).tiles_view()
            },
            final(self).grids == old(self).grids,
            final(self).grids_by_coord == old(self).grids_by_coord,
    {
        self.db.set_tile(&tile);
        proof {
            assert(self.grids_view() =~= old(self).grids_view());
        }
        self.take_tile(tile);
    }

    fn take_tile(&mut self, tile: Tile)
        requires
            old(self).wf(),
        ensures
            final(self).wf(),
            final(self).name_index() == name_index_with(old(self).name_index(), tile@),
            final(self).tiles_view() == if supersedes(old(self).name_index(), tile@) {
                old(self).tiles_view().insert(tile.id, tile@)
            } else {
                old(self).tiles_view()
            },
            final(self).grids == old(self).grids,
            final(self).grids_by_coord == old(self).grids_by_coord,
            final(self).db == old(self).db,
    {
        let at = self.find_name_entry(&tile.name);
        let ghost old_names = self.tiles_by_name@;
        proof {
            lemma_find_name(old_names, tile.name@, 0);
        }
        if at < self.tiles_by_name.len() {
            if self.tiles_by_name[at].version >= tile.version {
                proof {
                    assert(self.grids_view() =~= old(self).grids_view());
                    assert(self.tiles_view() =~= old(self).tiles_view());
                }
                return ;
            }
            self.tiles_by_name[at].id = tile.id;
            self.tiles_by_name[at].version = tile.version;
        } else {
            self.tiles_by_name.push(
                NameEntry { name: tile.name.clone(), id: tile.id, version: tile.version },
            );
        }
        proof {
            let new_names = self.tiles_by_name@;
            let target = old(self).name_index().insert(
                tile.name@,
                NameData { id: tile.id, version: tile.version },
            );
            assert forall|name: Seq<char>|
                self.name_index().dom().contains(name) == #[trigger] target.dom().contains(name)
                    && (target.dom().contains(name) ==> self.name_index()[name] == target[name]) by {
                lemma_find_name(old_names, name, 0);
                lemma_find_name(new_names, name, 0);
                let o = find_name(old_names, name, 0);
                let n = find_name(new_names, name, 0);
                if name == tile.name@ {
                    assert(new_names[at as int].name@ == name);
                    assert forall|i: int| 0 <= i < at implies (#[trigger] new_names[i]).name@
                        != name by {
                        assert(old_names[i].name@ != name);
                    }
                    lemma_find_name_first(new_names, name, 0, at as int);
                } else if o < old_names.len() {
                    assert(new_names[o].name@ == name);
                    assert forall|i: int| 0 <= i < o implies (#[trigger] new_names[i]).name@
                        != name by {
                        assert(old_names[i].name@ != name);
                    }
                    lemma_find_name_first(new_names, name, 0, o);
                } else {
                    if n < new_names.len() {
                        if n < old_names.len() {
                            assert(old_names[n].name@ != name);
                        }
                    }
                }
            }
            assert(self.name_index().dom() =~= target.dom());
            assert(forall|name: Seq<char>| #[trigger] target.dom().contains(name)
                ==> self.name_index()[name] == target[name]);
            assert(self.name_index() =~= target);
        }
        let ghost id = tile.id;
        let ghost data = tile@;
        let ghost old_tiles = self.tiles;
        self.tiles.insert(tile.id as i128, tile);
        proof {
            assert(self.tiles_view() =~= old(self).tiles_view().insert(id, data));
            assert(self.grids_view() =~= old(self).grids_view());
        }
    }

    /// The id that the tile name `name` resolves to: by the tiles that were
    /// set here, else by the store behind the session.
    pub fn get_tile_id_by_name(&self, name: &String) -> (result: Option<i32>)
        ensures
            self.name_index().contains_key(name@) ==> result == Some(self.name_index()[name@].id),
    {
        let at = self.find_name_entry(name);
        if at < self.tiles_by_name.len() {
            Some(self.tiles_by_name[at].id)
        } else {
            self.db.get_tile_id_by_name(name)
        }
    }

    /// The tile with the id `id`.
    pub fn get_tile_by_id(&self, id: i32) -> (result: Option<&Tile>)
        requires
            self.wf(),
        ensures
            result.is_some() == self.tiles_view().contains_key(id),
            result.is_some() ==> result.unwrap()@ == self.tiles_view()[id],
    {
        self.tiles.get(id as i128)
    }

    /// The tile at `tile_pos` of the segment `segment_id` by the grid that
    /// holds the place here, if one does.
    pub open spec fn local_tile_at(&self, segment_id: i64, tile_pos: Vec2i) -> Option<i32> {
        match self.grid_at(segment_id, tile_pos_to_grid_pos_spec(tile_pos)) {
            Some(grid) => tile_of_cell(grid.tiles, cell_of(tile_pos)),
            None => None,
        }
    }

    /// Whether a grid here holds the place of `tile_pos` in the segment.
    pub open spec fn holds_tile(&self, segment_id: i64, tile_pos: Vec2i) -> bool {
        self.grid_at(segment_id, tile_pos_to_grid_pos_spec(tile_pos)).is_some()
    }

    /// The grid with the id `id`.
    pub fn get_grid_by_id(&self, id: i64) -> (result: Option<&Grid>)
        requires
            self.wf(),
        ensures
            result.is_some() == self.grids_view().contains_key(id),
            result.is_some() ==> result.unwrap()@ == self.grids_view()[id],
    {
        self.grids.get(id as i128)
    }

    /// The grid at `grid_pos` in the segment `segment_id`.
    pub fn get_grid(&self, segment_id: i64, grid_pos: Vec2i) -> (result: Option<&Grid>)
        requires
            self.wf(),
        ensures
            result.is_some() == self.grid_id_at(segment_id, grid_pos).is_some(),
            result.is_some() ==> {
                &&& result.unwrap()@ == self.grid_at(segment_id, grid_pos).unwrap()
                &&& result.unwrap().segment_id == segment_id
                &&& result.unwrap().position == grid_pos
                &&& result.unwrap().id == self.grid_id_at(segment_id, grid_pos).unwrap()
            },
            result.is_none() ==> forall|id: i64| !stands_at(self.grids_view(), id, segment_id, grid_pos),
    {
        let key = make_place_key(segment_id, grid_pos);
        match self.grids_by_coord.get(key) {
            Some(entry) => {
                proof {
                    assert(entry_ok(self.grids_view(), self.grids_by_coord@, key));
                    lemma_place_key_injective(
                        entry.segment_id,
                        entry.position,
                        segment_id,
                        grid_pos,
                    );
                    assert(self.grids@[entry.grid_id as i128].id as i128 == entry.grid_id as i128);
                }
                self.grids.get(entry.grid_id as i128)
            },
            None => {
                proof {
                    assert forall|id: i64| !stands_at(
                        self.grids_view(),
                        id,
                        segment_id,
                        grid_pos,
                    ) by {
                        if stands_at(self.grids_view(), id, segment_id, grid_pos) {
                            assert(self.grids_view().contains_key(id));
                        }
                    }
                }
                None
            },
        }
    }

    /// The tile at `tile_pos` of the segment `segment_id` by the grid that
    /// holds the place here.
    pub fn get_local_tile(&self, segment_id: i64, tile_pos: Vec2i) -> (result: Option<i32>)
        requires
            self.wf(),
        ensures
            result == self.local_tile_at(segment_id, tile_pos),
    {
        let grid_pos = tile_pos_to_grid_pos(tile_pos);
        let cell = cell_index(tile_pos);
        match self.get_grid(segment_id, grid_pos) {
            Some(grid) => tile_in(&grid.tiles, cell),
            None => None,
        }
    }

    /// The tile at `tile_pos` of the segment `segment_id`: by the grid that
    /// holds the place here; else, where the first grid of the segment is
    /// known both here and to the store behind the session, by the grid
    /// that the store holds at the same distance from that first grid.
    pub fn get_tile(&self, segment_id: i64, tile_pos: Vec2i) -> (result: Option<i32>)
        requires
            self.wf(),
        ensures
            self.holds_tile(segment_id, tile_pos) ==> result == self.local_tile_at(
                segment_id,
                tile_pos,
            ),
            !self.holds_tile(segment_id, tile_pos) && !self.grids_view().contains_key(segment_id)
                ==> result.is_none(),
    {
        let grid_pos = tile_pos_to_grid_pos(tile_pos);
        let cell = cell_index(tile_pos);
        if let Some(grid) = self.get_grid(segment_id, grid_pos) {
            return tile_in(&grid.tiles, cell);
        }
        match self.grids.get(segment_id as i128) {
            Some(local_grid) => {
                match self.db.get_grid_by_id(segment_id) {
                    Some(db_grid) => {
                        let position = stored_place(local_grid.position, db_grid.position, grid_pos);
                        match self.db.get_grid(db_grid.segment_id, position) {
                            Some(grid) => tile_in(&grid.tiles, cell),
                            None => None,
                        }
                    },
                    None => None,
                }
            },
            None => None,
        }
    }

    /// The grids in the order of their ids.
    pub fn iter_grids(&self) -> (result: &Vec<Grid>)
        ensures
            result@ == self.grids.values@,
    {
        &self.grids.values
    }

    /// Sets up the index of places anew from the grids.
    fn rebuild_index(&mut self)
        requires
            old(self).keyed_by_id(),
        ensures
            final(self).wf(),
            final(self).tiles == old(self).tiles,
            final(self).tiles_by_name == old(self).tiles_by_name,
            final(self).grids == old(self).grids,
            final(self).db == old(self).db,
    {
        self.grids_by_coord = OrderedMap::new();
        let mut i: usize = 0;
        while i < self.grids.keys.len()
            invariant
                self.keyed_by_id(),
                self.grids_by_coord.wf(),
                self.tiles == old(self).tiles,
                self.tiles_by_name == old(self).tiles_by_name,
                self.grids == old(self).grids,
                self.db == old(self).db,
                i <= self.grids.keys.len(),
                forall|k: i128| #[trigger]
                    self.grids_by_coord@.contains_key(k) ==> {
                        let entry = self.grids_by_coord@[k];
                        &&& k == place_key(entry.segment_id, entry.position)
                        &&& exists|j: int|
                            0 <= j < i && (#[trigger] self.grids.values[j]).id == entry.grid_id
                                && self.grids.values[j].segment_id == entry.segment_id
                                && self.grids.values[j].position == entry.position
                        &&& forall|j: int|
                            0 <= j < i && (#[trigger] self.grids.values[j]).segment_id
                                == entry.segment_id && self.grids.values[j].position
                                == entry.position ==> self.grids.values[j].id <= entry.grid_id
                    },
                forall|j: int|
                    0 <= j < i ==> self.grids_by_coord@.contains_key(
                        place_key(
                            (#[trigger] self.grids.values[j]).segment_id,
                            self.grids.values[j].position,
                        ) as i128,
                    ),
            decreases self.grids.keys.len() - i,
        {
            let grid = &self.grids.values[i];
            let entry = CoordEntry {
                segment_id: grid.segment_id,
                position: grid.position,
                grid_id: grid.id,
            };
            let key = make_place_key(grid.segment_id, grid.position);
            let ghost before = self.grids_by_coord@;
            self.grids_by_coord.insert(key, entry);
            proof {
                assert forall|k: i128| #[trigger] self.grids_by_coord@.contains_key(k) implies {
                    let e = self.grids_by_coord@[k];
                    &&& k == place_key(e.segment_id, e.position)
                    &&& exists|j: int|
                        0 <= j < i + 1 && (#[trigger] self.grids.values[j]).id == e.grid_id
                            && self.grids.values[j].segment_id == e.segment_id
                            && self.grids.values[j].position == e.position
                    &&& forall|j: int|
                        0 <= j < i + 1 && (#[trigger] self.grids.values[j]).segment_id
                            == e.segment_id && self.grids.values[j].position == e.position
                            ==> self.grids.values[j].id <= e.grid_id
                } by {
                    let e = self.grids_by_coord@[k];
                    if k == key {
                        assert(self.grids.values[i as int].id == e.grid_id);
                        assert forall|j: int|
                            0 <= j < i + 1 && (#[trigger] self.grids.values[j]).segment_id
                                == e.segment_id && self.grids.values[j].position
                                == e.position implies self.grids.values[j].id <= e.grid_id by {
                            self.grids.lemma_entry(j);
                            self.grids.lemma_entry(i as int);
                            if j < i {
                                assert(self.grids.keys[j] < self.grids.keys[i as int]);
                            }
                        }
                    } else {
                        assert(before.contains_key(k));
                        let w = choose|j: int|
                            0 <= j < i && (#[trigger] self.grids.values[j]).id == e.grid_id
                                && self.grids.values[j].segment_id == e.segment_id
                                && self.grids.values[j].position == e.position;
                        assert(self.grids.values[w].id == e.grid_id);
                        assert forall|j: int|
                            0 <= j < i + 1 && (#[trigger] self.grids.values[j]).segment_id
                                == e.segment_id && self.grids.values[j].position
                                == e.position implies self.grids.values[j].id <= e.grid_id by {
                            if j == i {
                                lemma_place_key_injective(
                                    e.segment_id,
                                    e.position,
                                    grid.segment_id,
                                    grid.position,
                                );
                            }
                        }
                    }
                }
            }
            i += 1;
        }
        proof {
            let grids = self.grids_view();
            let index = self.grids_by_coord@;
            assert forall|k: i128| #[trigger] index.contains_key(k) implies entry_ok(
                grids,
                index,
                k,
            ) by {
                let e = index[k];
                let w = choose|j: int|
                    0 <= j < i && (#[trigger] self.grids.values[j]).id == e.grid_id
                        && self.grids.values[j].segment_id == e.segment_id
                        && self.grids.values[j].position == e.position;
                self.grids.lemma_entry(w);
                assert(self.grids@.contains_key(self.grids.keys[w]));
                assert(self.grids.keys[w] == e.grid_id as i128);
                assert(stands_at(grids, e.grid_id, e.segment_id, e.position));
                assert forall|id: i64| #[trigger]
                    stands_at(grids, id, e.segment_id, e.position) implies id <= e.grid_id by {
                    self.grids.lemma_key_index(id as i128);
                    let j = self.grids.keys@.index_of(id as i128);
                    assert(self.grids.values[j].id == id);
                }
            }
            assert forall|id: i64| #[trigger] grids.contains_key(id) implies index.contains_key(
                place_key(grids[id].segment_id, grids[id].position) as i128,
            ) by {
                self.grids.lemma_key_index(id as i128);
                let j = self.grids.keys@.index_of(id as i128);
                assert(self.grids.values[j].segment_id == grids[id].segment_id);
            }
        }
    }

    /// The grids after `grid` was added with the hints `neighbours`.
    pub open spec fn add_grid_spec(&self, grid: GridData, neighbours: Seq<GridNeighbour>) -> Map<
        i64,
        GridData,
    > {
        grids_with(self.grids_view(), self.grids.values@, grid, neighbours)
    }

    fn resolve_links(&self, neighbours: &Vec<GridNeighbour>) -> (result: Vec<Link>)
        requires
            self.wf(),
        ensures
            result@ == links_upto(self.grids_view(), neighbours@, neighbours.len() as int),
    {
        let mut links: Vec<Link> = Vec::new();
        let mut i: usize = 0;
        while i < neighbours.len()
            invariant
                self.wf(),
                i <= neighbours.len(),
                links@ == links_upto(self.grids_view(), neighbours@, i as int),
            decreases neighbours.len() - i,
        {
            let hint = neighbours[i];
            if let Some(grid) = self.get_grid_by_id(hint.id) {
                links.push(
                    Link {
                        segment_id: grid.segment_id,
                        offset: hint.offset,
                        position: grid.position,
                    },
                );
            }
            i += 1;
        }
        links
    }

    /// How many grids belong to the segment `segment_id`.
    pub fn count_segment(&self, segment_id: i64) -> (result: usize)
        ensures
            result == segment_size(self.grids.values@, segment_id, self.grids.values.len() as int),
    {
        let mut count: usize = 0;
        let mut i: usize = 0;
        while i < self.grids.values.len()
            invariant
                i <= self.grids.values.len(),
                count <= i,
                count == segment_size(self.grids.values@, segment_id, i as int),
            decreases self.grids.values.len() - i,
        {
            if self.grids.values[i].segment_id == segment_id {
                count += 1;
            }
            i += 1;
        }
        count
    }

    fn choose_target(&self, links: &Vec<Link>) -> (result: usize)
        requires
            links.len() > 0,
        ensures
            result == best_link(self.grids.values@, links@, links.len() as int),
            result < links.len(),
    {
        let mut best: usize = 0;
        let mut best_size: usize = self.count_segment(links[0].segment_id);
        let mut i: usize = 1;
        while i < links.len()
            invariant
                1 <= i <= links.len(),
                best < i,
                best == best_link(self.grids.values@, links@, i as int),
                best_size == segment_size(
                    self.grids.values@,
                    links[best as int].segment_id,
                    self.grids.values.len() as int,
                ),
            decreases links.len() - i,
        {
            let size = self.count_segment(links[i].segment_id);
            if size > best_size || (size == best_size && links[i].segment_id
                < links[best].segment_id) {
                best = i;
                best_size = size;
            }
            i += 1;
        }
        best
    }

    /// Adds `grid` and joins the segments that `neighbours` link to it.
    ///
    /// Without a known neighbour the grid keeps its own segment and
    /// position. Else the greatest linked segment is kept, the grid is
    /// placed in it by the link, and the other linked segments are merged
    /// into it, each grid of them shifted and counted one revision more.
    pub fn add_grid(&mut self, grid: Grid, neighbours: Vec<GridNeighbour>)
        requires
            old(self).wf(),
        ensures
            final(self).wf(),
            final(self).grids_view() == old(self).add_grid_spec(grid@, neighbours@),
            final(self).tiles == old(self).tiles,
            final(self).tiles_by_name == old(self).tiles_by_name,
            forall|k: int|
                0 <= k < neighbours.len() && old(self).grids_view().contains_key(
                    (#[trigger] neighbours[k]).id,
                ) ==> final(self).grids_view()[neighbours[k].id].segment_id
                    == final(self).grids_view()[grid.id].segment_id,
    {
        let mut grid = grid;
        let ghost added = grid@;
        self.db.add_grid(grid.id, &grid.heights, &grid.tiles, &neighbours);
        let links = self.resolve_links(&neighbours);
        let ghost old_grids = self.grids_view();
        let ghost old_table = self.grids.values@;
        proof {
            assert(old_grids =~= old(self).grids_view());
        }
        if links.len() > 0 {
            let best = links[self.choose_target(&links)];
            let target = best.segment_id;
            let base = best.position.wrapping_sub(best.offset);
            grid.segment_id = target;
            grid.position = base;
            let mut i: usize = 0;
            while i < self.grids.values.len()
                invariant
                    self.keyed_by_id(),
                    self.grids.keys@ == old(self).grids.keys@,
                    self.grids.values.len() == old_table.len(),
                    old_table == old(self).grids.values@,
                    old(self).grids.wf(),
                    self.tiles == old(self).tiles,
                    self.tiles_by_name == old(self).tiles_by_name,
                    i <= self.grids.values.len(),
                    forall|j: int|
                        0 <= j < i ==> (#[trigger] self.grids.values[j])@ == moved(
                            old_table[j]@,
                            links@,
                            target,
                            base,
                        ),
                    forall|j: int|
                        i <= j < old_table.len() ==> #[trigger] self.grids.values[j] == old_table[j],
                decreases self.grids.values.len() - i,
            {
                let segment_id = self.grids.values[i].segment_id;
                if segment_id != target {
                    let at = find_link(&links, segment_id);
                    if at < links.len() {
                        let link = links[at];
                        let shift = base.wrapping_add(link.offset).wrapping_sub(link.position);
                        let position = self.grids.values[i].position.wrapping_add(shift);
                        let revision = self.grids.values[i].revision;
                        let ghost key = self.grids.keys[i as int];
                        proof {
                            self.grids.lemma_entry(i as int);
                        }
                        self.grids.values[i].segment_id = target;
                        self.grids.values[i].position = position;
                        self.grids.values[i].revision = if revision < i64::MAX {
                            revision + 1
                        } else {
                            revision
                        };
                        proof {
                            assert forall|k: i128| #[trigger]
                                self.grids@.contains_key(k) implies self.grids@[k].id as i128
                                == k by {
                                self.grids.lemma_key_index(k);
                                let j = self.grids.keys@.index_of(k);
                                old(self).grids.lemma_entry(j);
                            }
                        }
                    }
                }
                i += 1;
            }
        }
        let ghost moved_grids = self.grids_view();
        let ghost id = grid.id;
        let ghost placed = grid@;
        self.grids.insert(grid.id as i128, grid);
        proof {
            assert(self.grids_view() =~= moved_grids.insert(id, placed));
            if links.len() > 0 {
                let best = links[best_link(old_table, links@, links.len() as int)];
                let base = best.position.wrapping_sub_spec(best.offset);
                assert forall|g: i64| moved_grids.contains_key(g) implies #[trigger] moved_grids[g]
                    == moved(old_grids[g], links@, best.segment_id, base) by {
                    old(self).grids.lemma_key_index(g as i128);
                    let j = old(self).grids.keys@.index_of(g as i128);
                    self.grids.lemma_entry(j);
                    old(self).grids.lemma_entry(j);
                }
                assert(moved_grids.dom() =~= old_grids.dom()) by {
                    assert forall|g: i64| moved_grids.contains_key(g) == old_grids.contains_key(
                        g,
                    ) by {
                    }
                }
            } else {
                assert(moved_grids =~= old_grids);
            }
            assert(self.grids_view() =~= old(self).add_grid_spec(added, neighbours@));
            assert forall|k: int|
                0 <= k < neighbours.len() && old(self).grids_view().contains_key(
                    (#[trigger] neighbours[k]).id,
                ) implies self.grids_view()[neighbours[k].id].segment_id
                == self.grids_view()[id].segment_id by {
                lemma_added_grid_joins_neighbours(
                    old_grids,
                    old_table,
                    added,
                    neighbours@,
                    k,
                );
            }
        }
        self.rebuild_index();
    }

    /// Puts `grid` in place of the grid with its id. Where its position
    /// differs from the one stored, every other grid of its segment is
    /// shifted by the difference.
    pub fn update_grid(&mut self, grid: Grid)
        requires
            old(self).wf(),
        ensures
            final(self).wf(),
            final(self).grids_view() == grids_updated(old(self).grids_view(), grid@),
            final(self).tiles == old(self).tiles,
            final(self).tiles_by_name == old(self).tiles_by_name,
            old(self).coherent() && old(self).grids_view().contains_key(grid.id) && old(
                self,
            ).grids_view()[grid.id].segment_id == grid.segment_id ==> final(self).coherent(),
    {
        let ghost old_grids = self.grids_view();
        let ghost old_table = self.grids.values@;
        let ghost updated = grid@;
        let stored = match self.grids.get(grid.id as i128) {
            Some(existing) => Some(existing.position),
            None => None,
        };
        if let Some(position) = stored {
            let shift = grid.position.wrapping_sub(position);
            let mut i: usize = 0;
            while i < self.grids.values.len()
                invariant
                    self.keyed_by_id(),
                    self.grids.keys@ == old(self).grids.keys@,
                    self.grids.values.len() == old_table.len(),
                    old_table == old(self).grids.values@,
                    old(self).grids.wf(),
                    self.tiles == old(self).tiles,
                    self.tiles_by_name == old(self).tiles_by_name,
                    i <= self.grids.values.len(),
                    forall|j: int|
                        0 <= j < i ==> (#[trigger] self.grids.values[j])@ == (if old_table[j].segment_id
                            == grid.segment_id {
                            GridData {
                                position: old_table[j].position.wrapping_add_spec(shift),
                                ..old_table[j]@
                            }
                        } else {
                            old_table[j]@
                        }),
                    forall|j: int|
                        i <= j < old_table.len() ==> #[trigger] self.grids.values[j] == old_table[j],
                decreases self.grids.values.len() - i,
            {
                if self.grids.values[i].segment_id == grid.segment_id {
                    let moved_to = self.grids.values[i].position.wrapping_add(shift);
                    proof {
                        self.grids.lemma_entry(i as int);
                    }
                    self.grids.values[i].position = moved_to;
                    proof {
                        assert forall|k: i128| #[trigger]
                            self.grids@.contains_key(k) implies self.grids@[k].id as i128 == k by {
                            self.grids.lemma_key_index(k);
                            let j = self.grids.keys@.index_of(k);
                            old(self).grids.lemma_entry(j);
                        }
                    }
                }
                i += 1;
            }
        }
        self.db.update_grid(grid.id, &grid.heights, &grid.tiles);
        let ghost shifted = self.grids_view();
        let ghost id = grid.id;
        self.grids.insert(grid.id as i128, grid);
        proof {
            assert(self.grids_view() =~= shifted.insert(id, updated));
            if old_grids.contains_key(id) {
                assert forall|g: i64| shifted.contains_key(g) == old_grids.contains_key(g) by {
                }
                assert forall|g: i64| shifted.contains_key(g) && g != id implies #[trigger] shifted[g]
                    == grids_updated(old_grids, updated)[g] by {
                    old(self).grids.lemma_key_index(g as i128);
                    let j = old(self).grids.keys@.index_of(g as i128);
                    self.grids.lemma_entry(j);
                    old(self).grids.lemma_entry(j);
                }
            } else {
                assert(shifted =~= old_grids);
            }
            assert(self.grids_view() =~= grids_updated(old_grids, updated));
            if old(self).coherent() && old_grids.contains_key(id) && old_grids[id].segment_id
                == updated.segment_id {
                lemma_update_keeps_places_apart(old_grids, updated);
            }
        }
        self.rebuild_index();
    }

    /// The tile positions on the open border of the segment `segment_id`:
    /// for each of its grids, in the order of their places, and each side
    /// across which no grid stands, the cells whose tile is allowed.
    pub open spec fn border_tiles<T: TileSet>(&self, segment_id: i64, allowed: &T) -> Seq<Vec2i> {
        border_upto(
            self.grids_by_coord.values@,
            self.grids_by_coord@,
            self.grids_view(),
            segment_id,
            allowed,
            self.grids_by_coord.values.len() as int,
        )
    }

    /// The allowed tiles on the open border of the segment `segment_id`.
    pub fn find_border_tiles<T: TileSet>(&self, segment_id: i64, allowed_tiles: &T) -> (result: Vec<
        Vec2i,
    >)
        requires
            self.wf(),
        ensures
            result@ == self.border_tiles(segment_id, allowed_tiles),
    {
        let mut result: Vec<Vec2i> = Vec::new();
        let mut i: usize = 0;
        while i < self.grids_by_coord.values.len()
            invariant
                self.wf(),
                i <= self.grids_by_coord.values.len(),
                result@ == border_upto(
                    self.grids_by_coord.values@,
                    self.grids_by_coord@,
                    self.grids_view(),
                    segment_id,
                    allowed_tiles,
                    i as int,
                ),
            decreases self.grids_by_coord.values.len() - i,
        {
            let entry = self.grids_by_coord.values[i];
            if entry.segment_id == segment_id {
                proof {
                    self.grids_by_coord.lemma_entry(i as int);
                    assert(entry_ok(
                        self.grids_view(),
                        self.grids_by_coord@,
                        self.grids_by_coord.keys[i as int],
                    ));
                }
                if let Some(grid) = self.grids.get(entry.grid_id as i128) {
                    let ghost before = result@;
                    push_grid_border(
                        &self.grids_by_coord,
                        &grid.tiles,
                        segment_id,
                        entry.position,
                        allowed_tiles,
                        &mut result,
                    );
                }
            }
            i += 1;
        }
        result
    }

    /// A map without grids that knows the tiles of `tiles`, set one after
    /// the other.
    pub fn with_tiles(tiles: Vec<Tile>, db: D) -> (result: Self)
        ensures
            result.wf(),
            result.name_index() == name_index_after(tile_views(tiles@)),
            result.tiles_view() == tiles_after(tile_views(tiles@)),
            result.grids_view() == Map::<i64, GridData>::empty(),
    {
        let mut map = WorldMap {
            tiles: OrderedMap::new(),
            tiles_by_name: Vec::new(),
            grids: OrderedMap::new(),
            grids_by_coord: OrderedMap::new(),
            db,
        };
        proof {
            assert(map.name_index() =~= name_index_after(tile_views(tiles@).take(0)));
            assert(map.tiles_view() =~= tiles_after(tile_views(tiles@).take(0)));
            assert(map.grids_view() =~= Map::<i64, GridData>::empty());
        }
        let mut i: usize = 0;
        while i < tiles.len()
            invariant
                i <= tiles.len(),
                map.wf(),
                map.name_index() == name_index_after(tile_views(tiles@).take(i as int)),
                map.tiles_view() == tiles_after(tile_views(tiles@).take(i as int)),
                map.grids_view() == Map::<i64, GridData>::empty(),
            decreases tiles.len() - i,
        {
            proof {
                let next = tile_views(tiles@).take(i + 1);
                assert(next.drop_last() =~= tile_views(tiles@).take(i as int));
                assert(next.last() == tiles[i as int]@);
            }
            map.take_tile(tiles[i].duplicate());
            proof {
                assert(map.grids_view() =~= Map::<i64, GridData>::empty());
            }
            i += 1;
        }
        proof {
            assert(tile_views(tiles@).take(tiles.len() as int) =~= tile_views(tiles@));
        }
        map
    }

    /// A map without grids that knows the tiles of the store `db`.
    pub fn new(db: D) -> (result: Self)
        ensures
            result.wf(),
            result.grids_view() == Map::<i64, GridData>::empty(),
    {
        let tiles = db.get_tiles();
        Self::with_tiles(tiles, db)
    }

    /// The map of a snapshot: its tiles set one after the other, its grids
    /// stored one after the other.
    pub fn from_map_data(map_data: MapData, db: D) -> (result: Self)
        ensures
            result.wf(),
            result.name_index() == name_index_after(tile_views(map_data.tiles@)),
            result.tiles_view() == tiles_after(tile_views(map_data.tiles@)),
            result.grids_view() == grids_from(
                grid_views(map_data.grids@),
                map_data.grids.len() as int,
            ),
    {
        let mut map = Self::with_tiles(map_data.tiles, db);
        let mut i: usize = 0;
        proof {
            assert(map.grids_view() =~= grids_from(grid_views(map_data.grids@), 0));
        }
        while i < map_data.grids.len()
            invariant
                i <= map_data.grids.len(),
                map.keyed_by_id(),
                map.name_index() == name_index_after(tile_views(map_data.tiles@)),
                map.tiles_view() == tiles_after(tile_views(map_data.tiles@)),
                map.grids_view() == grids_from(grid_views(map_data.grids@), i as int),
            decreases map_data.grids.len() - i,
        {
            let grid = map_data.grids[i].duplicate();
            let ghost before = map.grids_view();
            let ghost tiles_before = map.tiles_view();
            let ghost id = grid.id;
            let ghost data = grid@;
            map.grids.insert(grid.id as i128, grid);
            proof {
                assert(map.grids_view() =~= before.insert(id, data));
                assert(map.tiles_view() =~= tiles_before);
            }
            i += 1;
        }
        let ghost tiles_before = map.tiles_view();
        let ghost grids_before = map.grids_view();
        map.rebuild_index();
        proof {
            assert(map.tiles_view() =~= tiles_before);
            assert(map.grids_view() =~= grids_before);
        }
        map
    }

    /// The tiles and the grids, each in the order of their ids.
    pub fn as_map_data(&self) -> (result: MapData)
        ensures
            tile_views(result.tiles@) == tile_views(self.tiles.values@),
            grid_views(result.grids@) == grid_views(self.grids.values@),
    {
        let mut tiles: Vec<Tile> = Vec::new();
        let mut i: usize = 0;
        while i < self.tiles.values.len()
            invariant
                i <= self.tiles.values.len(),
                tiles.len() == i,
                tile_views(tiles@) == tile_views(self.tiles.values@.take(i as int)),
            decreases self.tiles.values.len() - i,
        {
            let ghost before = tiles@;
            tiles.push(self.tiles.values[i].duplicate());
            proof {
                assert forall|k: int| 0 <= k < i + 1 implies (#[trigger] tiles@[k])@
                    == self.tiles.values@[k]@ by {
                    if k < i {
                        assert(tile_views(before)[k] == tile_views(
                            self.tiles.values@.take(i as int),
                        )[k]);
                    }
                }
                assert(tile_views(tiles@) =~= tile_views(self.tiles.values@.take(i + 1)));
            }
            i += 1;
        }
        let mut grids: Vec<Grid> = Vec::new();
        let mut j: usize = 0;
        while j < self.grids.values.len()
            invariant
                j <= self.grids.values.len(),
                grids.len() == j,
                grid_views(grids@) == grid_views(self.grids.values@.take(j as int)),
            decreases self.grids.values.len() - j,
        {
            let ghost before = grids@;
            grids.push(self.grids.values[j].duplicate());
            proof {
                assert forall|k: int| 0 <= k < j + 1 implies (#[trigger] grids@[k])@
                    == self.grids.values@[k]@ by {
                    if k < j {
                        assert(grid_views(before)[k] == grid_views(
                            self.grids.values@.take(j as int),
                        )[k]);
                    }
                }
                assert(grid_views(grids@) =~= grid_views(self.grids.values@.take(j + 1)));
            }
            j += 1;
        }
        proof {
            assert(self.tiles.values@.take(self.tiles.values.len() as int) =~= self.tiles.values@);
            assert(self.grids.values@.take(self.grids.values.len() as int) =~= self.grids.values@);
        }
        MapData { tiles, grids }
    }
}

} // verus!
