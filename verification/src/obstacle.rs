//! The obstacle map: a grid of cells over the arena, each free or blocked,
//! made from one noise sample per cell and remade only when the parameters
//! of the noise change.

use vstd::prelude::*;
use vstd::arithmetic::div_mod::{
    lemma_fundamental_div_mod, lemma_fundamental_div_mod_converse, lemma_mod_bound,
    lemma_mod_multiples_basic,
};
use crate::geometry::div_floor;
use crate::collision::{collide, collision_face, overlaps, Face, Rect};

verus! {

/// The side of a cell.
pub const TILE_SIZE: i32 = 10_000;

/// The number of cells along the x axis.
pub const COLUMNS: u32 = 90;

/// The number of cells along the y axis.
pub const ROWS: u32 = 60;

/// The number of cells.
pub const CELLS: usize = 5_400;

/// Half the width of the arena, which is centred on the origin.
pub const HALF_WIDTH: i32 = 450_000;

/// Half the height of the arena.
pub const HALF_HEIGHT: i32 = 300_000;

/// What the noise is made with, and the level from which a cell is
/// blocked. The four fractions are in millionths.
#[derive(Clone, Copy, PartialEq, Eq, Structural, Debug)]
pub struct MapParams {
    pub octaves: u32,
    pub frequency: i64,
    pub lacunarity: i64,
    pub persistence: i64,
    pub threshold: i64,
}

/// Why a map could not be remade.
#[derive(Clone, Copy, PartialEq, Eq, Structural, Debug)]
pub enum MapError {
    /// There is not exactly one sample for each cell.
    WrongSampleCount,
}

/// The centre of the cell in column `col` and row `row`. Columns count from
/// the left edge of the arena, rows from its lower edge.
pub open spec fn centre_of(col: int, row: int) -> (int, int) {
    (
        TILE_SIZE * col - HALF_WIDTH + TILE_SIZE / 2,
        TILE_SIZE * row - HALF_HEIGHT + TILE_SIZE / 2,
    )
}

/// The column of the cell with the given index. Cells are numbered column
/// by column, each column from the bottom up.
pub open spec fn column_of(index: int) -> int {
    index / (ROWS as int)
}

/// The row of the cell with the given index.
pub open spec fn row_of(index: int) -> int {
    index % (ROWS as int)
}

/// The index of a cell of the grid.
pub open spec fn index_of(col: int, row: int) -> int {
    col * ROWS + row
}

/// Whether the grid has a cell in this column and row.
pub open spec fn on_grid(col: int, row: int) -> bool {
    0 <= col < COLUMNS && 0 <= row < ROWS
}

/// The box that the cell with the given index fills.
pub open spec fn rect_of(index: int) -> Rect {
    Rect {
        x: centre_of(column_of(index), row_of(index)).0 as i32,
        y: centre_of(column_of(index), row_of(index)).1 as i32,
        width: TILE_SIZE,
        height: TILE_SIZE,
    }
}

/// The cell that holds the point `(x, y)`, if the point is in the arena.
pub open spec fn cell_at(x: int, y: int) -> Option<(int, int)> {
    if -HALF_WIDTH <= x < HALF_WIDTH && -HALF_HEIGHT <= y < HALF_HEIGHT {
        Some(((x + HALF_WIDTH) / (TILE_SIZE as int), (y + HALF_HEIGHT) / (TILE_SIZE as int)))
    } else {
        None
    }
}

/// The cells that the samples give under the parameters: a cell is blocked
/// where its sample reaches the threshold. Noise of no octaves blocks
/// nothing.
pub open spec fn generated(params: MapParams, samples: Seq<i64>) -> Seq<bool> {
    Seq::new(CELLS as nat, |k: int| params.octaves > 0 && samples[k] >= params.threshold)
}

/// The faces on which `body` hits the first `n` cells, in the order of the
/// cells: one for each blocked cell that it hits.
pub open spec fn hits_among(cells: Seq<bool>, body: Rect, n: int) -> Seq<Face>
    decreases n,
{
    if n <= 0 {
        Seq::empty()
    } else {
        let before = hits_among(cells, body, n - 1);
        if cells[n - 1] {
            match collision_face(body, rect_of(n - 1)) {
                Some(face) => before.push(face),
                None => before,
            }
        } else {
            before
        }
    }
}

/// Computes the centre of a cell, if the grid has it.
pub fn world_pos_from_tile_pos(col: u32, row: u32) -> (r: Option<(i32, i32)>)
    ensures
        r is Some <==> on_grid(col as int, row as int),
        r matches Some(c) ==> (c.0 as int, c.1 as int) == centre_of(col as int, row as int),
{
    if col < COLUMNS && row < ROWS {
        Some(
            (
                TILE_SIZE * (col as i32) - HALF_WIDTH + TILE_SIZE / 2,
                TILE_SIZE * (row as i32) - HALF_HEIGHT + TILE_SIZE / 2,
            ),
        )
    } else {
        None
    }
}

/// Finds the cell that holds a point, if the point is in the arena.
pub fn tile_pos_from_world_pos(x: i32, y: i32) -> (r: Option<(u32, u32)>)
    ensures
        r is Some <==> cell_at(x as int, y as int) is Some,
        r matches Some(c) ==> (c.0 as int, c.1 as int) == cell_at(x as int, y as int)->0 && on_grid(
            c.0 as int,
            c.1 as int,
        ),
{
    if -HALF_WIDTH <= x && x < HALF_WIDTH && -HALF_HEIGHT <= y && y < HALF_HEIGHT {
        let col: i32 = (x + HALF_WIDTH) / TILE_SIZE;
        let row: i32 = (y + HALF_HEIGHT) / TILE_SIZE;
        Some((col as u32, row as u32))
    } else {
        None
    }
}

/// Whether a point lies inside the arena, off its edges.
pub open spec fn inside_arena(x: int, y: int) -> bool {
    -HALF_WIDTH < x < HALF_WIDTH && -HALF_HEIGHT < y < HALF_HEIGHT
}

/// Tests whether a point lies inside the arena, off its edges.
pub fn in_arena(x: i32, y: i32) -> (r: bool)
    ensures
        r == inside_arena(x as int, y as int),
{
    -HALF_WIDTH < x && x < HALF_WIDTH && -HALF_HEIGHT < y && y < HALF_HEIGHT
}

/// The middle of the stretch of length `grid` that holds `v`, where the
/// stretches start at the multiples of `grid`; half an odd `grid` is rounded
/// down.
pub open spec fn tile_center_of(v: int, grid: int) -> int {
    (v / grid) * grid + grid / 2
}

/// The stretch that holds `v` starts at a multiple of `grid`, at or before
/// `v` and less than `grid` before it; and the middle of a stretch lies in
/// that stretch, so that taking the middle again changes nothing.
pub proof fn lemma_tile_center(v: int, grid: int)
    requires
        grid > 0,
    ensures
        (tile_center_of(v, grid) - grid / 2) % grid == 0,
        tile_center_of(v, grid) - grid / 2 <= v < tile_center_of(v, grid) - grid / 2 + grid,
        tile_center_of(tile_center_of(v, grid), grid) == tile_center_of(v, grid),
{
    let q = v / grid;
    lemma_fundamental_div_mod(v, grid);
    lemma_mod_bound(v, grid);
    assert(q * grid == grid * q) by (nonlinear_arith);
    lemma_mod_multiples_basic(q, grid);
    lemma_fundamental_div_mod_converse(q * grid + grid / 2, grid, q, grid / 2);
}

/// In the arena, the middle of the stretches of a cell's size is the centre
/// of the cell that holds the point.
pub proof fn lemma_tile_center_is_cell_centre(x: int, y: int)
    requires
        cell_at(x, y) is Some,
    ensures
        cell_at(x, y) matches Some(cell) ==> centre_of(cell.0, cell.1) == (
            tile_center_of(x, TILE_SIZE as int),
            tile_center_of(y, TILE_SIZE as int),
        ),
{
}

/// The centre of the square of side `grid` that holds a point, where the
/// squares start at the multiples of `grid` along both axes. There are no
/// squares of a side that is not positive.
pub fn to_tile_center(x: i32, y: i32, grid: i32) -> (r: Option<(i64, i64)>)
    ensures
        r is Some <==> grid > 0,
        r matches Some(c) ==> c.0 == tile_center_of(x as int, grid as int) && c.1
            == tile_center_of(y as int, grid as int),
{
    if grid <= 0 {
        return None;
    }
    let g: i128 = grid as i128;
    let qx = div_floor(x as i128, g);
    let qy = div_floor(y as i128, g);
    proof {
        lemma_tile_center(x as int, grid as int);
        lemma_tile_center(y as int, grid as int);
        lemma_fundamental_div_mod(x as int, grid as int);
        lemma_fundamental_div_mod(y as int, grid as int);
        assert(qx.0 * g == x as int - qx.1) by (nonlinear_arith)
            requires
                x as int == g * qx.0 + qx.1,
        ;
        assert(qy.0 * g == y as int - qy.1) by (nonlinear_arith)
            requires
                y as int == g * qy.0 + qy.1,
        ;
    }
    let cx: i128 = qx.0 * g + g / 2;
    let cy: i128 = qy.0 * g + g / 2;
    Some((cx as i64, cy as i64))
}

/// The box that a cell fills.
fn cell_rect(index: usize) -> (r: Rect)
    requires
        index < CELLS,
    ensures
        r == rect_of(index as int),
{
    let col: i32 = (index / (ROWS as usize)) as i32;
    let row: i32 = (index % (ROWS as usize)) as i32;
    Rect {
        x: TILE_SIZE * col - HALF_WIDTH + TILE_SIZE / 2,
        y: TILE_SIZE * row - HALF_HEIGHT + TILE_SIZE / 2,
        width: TILE_SIZE,
        height: TILE_SIZE,
    }
}

/// The points at which the noise is to be sampled: the centre of every
/// cell, in the order of the cells' indices.
pub fn sample_points() -> (r: Vec<(i32, i32)>)
    ensures
        r@.len() == CELLS,
        forall|k: int|
            0 <= k < CELLS ==> ((#[trigger] r@[k]).0 as int, r@[k].1 as int) == centre_of(
                column_of(k),
                row_of(k),
            ),
{
    let mut points: Vec<(i32, i32)> = Vec::new();
    let mut k: usize = 0;
    while k < CELLS
        invariant
            k <= CELLS,
            points@.len() == k,
            forall|j: int|
                0 <= j < k ==> ((#[trigger] points@[j]).0 as int, points@[j].1 as int)
                    == centre_of(column_of(j), row_of(j)),
        decreases CELLS - k,
    {
        let rect = cell_rect(k);
        points.push((rect.x, rect.y));
        k += 1;
    }
    points
}

/// The grid of cells, with the parameters that it was last made from.
pub struct ObstacleMap {
    applied: Option<MapParams>,
    cells: Vec<bool>,
}

impl ObstacleMap {
    /// For each cell, by its index, whether it is blocked.
    pub closed spec fn cells(&self) -> Seq<bool> {
        self.cells@
    }

    /// The parameters that the map was last made from, if it ever was.
    pub closed spec fn applied(&self) -> Option<MapParams> {
        self.applied
    }

    /// The map has one entry for each cell of the grid.
    pub open spec fn wf(&self) -> bool {
        self.cells().len() == CELLS
    }

    /// Whether the cell in this column and row is blocked; no cell beyond
    /// the grid is.
    pub open spec fn blocked(&self, col: int, row: int) -> bool {
        on_grid(col, row) && self.cells()[index_of(col, row)]
    }

    /// A map without obstacles that was made from no parameters yet.
    pub fn new() -> (r: ObstacleMap)
        ensures
            r.wf(),
            r.applied() is None,
            forall|k: int| 0 <= k < CELLS ==> !(#[trigger] r.cells()[k]),
    {
        let mut cells: Vec<bool> = Vec::new();
        let mut k: usize = 0;
        while k < CELLS
            invariant
                k <= CELLS,
                cells@.len() == k,
                forall|j: int| 0 <= j < k ==> !(#[trigger] cells@[j]),
            decreases CELLS - k,
        {
            cells.push(false);
            k += 1;
        }
        ObstacleMap { applied: None, cells }
    }

    /// Whether the map has to be remade for these parameters: it has,
    /// unless all five are what it was last made from.
    pub fn needs_rebuild(&self, params: &MapParams) -> (r: bool)
        ensures
            r == (self.applied() != Some(*params)),
    {
        match self.applied {
            Some(last) => !(last.octaves == params.octaves && last.frequency == params.frequency
                && last.lacunarity == params.lacunarity && last.persistence == params.persistence
                && last.threshold == params.threshold),
            None => true,
        }
    }

    /// Brings the map up to the parameters. `samples` holds the noise made
    /// with them at each of `sample_points`, in millionths.
    ///
    /// Where the parameters are those that the map was last made from,
    /// nothing happens and `Ok(false)` is returned. Otherwise the whole map
    /// is replaced by what the samples give and `Ok(true)` is returned. With
    /// other than one sample per cell, and octaves to make noise with, the
    /// map stays as it was and the call fails.
    pub fn regenerate(&mut self, params: MapParams, samples: &Vec<i64>) -> (r: Result<bool, MapError>)
        requires
            old(self).wf(),
        ensures
            final(self).wf(),
            r == (if old(self).applied() == Some(params) {
                Ok::<bool, MapError>(false)
            } else if params.octaves > 0 && samples@.len() != CELLS {
                Err(MapError::WrongSampleCount)
            } else {
                Ok(true)
            }),
            r == Ok::<bool, MapError>(true) ==> final(self).cells() == generated(params, samples@)
                && final(self).applied() == Some(params),
            r != Ok::<bool, MapError>(true) ==> final(self).cells() == old(self).cells()
                && final(self).applied() == old(self).applied(),
    {
        if !self.needs_rebuild(&params) {
            return Ok(false);
        }
        if params.octaves > 0 && samples.len() != CELLS {
            return Err(MapError::WrongSampleCount);
        }
        let mut cells: Vec<bool> = Vec::new();
        let mut k: usize = 0;
        while k < CELLS
            invariant
                k <= CELLS,
                cells@.len() == k,
                params.octaves > 0 ==> samples@.len() == CELLS,
                forall|j: int|
                    0 <= j < k ==> #[trigger] cells@[j] == (params.octaves > 0 && samples@[j]
                        >= params.threshold),
            decreases CELLS - k,
        {
            let blocked = params.octaves > 0 && samples[k] >= params.threshold;
            cells.push(blocked);
            k += 1;
        }
        proof {
            assert(cells@ =~= generated(params, samples@));
        }
        self.cells = cells;
        self.applied = Some(params);
        Ok(true)
    }

    /// Whether the cell in this column and row is blocked.
    pub fn is_obstacle(&self, col: u32, row: u32) -> (r: bool)
        requires
            self.wf(),
        ensures
            r == self.blocked(col as int, row as int),
    {
        if col < COLUMNS && row < ROWS {
            self.cells[(col * ROWS + row) as usize]
        } else {
            false
        }
    }

    /// Blocks or frees one cell by hand. Returns whether the grid has the
    /// cell; if not, nothing changes.
    pub fn set_obstacle(&mut self, col: u32, row: u32, blocked: bool) -> (r: bool)
        requires
            old(self).wf(),
        ensures
            final(self).wf(),
            r == on_grid(col as int, row as int),
            r ==> final(self).cells() == old(self).cells().update(
                index_of(col as int, row as int),
                blocked,
            ),
            !r ==> final(self).cells() == old(self).cells(),
            final(self).applied() == old(self).applied(),
    {
        if col < COLUMNS && row < ROWS {
            self.cells.set((col * ROWS + row) as usize, blocked);
            true
        } else {
            false
        }
    }
}

/// Whether the cell in column `col` and row `row` lies within the given
/// span of columns and of rows.
pub open spec fn in_span(col: int, row: int, cols: (int, int), rows: (int, int)) -> bool {
    cols.0 <= col <= cols.1 && rows.0 <= row <= rows.1
}

/// Whether a span of cells along one axis takes in every cell that a box
/// can overlap, where `low` and `high` are twice the bounds of the box along
/// the axis, counted from the edge of the arena, and `count` is the number
/// of cells along the axis.
pub open spec fn spans(span: (int, int), low: int, high: int, count: int) -> bool {
    &&& 0 <= span.0 <= count
    &&& -1 <= span.1 < count
    &&& span.0 == 0 || 2 * TILE_SIZE * span.0 <= low
    &&& span.1 == count - 1 || 2 * TILE_SIZE * (span.1 + 1) > high
}

/// Twice the lower bound of a box along x, counted from the left edge of
/// the arena.
pub open spec fn low_x(body: Rect) -> int {
    body.min_x2() + 2 * HALF_WIDTH
}

/// Twice the upper bound of a box along x, counted from the left edge.
pub open spec fn high_x(body: Rect) -> int {
    body.max_x2() + 2 * HALF_WIDTH
}

/// Twice the lower bound of a box along y, counted from the lower edge.
pub open spec fn low_y(body: Rect) -> int {
    body.min_y2() + 2 * HALF_HEIGHT
}

/// Twice the upper bound of a box along y, counted from the lower edge.
pub open spec fn high_y(body: Rect) -> int {
    body.max_y2() + 2 * HALF_HEIGHT
}

/// The span of cells along one axis that a box can overlap.
fn covered(low: i64, high: i64, count: i64) -> (r: (i64, i64))
    requires
        0 < count <= 90,
    ensures
        spans((r.0 as int, r.1 as int), low as int, high as int, count as int),
{
    proof {
        lemma_fundamental_div_mod(low as int, 20_000);
        lemma_mod_bound(low as int, 20_000);
        lemma_fundamental_div_mod(high as int, 20_000);
        lemma_mod_bound(high as int, 20_000);
    }
    let first: i64 = if low < 0 {
        0
    } else if low / (2 * TILE_SIZE as i64) > count {
        count
    } else {
        low / (2 * TILE_SIZE as i64)
    };
    let last: i64 = if high < 0 {
        -1
    } else if high / (2 * TILE_SIZE as i64) >= count {
        count - 1
    } else {
        high / (2 * TILE_SIZE as i64)
    };
    (first, last)
}

/// A box overlaps no cell outside the spans that take in its bounds.
pub proof fn lemma_outside_span_no_hit(body: Rect, k: int, cols: (int, int), rows: (int, int))
    requires
        0 <= k < CELLS,
        spans(cols, low_x(body), high_x(body), COLUMNS as int),
        spans(rows, low_y(body), high_y(body), ROWS as int),
        !in_span(column_of(k), row_of(k), cols, rows),
    ensures
        collision_face(body, rect_of(k)) is None,
{
    let col = column_of(k);
    let row = row_of(k);
    let cell = rect_of(k);
    assert(0 <= col < COLUMNS && 0 <= row < ROWS);
    assert(centre_of(col, row).0 == 10_000 * col - 445_000);
    assert(centre_of(col, row).1 == 10_000 * row - 295_000);
    assert(cell.x == 10_000 * col - 445_000);
    assert(cell.y == 10_000 * row - 295_000);
    assert(cell.min_x2() == 20_000 * col - 900_000);
    assert(cell.max_x2() == 20_000 * (col + 1) - 900_000);
    assert(cell.min_y2() == 20_000 * row - 600_000);
    assert(cell.max_y2() == 20_000 * (row + 1) - 600_000);
    assert(2 * TILE_SIZE == 20_000);
    if col < cols.0 {
        assert(20_000 * (col + 1) <= 20_000 * cols.0);
    }
    if col > cols.1 {
        assert(20_000 * col >= 20_000 * (cols.1 + 1));
    }
    if row < rows.0 {
        assert(20_000 * (row + 1) <= 20_000 * rows.0);
    }
    if row > rows.1 {
        assert(20_000 * row >= 20_000 * (rows.1 + 1));
    }
    assert(!overlaps(body, cell));
}

/// Cells that add no hit can be passed over.
pub proof fn lemma_pass_over(cells: Seq<bool>, body: Rect, from: int, to: int)
    requires
        0 <= from <= to,
        forall|k: int|
            from <= k < to ==> !cells[k] || (#[trigger] collision_face(body, rect_of(k))) is None,
    ensures
        hits_among(cells, body, to) == hits_among(cells, body, from),
    decreases to - from,
{
    if from < to {
        lemma_pass_over(cells, body, from, to - 1);
        assert(!cells[to - 1] || collision_face(body, rect_of(to - 1)) is None);
    }
}

/// The cells with an index from `from` up to `to` all lie outside the
/// spans, so a box that the spans take in hits none of them.
pub proof fn lemma_pass_over_outside(
    cells: Seq<bool>,
    body: Rect,
    cols: (int, int),
    rows: (int, int),
    from: int,
    to: int,
)
    requires
        0 <= from <= to <= CELLS,
        spans(cols, low_x(body), high_x(body), COLUMNS as int),
        spans(rows, low_y(body), high_y(body), ROWS as int),
        forall|k: int| from <= k < to ==> !in_span(column_of(k), row_of(k), cols, rows),
    ensures
        hits_among(cells, body, to) == hits_among(cells, body, from),
{
    assert forall|k: int| from <= k < to implies !cells[k] || (#[trigger] collision_face(
        body,
        rect_of(k),
    )) is None by {
        lemma_outside_span_no_hit(body, k, cols, rows);
    }
    lemma_pass_over(cells, body, from, to);
}

/// The faces on which `body` hits blocked cells of the map, in the order of
/// the cells' indices: one for each blocked cell that it hits. Only the
/// cells that the box can overlap are looked at.
#[verifier::rlimit(60)]
pub fn collide_tiles_with_rect(body: &Rect, map: &ObstacleMap) -> (r: Vec<Face>)
    requires
        map.wf(),
    ensures
        r@ == hits_among(map.cells(), *body, CELLS as int),
{
    let min_x: i64 = 2 * (body.x as i64) - body.width as i64 + 2 * (HALF_WIDTH as i64);
    let max_x: i64 = 2 * (body.x as i64) + body.width as i64 + 2 * (HALF_WIDTH as i64);
    let min_y: i64 = 2 * (body.y as i64) - body.height as i64 + 2 * (HALF_HEIGHT as i64);
    let max_y: i64 = 2 * (body.y as i64) + body.height as i64 + 2 * (HALF_HEIGHT as i64);
    let cols = covered(min_x, max_x, COLUMNS as i64);
    let rows = covered(min_y, max_y, ROWS as i64);
    let ghost cs = (cols.0 as int, cols.1 as int);
    let ghost rs = (rows.0 as int, rows.1 as int);
    let mut faces: Vec<Face> = Vec::new();
    if cols.0 > cols.1 || rows.0 > rows.1 {
        proof {
            lemma_pass_over_outside(map.cells@, *body, cs, rs, 0, CELLS as int);
        }
        return faces;
    }
    let mut col: i64 = cols.0;
    proof {
        lemma_pass_over_outside(map.cells@, *body, cs, rs, 0, col * ROWS + rows.0);
    }
    while col <= cols.1
        invariant
            cols.0 <= col <= cols.1 + 1,
            0 <= cols.0 <= cols.1 < COLUMNS,
            0 <= rows.0 <= rows.1 < ROWS,
            cs == (cols.0 as int, cols.1 as int),
            rs == (rows.0 as int, rows.1 as int),
            spans(cs, low_x(*body), high_x(*body), COLUMNS as int),
            spans(rs, low_y(*body), high_y(*body), ROWS as int),
            map.cells@.len() == CELLS,
            col <= cols.1 ==> faces@ == hits_among(map.cells@, *body, col * ROWS + rows.0),
            col == cols.1 + 1 ==> faces@ == hits_among(
                map.cells@,
                *body,
                cols.1 * ROWS + rows.1 + 1,
            ),
        decreases cols.1 + 1 - col,
    {
        let mut row: i64 = rows.0;
        while row <= rows.1
            invariant
                rows.0 <= row <= rows.1 + 1,
                0 <= cols.0 <= col <= cols.1 < COLUMNS,
                0 <= rows.0 <= rows.1 < ROWS,
                map.cells@.len() == CELLS,
                faces@ == hits_among(map.cells@, *body, col * ROWS + row),
            decreases rows.1 + 1 - row,
        {
            let k: usize = (col * (ROWS as i64) + row) as usize;
            if map.cells[k] {
                let rect = cell_rect(k);
                match collide(body, &rect) {
                    Some(face) => {
                        faces.push(face);
                    },
                    None => {},
                }
            }
            row += 1;
        }
        proof {
            if col < cols.1 {
                lemma_pass_over_outside(
                    map.cells@,
                    *body,
                    cs,
                    rs,
                    col * ROWS + rows.1 + 1,
                    (col + 1) * ROWS + rows.0,
                );
            }
        }
        col += 1;
    }
    proof {
        lemma_pass_over_outside(
            map.cells@,
            *body,
            cs,
            rs,
            cols.1 * ROWS + rows.1 + 1,
            CELLS as int,
        );
    }
    faces
}

/// The same parameters and the same samples give the same map, cell for
/// cell, and a map remade from them does not depend on what it held before.
pub proof fn lemma_generation_is_a_function(
    params: MapParams,
    samples: Seq<i64>,
    other_params: MapParams,
    other_samples: Seq<i64>,
)
    requires
        params == other_params,
        samples == other_samples,
    ensures
        generated(params, samples) == generated(other_params, other_samples),
{
}

/// Noise of no octaves blocks no cell, whatever the samples.
pub proof fn lemma_no_octaves_no_obstacles(params: MapParams, samples: Seq<i64>)
    requires
        params.octaves == 0,
    ensures
        generated(params, samples).len() == CELLS,
        forall|k: int| 0 <= k < CELLS ==> !(#[trigger] generated(params, samples)[k]),
{
}

} // verus!
