//! The spatial grid: a uniform partition of a rectangular domain centred on
//! the origin into `rows * cols` cells of side `container_size`, each cell
//! holding the identities of the entities currently inside it. The grid is
//! rebuilt from current positions once per tick (`remap`) and answers 3x3
//! neighborhood queries during collision resolution.

use vstd::prelude::*;

use vstd::arithmetic::div_mod::{
    lemma_basic_div, lemma_div_by_self, lemma_div_is_ordered, lemma_div_plus_one,
    lemma_div_pos_is_pos, lemma_multiply_divide_le, lemma_multiply_divide_lt,
};

use crate::fixed::{abs_int, FX_LIM};
use crate::math_helpers::{vec2_in_range, Vec2};

verus! {

/// Number of cells covering a span of `a` raw units with cells of side `b`:
/// the quotient rounded up.
pub open spec fn ceil_div(a: int, b: int) -> int {
    (a + b - 1) / b
}

/// `ceil_div` of positive arguments lies between 1 and the dividend.
pub proof fn lemma_ceil_div_bounds(a: int, b: int)
    requires
        1 <= a,
        1 <= b,
    ensures
        1 <= ceil_div(a, b) <= a,
{
    lemma_div_is_ordered(b, a + b - 1, b);
    lemma_div_by_self(b);
    assert(a + b - 1 <= b * a) by (nonlinear_arith)
        requires
            1 <= a && 1 <= b,
    ;
    lemma_multiply_divide_le(a + b - 1, b, a);
}

/// A span of `a` units needs more than `ceil_div(a, b) - 1` cells: the last
/// cell is not empty.
pub proof fn lemma_ceil_div_tight(a: int, b: int)
    requires
        1 <= a,
        1 <= b,
    ensures
        b * (ceil_div(a, b) - 1) < a,
{
    let q = ceil_div(a, b);
    lemma_ceil_div_bounds(a, b);
    if b * (q - 1) >= a {
        assert(b * (q - 1) + b - 1 >= a + b - 1);
        assert(b * (q - 1) + b - 1 == b * q - 1) by (nonlinear_arith);
        lemma_div_is_ordered(a + b - 1, b * q - 1, b);
        lemma_multiply_divide_lt(b * q - 1, b, q);
        assert(q <= (b * q - 1) / b);
    }
}

/// The cell covering the translated coordinate `px` on one axis: clamped to
/// the last cell at or beyond the upper edge (`ms`), to the first cell below
/// zero, and `px / cs` in between. `q` is the number of cells on the axis.
pub open spec fn clamped_cell(px: int, ms: int, cs: int, q: int) -> int {
    if px >= ms {
        q - 1
    } else if px < 0 {
        0
    } else {
        px / cs
    }
}

/// The clamped cell lies within `[0, q)`, wherever the coordinate lies.
pub proof fn lemma_clamped_cell_bounds(px: int, ms: int, cs: int, q: int)
    requires
        0 < cs,
        0 < ms,
        q == ceil_div(ms, cs),
    ensures
        0 <= clamped_cell(px, ms, cs, q) < q,
{
    lemma_ceil_div_bounds(ms, cs);
    if px >= ms || px < 0 {
    } else {
        lemma_div_pos_is_pos(px, cs);
        lemma_div_is_ordered(px, ms - 1, cs);
        lemma_div_plus_one(ms - 1, cs);
        assert(ms - 1 + cs == cs + (ms - 1));
        assert((ms - 1) / cs < ceil_div(ms, cs));
    }
}

/// Coordinates less than one cell apart land in the same or in adjacent
/// cells: one direction of the adjacency bound.
proof fn lemma_clamped_cell_step(px1: int, px2: int, ms: int, cs: int, q: int)
    requires
        0 < cs,
        0 < ms,
        q == ceil_div(ms, cs),
        px1 < px2 + cs,
    ensures
        clamped_cell(px1, ms, cs, q) <= clamped_cell(px2, ms, cs, q) + 1,
{
    lemma_ceil_div_bounds(ms, cs);
    lemma_clamped_cell_bounds(px1, ms, cs, q);
    lemma_clamped_cell_bounds(px2, ms, cs, q);
    if px1 >= ms {
        if px2 >= ms {
        } else if px2 < 0 {
            // ms <= px1 < px2 + cs < cs: the whole axis is one cell.
            lemma_multiply_divide_lt(ms + cs - 1, cs, 2);
            assert(ms + cs - 1 < cs * 2) by (nonlinear_arith)
                requires
                    ms < cs,
            ;
            assert(q == 1);
        } else {
            // px2 > ms - cs > cs*(q - 2), so px2 sits in one of the last
            // two cells.
            lemma_ceil_div_tight(ms, cs);
            assert(cs * (q - 2) < px2) by (nonlinear_arith)
                requires
                    cs * (q - 1) < ms,
                    ms - cs < px2 + (cs - cs),
                    px1 >= ms,
                    px1 < px2 + cs,
            ;
            if q - 2 >= 0 {
                lemma_div_is_ordered(cs * (q - 2), px2, cs);
                vstd::arithmetic::div_mod::lemma_div_multiples_vanish(q - 2, cs);
                assert(cs * (q - 2) == (q - 2) * cs) by (nonlinear_arith);
                assert((cs * (q - 2)) / cs == q - 2);
            }
        }
    } else if px1 < 0 {
    } else {
        if px2 >= ms {
            // col(px1) <= q - 1 = col(px2).
        } else if px2 < 0 {
            // 0 <= px1 < px2 + cs < cs.
            lemma_basic_div(px1, cs);
        } else {
            lemma_div_is_ordered(px1, px2 + cs - 1, cs);
            lemma_div_plus_one(px2 - 1, cs);
            assert(px2 + cs - 1 == cs + (px2 - 1));
            lemma_div_is_ordered(px2 - 1, px2, cs);
        }
    }
}

/// Coordinates less than one cell apart land in the same or in adjacent
/// cells.
pub proof fn lemma_clamped_cell_adjacent(px1: int, px2: int, ms: int, cs: int, q: int)
    requires
        0 < cs,
        0 < ms,
        q == ceil_div(ms, cs),
        abs_int(px1 - px2) < cs,
    ensures
        abs_int(clamped_cell(px1, ms, cs, q) - clamped_cell(px2, ms, cs, q)) <= 1,
{
    lemma_clamped_cell_step(px1, px2, ms, cs, q);
    lemma_clamped_cell_step(px2, px1, ms, cs, q);
}

/// A cell index made of an in-range row and column is within the grid.
pub proof fn lemma_grid_index_bound(row: int, col: int, rows: int, cols: int)
    by (nonlinear_arith)
    requires
        0 <= row < rows,
        0 <= col < cols,
    ensures
        0 <= row * cols + col < rows * cols,
{
}

/// A uniform spatial-hash grid over a rectangular domain centred on the
/// origin, `map_size` wide and high (raw fixed-point units), with square
/// cells of side `container_size`.
#[derive(Clone)]
pub struct EntityMap {
    pub map_size: Vec2,
    pub container_size: i64,
    pub rows: usize,
    pub cols: usize,
    pub containers: Vec<Vec<u64>>,
}

impl EntityMap {
    /// The cells, as a sequence (row-major) of sequences of entity ids.
    pub open spec fn cells(self) -> Seq<Seq<u64>> {
        Seq::new(self.containers@.len(), |i: int| self.containers@[i]@)
    }

    /// Well-formedness: positive bounded geometry, the row and column counts
    /// computed from it, and one container per cell.
    pub open spec fn wf(self) -> bool {
        &&& 0 < self.container_size <= FX_LIM
        &&& 0 < self.map_size.x <= FX_LIM
        &&& 0 < self.map_size.y <= FX_LIM
        &&& self.cols as int == ceil_div(self.map_size.x as int, self.container_size as int)
        &&& self.rows as int == ceil_div(self.map_size.y as int, self.container_size as int)
        &&& self.containers@.len() == self.rows * self.cols
    }

    /// Two grids with the same geometry (cell contents may differ).
    pub open spec fn same_geometry(self, other: EntityMap) -> bool {
        &&& self.map_size == other.map_size
        &&& self.container_size == other.container_size
        &&& self.rows == other.rows
        &&& self.cols == other.cols
    }

    /// The column covering the (clamped) horizontal position `x`: `x` is
    /// translated by half the domain width, then clamped to `[0, cols)`.
    pub open spec fn col_of(self, x: int) -> int {
        clamped_cell(
            x + self.map_size.x as int / 2,
            self.map_size.x as int,
            self.container_size as int,
            self.cols as int,
        )
    }

    /// The row covering the (clamped) vertical position `y`.
    pub open spec fn row_of(self, y: int) -> int {
        clamped_cell(
            y + self.map_size.y as int / 2,
            self.map_size.y as int,
            self.container_size as int,
            self.rows as int,
        )
    }

    /// The cell index covering `pos`, row-major.
    pub open spec fn index_of_spec(self, pos: Vec2) -> int {
        self.row_of(pos.y as int) * self.cols as int + self.col_of(pos.x as int)
    }

    /// Columns are always within `[0, cols)`, wherever the position lies.
    pub proof fn lemma_col_of_bounds(self, x: int)
        requires
            self.wf(),
        ensures
            0 <= self.col_of(x) < self.cols as int,
    {
        lemma_clamped_cell_bounds(
            x + self.map_size.x as int / 2,
            self.map_size.x as int,
            self.container_size as int,
            self.cols as int,
        );
    }

    /// Rows are always within `[0, rows)`, wherever the position lies.
    pub proof fn lemma_row_of_bounds(self, y: int)
        requires
            self.wf(),
        ensures
            0 <= self.row_of(y) < self.rows as int,
    {
        lemma_clamped_cell_bounds(
            y + self.map_size.y as int / 2,
            self.map_size.y as int,
            self.container_size as int,
            self.rows as int,
        );
    }

    /// Every position, inside the domain or not, maps to a cell index within
    /// the grid: indexing never reaches out of range.
    pub proof fn lemma_index_of_in_range(self, pos: Vec2)
        requires
            self.wf(),
        ensures
            0 <= self.index_of_spec(pos) < self.cells().len(),
    {
        self.lemma_col_of_bounds(pos.x as int);
        self.lemma_row_of_bounds(pos.y as int);
        lemma_grid_index_bound(
            self.row_of(pos.y as int),
            self.col_of(pos.x as int),
            self.rows as int,
            self.cols as int,
        );
    }

    /// Build a grid over a domain of `map_size` (components taken as
    /// absolute values) with cells of side `container_size`. Returns `None`
    /// when the cell size is not positive, when the domain has no extent, or
    /// when the cell array would not fit in memory.
    pub fn new(map_size: Vec2, container_size: i64) -> (r: Option<EntityMap>)
        requires
            vec2_in_range(map_size),
            container_size <= FX_LIM,
        ensures
            r is Some <==> container_size > 0 && map_size.x != 0 && map_size.y != 0 && ceil_div(
                abs_int(map_size.y as int),
                container_size as int,
            ) * ceil_div(abs_int(map_size.x as int), container_size as int) <= usize::MAX,
            r matches Some(m) ==> {
                &&& m.wf()
                &&& m.map_size.x == abs_int(map_size.x as int)
                &&& m.map_size.y == abs_int(map_size.y as int)
                &&& m.container_size as int == container_size
                &&& forall|i: int| 0 <= i < m.cells().len() ==> m.cells()[i].len() == 0
            },
    {
        if container_size <= 0 {
            return None;
        }
        let msx: i64 = if map_size.x < 0 {
            -map_size.x
        } else {
            map_size.x
        };
        let msy: i64 = if map_size.y < 0 {
            -map_size.y
        } else {
            map_size.y
        };
        if msx == 0 || msy == 0 {
            return None;
        }
        proof {
            lemma_ceil_div_bounds(msx as int, container_size as int);
            lemma_ceil_div_bounds(msy as int, container_size as int);
        }
        let cols: usize = (((msx as u64) + (container_size as u64) - 1) / (container_size as u64))
            as usize;
        let rows: usize = (((msy as u64) + (container_size as u64) - 1) / (container_size as u64))
            as usize;
        let total = match rows.checked_mul(cols) {
            Some(t) => t,
            None => {
                proof {
                    assert(rows as int * cols as int > usize::MAX);
                }
                return None;
            },
        };
        let mut containers: Vec<Vec<u64>> = Vec::new();
        let mut i: usize = 0;
        while i < total
            invariant
                i <= total,
                containers@.len() == i,
                forall|j: int| 0 <= j < i ==> containers@[j]@.len() == 0,
            decreases total - i,
        {
            containers.push(Vec::<u64>::new());
            i = i + 1;
        }
        Some(
            EntityMap {
                map_size: Vec2 { x: msx, y: msy },
                container_size,
                rows,
                cols,
                containers,
            },
        )
    }

    /// The row and column covering `pos`.
    fn row_col_of(&self, pos: Vec2) -> (r: (usize, usize))
        requires
            self.wf(),
        ensures
            r.0 as int == self.row_of(pos.y as int),
            r.1 as int == self.col_of(pos.x as int),
            r.0 < self.rows,
            r.1 < self.cols,
    {
        proof {
            self.lemma_col_of_bounds(pos.x as int);
            self.lemma_row_of_bounds(pos.y as int);
        }
        let half_x: i64 = ((self.map_size.x as u64) / 2) as i64;
        let half_y: i64 = ((self.map_size.y as u64) / 2) as i64;
        let px: i128 = pos.x as i128 + half_x as i128;
        let py: i128 = pos.y as i128 + half_y as i128;
        let col: usize = if px >= self.map_size.x as i128 {
            self.cols - 1
        } else if px < 0 {
            0
        } else {
            (((px as u64)) / (self.container_size as u64)) as usize
        };
        let row: usize = if py >= self.map_size.y as i128 {
            self.rows - 1
        } else if py < 0 {
            0
        } else {
            (((py as u64)) / (self.container_size as u64)) as usize
        };
        (row, col)
    }

    /// The index of the cell covering `pos` (clamped to the nearest edge cell
    /// for positions outside the domain); always within the cell array.
    pub fn pos_to_container_index(&self, pos: Vec2) -> (r: usize)
        requires
            self.wf(),
        ensures
            r as int == self.index_of_spec(pos),
            r < self.cells().len(),
    {
        proof {
            self.lemma_index_of_in_range(pos);
        }
        let (row, col) = self.row_col_of(pos);
        // The cell count, which bounds the computed index, fits in usize.
        let _cells: usize = self.containers.len();
        proof {
            lemma_grid_index_bound(row as int, col as int, self.rows as int, self.cols as int);
        }
        row * self.cols + col
    }

    /// Append `entity` to the cell covering `pos`.
    pub fn add_entity(&mut self, entity: u64, pos: Vec2)
        requires
            old(self).wf(),
        ensures
            final(self).wf(),
            final(self).same_geometry(*old(self)),
            final(self).cells() == old(self).cells().update(
                old(self).index_of_spec(pos),
                old(self).cells()[old(self).index_of_spec(pos)].push(entity),
            ),
    {
        let idx = self.pos_to_container_index(pos);
        self.containers[idx].push(entity);
        proof {
            assert(self.cells() =~~= old(self).cells().update(
                old(self).index_of_spec(pos),
                old(self).cells()[old(self).index_of_spec(pos)].push(entity),
            ));
        }
    }

    /// Empty every cell, keeping the geometry.
    pub fn clear(&mut self)
        requires
            old(self).wf(),
        ensures
            final(self).wf(),
            final(self).same_geometry(*old(self)),
            final(self).cells().len() == old(self).cells().len(),
            forall|i: int| 0 <= i < final(self).cells().len() ==> final(self).cells()[i].len()
                == 0,
    {
        let n = self.containers.len();
        let mut i: usize = 0;
        while i < n
            invariant
                i <= n,
                n == self.containers@.len(),
                self.map_size == old(self).map_size,
                self.container_size == old(self).container_size,
                self.rows == old(self).rows,
                self.cols == old(self).cols,
                forall|j: int| 0 <= j < i ==> self.containers@[j]@.len() == 0,
            decreases n - i,
        {
            self.containers[i].clear();
            i = i + 1;
        }
    }

    /// The contents of the cell at `(row, col)`, or the empty sequence when
    /// the coordinates fall outside the grid.
    pub open spec fn cell_or_empty(self, row: int, col: int) -> Seq<u64> {
        if 0 <= row < self.rows as int && 0 <= col < self.cols as int {
            self.cells()[row * self.cols as int + col]
        } else {
            Seq::empty()
        }
    }

    /// Everything `get_related_entities` returns for `pos`: the contents of
    /// the 3x3 block of cells centred on the cell of `pos`, row-major,
    /// rows or columns outside the grid skipped.
    pub open spec fn related_spec(self, pos: Vec2) -> Seq<u64> {
        let r0 = self.row_of(pos.y as int);
        let c0 = self.col_of(pos.x as int);
        self.cell_or_empty(r0 - 1, c0 - 1) + self.cell_or_empty(r0 - 1, c0) + self.cell_or_empty(
            r0 - 1,
            c0 + 1,
        ) + self.cell_or_empty(r0, c0 - 1) + self.cell_or_empty(r0, c0) + self.cell_or_empty(
            r0,
            c0 + 1,
        ) + self.cell_or_empty(r0 + 1, c0 - 1) + self.cell_or_empty(r0 + 1, c0)
            + self.cell_or_empty(r0 + 1, c0 + 1)
    }

    /// Append the contents of the cell at `(row, col)` to `out`; a no-op for
    /// coordinates outside the grid.
    fn push_cell(&self, out: &mut Vec<u64>, row: i64, col: i64)
        requires
            self.wf(),
        ensures
            final(out)@ == old(out)@ + self.cell_or_empty(row as int, col as int),
    {
        proof {
            lemma_ceil_div_bounds(self.map_size.x as int, self.container_size as int);
            lemma_ceil_div_bounds(self.map_size.y as int, self.container_size as int);
        }
        if row >= 0 && col >= 0 && row < self.rows as i64 && col < self.cols as i64 {
            proof {
                lemma_grid_index_bound(row as int, col as int, self.rows as int, self.cols as int);
            }
            // The cell count, which bounds the computed index, fits in usize.
            let _cells: usize = self.containers.len();
            let idx = (row as usize) * self.cols + (col as usize);
            let cell = &self.containers[idx];
            let n = cell.len();
            let mut k: usize = 0;
            while k < n
                invariant
                    k <= n,
                    n == cell@.len(),
                    cell@ == self.cell_or_empty(row as int, col as int),
                    out@ == old(out)@ + cell@.subrange(0, k as int),
                decreases n - k,
            {
                out.push(cell[k]);
                proof {
                    assert(cell@.subrange(0, k + 1 as int) =~= cell@.subrange(0, k as int).push(
                        cell@[k as int],
                    ));
                }
                k = k + 1;
            }
            proof {
                assert(cell@.subrange(0, n as int) =~= cell@);
            }
        } else {
            proof {
                assert(out@ =~= old(out)@ + Seq::<u64>::empty());
            }
        }
    }

    /// All entities in the 3x3 block of cells centred on the cell of `pos`,
    /// row-major. Includes whatever was inserted at `pos` itself; callers
    /// exclude self-matches by identity.
    pub fn get_related_entities(&self, pos: Vec2) -> (r: Vec<u64>)
        requires
            self.wf(),
        ensures
            r@ == self.related_spec(pos),
    {
        let (row, col) = self.row_col_of(pos);
        let ri = row as i64;
        let ci = col as i64;
        let mut related: Vec<u64> = Vec::new();
        self.push_cell(&mut related, ri - 1, ci - 1);
        self.push_cell(&mut related, ri - 1, ci);
        self.push_cell(&mut related, ri - 1, ci + 1);
        self.push_cell(&mut related, ri, ci - 1);
        self.push_cell(&mut related, ri, ci);
        self.push_cell(&mut related, ri, ci + 1);
        self.push_cell(&mut related, ri + 1, ci - 1);
        self.push_cell(&mut related, ri + 1, ci);
        self.push_cell(&mut related, ri + 1, ci + 1);
        proof {
            assert(related@ =~= self.related_spec(pos));
        }
        related
    }

    /// Positions less than one cell apart on each axis land in the same or
    /// in adjacent rows and columns, clamping included.
    pub proof fn lemma_cells_adjacent(self, p1: Vec2, p2: Vec2)
        requires
            self.wf(),
            abs_int(p1.x - p2.x) < self.container_size as int,
            abs_int(p1.y - p2.y) < self.container_size as int,
        ensures
            abs_int(self.col_of(p1.x as int) - self.col_of(p2.x as int)) <= 1,
            abs_int(self.row_of(p1.y as int) - self.row_of(p2.y as int)) <= 1,
    {
        lemma_clamped_cell_adjacent(
            p1.x + self.map_size.x as int / 2,
            p2.x + self.map_size.x as int / 2,
            self.map_size.x as int,
            self.container_size as int,
            self.cols as int,
        );
        lemma_clamped_cell_adjacent(
            p1.y + self.map_size.y as int / 2,
            p2.y + self.map_size.y as int / 2,
            self.map_size.y as int,
            self.container_size as int,
            self.rows as int,
        );
    }

    /// Whatever lies in a cell at most one row and one column away from the
    /// cell of `pos` shows up in the neighborhood query at `pos`.
    pub proof fn lemma_related_contains_cell(self, pos: Vec2, row: int, col: int, e: u64)
        requires
            self.wf(),
            abs_int(row - self.row_of(pos.y as int)) <= 1,
            abs_int(col - self.col_of(pos.x as int)) <= 1,
            self.cell_or_empty(row, col).contains(e),
        ensures
            self.related_spec(pos).contains(e),
    {
        let r0 = self.row_of(pos.y as int);
        let c0 = self.col_of(pos.x as int);
        let s1 = self.cell_or_empty(r0 - 1, c0 - 1);
        let s2 = self.cell_or_empty(r0 - 1, c0);
        let s3 = self.cell_or_empty(r0 - 1, c0 + 1);
        let s4 = self.cell_or_empty(r0, c0 - 1);
        let s5 = self.cell_or_empty(r0, c0);
        let s6 = self.cell_or_empty(r0, c0 + 1);
        let s7 = self.cell_or_empty(r0 + 1, c0 - 1);
        let s8 = self.cell_or_empty(r0 + 1, c0);
        let s9 = self.cell_or_empty(r0 + 1, c0 + 1);
        let t2 = s1 + s2;
        let t3 = t2 + s3;
        let t4 = t3 + s4;
        let t5 = t4 + s5;
        let t6 = t5 + s6;
        let t7 = t6 + s7;
        let t8 = t7 + s8;
        let t9 = t8 + s9;
        assert(self.related_spec(pos) == t9);
        if row == r0 - 1 {
            if col == c0 - 1 {
                lemma_concat_contains_left(s1, s2, e);
            } else if col == c0 {
                lemma_concat_contains_right(s1, s2, e);
            } else {
                lemma_concat_contains_right(t2, s3, e);
            }
        } else if row == r0 {
            if col == c0 - 1 {
                lemma_concat_contains_right(t3, s4, e);
            } else if col == c0 {
                lemma_concat_contains_right(t4, s5, e);
            } else {
                lemma_concat_contains_right(t5, s6, e);
            }
        } else {
            if col == c0 - 1 {
                lemma_concat_contains_right(t6, s7, e);
            } else if col == c0 {
                lemma_concat_contains_right(t7, s8, e);
            } else {
                lemma_concat_contains_right(t8, s9, e);
            }
        }
        if t2.contains(e) {
            lemma_concat_contains_left(t2, s3, e);
        }
        if t3.contains(e) {
            lemma_concat_contains_left(t3, s4, e);
        }
        if t4.contains(e) {
            lemma_concat_contains_left(t4, s5, e);
        }
        if t5.contains(e) {
            lemma_concat_contains_left(t5, s6, e);
        }
        if t6.contains(e) {
            lemma_concat_contains_left(t6, s7, e);
        }
        if t7.contains(e) {
            lemma_concat_contains_left(t7, s8, e);
        }
        if t8.contains(e) {
            lemma_concat_contains_left(t8, s9, e);
        }
    }

    /// Grid neighbor completeness: when two circles overlap and the cell
    /// side is at least their combined radius, an entity inserted at the
    /// cell of one position is returned by the neighborhood query at the
    /// other.
    pub proof fn lemma_neighbor_completeness(self, p1: Vec2, r1: int, p2: Vec2, r2: int, e: u64)
        requires
            self.wf(),
            0 <= r1,
            0 <= r2,
            r1 + r2 <= self.container_size as int,
            (p1.x - p2.x) * (p1.x - p2.x) + (p1.y - p2.y) * (p1.y - p2.y) < (r1 + r2) * (r1
                + r2),
            self.cells()[self.index_of_spec(p2)].contains(e),
        ensures
            self.related_spec(p1).contains(e),
    {
        let dx = p1.x - p2.x;
        let dy = p1.y - p2.y;
        let cr = r1 + r2;
        assert(abs_int(dx) < cr && abs_int(dy) < cr) by (nonlinear_arith)
            requires
                dx * dx + dy * dy < cr * cr,
                0 <= cr,
        ;
        self.lemma_cells_adjacent(p1, p2);
        let rr = self.row_of(p2.y as int);
        let cc = self.col_of(p2.x as int);
        self.lemma_col_of_bounds(p2.x as int);
        self.lemma_row_of_bounds(p2.y as int);
        self.lemma_index_of_in_range(p2);
        assert(self.cell_or_empty(rr, cc) == self.cells()[self.index_of_spec(p2)]);
        self.lemma_related_contains_cell(p1, rr, cc, e);
    }

    /// The domain size, both components positive.
    pub fn get_map_size(&self) -> (r: Vec2)
        ensures
            r == self.map_size,
    {
        self.map_size
    }

    /// The grid dimensions, as (columns, rows).
    pub fn get_map_dims(&self) -> (r: (usize, usize))
        ensures
            r.0 as int == self.cols as int,
            r.1 as int == self.rows as int,
    {
        (self.cols, self.rows)
    }

    /// The cell side.
    pub fn get_container_size(&self) -> (r: i64)
        ensures
            r as int == self.container_size as int,
    {
        self.container_size
    }

    /// How many entities each cell holds, row-major; the computational core
    /// of the textual cell-occupancy dump.
    pub fn container_counts(&self) -> (r: Vec<usize>)
        ensures
            r@.len() == self.cells().len(),
            forall|i: int| 0 <= i < r@.len() ==> r@[i] as int == self.cells()[i].len(),
    {
        let n = self.containers.len();
        let mut counts: Vec<usize> = Vec::new();
        let mut i: usize = 0;
        while i < n
            invariant
                i <= n,
                n == self.containers@.len(),
                counts@.len() == i,
                forall|j: int| 0 <= j < i ==> counts@[j] as int == self.containers@[j]@.len(),
            decreases n - i,
        {
            counts.push(self.containers[i].len());
            i = i + 1;
        }
        counts
    }
}

/// An element of the left part of a concatenation is in the concatenation.
proof fn lemma_concat_contains_left<T>(a: Seq<T>, b: Seq<T>, e: T)
    requires
        a.contains(e),
    ensures
        (a + b).contains(e),
{
    let w = choose|w: int| 0 <= w < a.len() && a[w] == e;
    assert((a + b)[w] == e);
}

/// An element of the right part of a concatenation is in the concatenation.
proof fn lemma_concat_contains_right<T>(a: Seq<T>, b: Seq<T>, e: T)
    requires
        b.contains(e),
    ensures
        (a + b).contains(e),
{
    let w = choose|w: int| 0 <= w < b.len() && b[w] == e;
    assert((a + b)[a.len() + w] == e);
}

/// A row of `n` empty cells.
pub open spec fn empty_cells(n: int) -> Seq<Seq<u64>> {
    Seq::new(n as nat, |i: int| Seq::<u64>::empty())
}

/// One insertion into a row of cells: `e` appended to the cell at `idx`.
pub open spec fn insert_cell(cells: Seq<Seq<u64>>, idx: int, e: u64) -> Seq<Seq<u64>> {
    cells.update(idx, cells[idx].push(e))
}

/// The cells after inserting each of `bodies` in order, each entity at the
/// cell of the grid (whose geometry `grid` supplies) covering its position.
pub open spec fn cells_after_inserts(
    grid: EntityMap,
    init: Seq<Seq<u64>>,
    bodies: Seq<(u64, Vec2)>,
) -> Seq<Seq<u64>>
    decreases bodies.len(),
{
    if bodies.len() == 0 {
        init
    } else {
        cells_after_inserts(
            grid,
            insert_cell(init, grid.index_of_spec(bodies[0].1), bodies[0].0),
            bodies.drop_first(),
        )
    }
}

/// Appending one more body inserts into the cells built from the others.
proof fn lemma_cells_after_inserts_snoc(
    grid: EntityMap,
    init: Seq<Seq<u64>>,
    bodies: Seq<(u64, Vec2)>,
    b: (u64, Vec2),
)
    ensures
        cells_after_inserts(grid, init, bodies.push(b)) == insert_cell(
            cells_after_inserts(grid, init, bodies),
            grid.index_of_spec(b.1),
            b.0,
        ),
    decreases bodies.len(),
{
    if bodies.len() == 0 {
        assert(bodies.push(b)[0] == b);
        assert(bodies.push(b).drop_first() =~= Seq::<(u64, Vec2)>::empty());
        assert(cells_after_inserts(
            grid,
            insert_cell(init, grid.index_of_spec(b.1), b.0),
            Seq::<(u64, Vec2)>::empty(),
        ) == insert_cell(init, grid.index_of_spec(b.1), b.0));
    } else {
        assert(bodies.push(b)[0] == bodies[0]);
        assert(bodies.push(b).drop_first() =~= bodies.drop_first().push(b));
        lemma_cells_after_inserts_snoc(
            grid,
            insert_cell(init, grid.index_of_spec(bodies[0].1), bodies[0].0),
            bodies.drop_first(),
            b,
        );
    }
}

/// Inserting entities never removes one: a cell keeps its length and every
/// member it already had.
proof fn lemma_cells_after_inserts_preserves(
    grid: EntityMap,
    init: Seq<Seq<u64>>,
    bodies: Seq<(u64, Vec2)>,
    i: int,
    e: u64,
)
    requires
        grid.wf(),
        init.len() == grid.rows as int * grid.cols as int,
        0 <= i < init.len(),
        init[i].contains(e),
    ensures
        cells_after_inserts(grid, init, bodies).len() == init.len(),
        cells_after_inserts(grid, init, bodies)[i].contains(e),
    decreases bodies.len(),
{
    if bodies.len() == 0 {
    } else {
        let idx = grid.index_of_spec(bodies[0].1);
        grid.lemma_index_of_in_range(bodies[0].1);
        let init1 = insert_cell(init, idx, bodies[0].0);
        assert(init1[i].contains(e)) by {
            if i == idx {
                assert(init1[i] == init[i].push(bodies[0].0));
                let w = choose|w: int| 0 <= w < init[i].len() && init[i][w] == e;
                assert(init1[i][w] == e);
            }
        }
        lemma_cells_after_inserts_preserves(grid, init1, bodies.drop_first(), i, e);
    }
}

/// After a rebuild, every body appears in the cell covering its position.
pub proof fn lemma_rebuild_membership(
    grid: EntityMap,
    init: Seq<Seq<u64>>,
    bodies: Seq<(u64, Vec2)>,
    j: int,
)
    requires
        grid.wf(),
        init.len() == grid.rows as int * grid.cols as int,
        0 <= j < bodies.len(),
    ensures
        cells_after_inserts(grid, init, bodies).len() == init.len(),
        cells_after_inserts(grid, init, bodies)[grid.index_of_spec(bodies[j].1)].contains(
            bodies[j].0,
        ),
    decreases bodies.len(),
{
    let idx = grid.index_of_spec(bodies[0].1);
    grid.lemma_index_of_in_range(bodies[0].1);
    let init1 = insert_cell(init, idx, bodies[0].0);
    if j == 0 {
        assert(init1[idx] == init[idx].push(bodies[0].0));
        assert(init1[idx][init[idx].len() as int] == bodies[0].0);
        assert(init1[idx].contains(bodies[0].0));
        lemma_cells_after_inserts_preserves(grid, init1, bodies.drop_first(), idx, bodies[0].0);
    } else {
        lemma_rebuild_membership(grid, init1, bodies.drop_first(), j - 1);
        assert(bodies.drop_first()[j - 1] == bodies[j]);
    }
}

/// No body in `bodies` carries identity `id`.
pub open spec fn id_not_in_bodies(bodies: Seq<(u64, Vec2)>, id: u64) -> bool {
    forall|k: int| 0 <= k < bodies.len() ==> bodies[k].0 != id
}

/// No two bodies share an identity.
pub open spec fn distinct_body_ids(bodies: Seq<(u64, Vec2)>) -> bool {
    forall|k: int, l: int| 0 <= k < l < bodies.len() ==> bodies[k].0 != bodies[l].0
}

/// `id` appears in no cell but (possibly) the one at `idx`.
pub open spec fn only_in_cell(cells: Seq<Seq<u64>>, id: u64, idx: int) -> bool {
    forall|i: int| 0 <= i < cells.len() && i != idx ==> !cells[i].contains(id)
}

/// Inserting bodies that all carry other identities puts `id` in no new
/// cell.
proof fn lemma_inserts_of_others_keep_exclusive(
    grid: EntityMap,
    init: Seq<Seq<u64>>,
    bodies: Seq<(u64, Vec2)>,
    id: u64,
    idx: int,
)
    requires
        grid.wf(),
        init.len() == grid.rows as int * grid.cols as int,
        id_not_in_bodies(bodies, id),
        only_in_cell(init, id, idx),
    ensures
        only_in_cell(cells_after_inserts(grid, init, bodies), id, idx),
    decreases bodies.len(),
{
    if bodies.len() == 0 {
    } else {
        let idx0 = grid.index_of_spec(bodies[0].1);
        grid.lemma_index_of_in_range(bodies[0].1);
        let init1 = insert_cell(init, idx0, bodies[0].0);
        assert forall|i: int| 0 <= i < init1.len() && i != idx implies !init1[i].contains(id) by {
            if i == idx0 {
                assert(init1[i] == init[i].push(bodies[0].0));
                if init1[i].contains(id) {
                    let w = choose|w: int| 0 <= w < init1[i].len() && init1[i][w] == id;
                    if w < init[i].len() {
                        assert(init[i][w] == id);
                    }
                }
            }
        }
        assert(id_not_in_bodies(bodies.drop_first(), id)) by {
            assert forall|k: int| 0 <= k < bodies.drop_first().len() implies bodies.drop_first()[k].0
                != id by {
                assert(bodies.drop_first()[k] == bodies[k + 1]);
            }
        }
        lemma_inserts_of_others_keep_exclusive(grid, init1, bodies.drop_first(), id, idx);
    }
}

/// After a rebuild from bodies with distinct identities, a body appears in
/// no cell but the one covering its position: together with
/// `lemma_rebuild_membership`, every body is in exactly one cell.
pub proof fn lemma_rebuild_exclusive(
    grid: EntityMap,
    init: Seq<Seq<u64>>,
    bodies: Seq<(u64, Vec2)>,
    j: int,
)
    requires
        grid.wf(),
        init.len() == grid.rows as int * grid.cols as int,
        distinct_body_ids(bodies),
        0 <= j < bodies.len(),
        forall|i: int| 0 <= i < init.len() ==> !init[i].contains(bodies[j].0),
    ensures
        only_in_cell(
            cells_after_inserts(grid, init, bodies),
            bodies[j].0,
            grid.index_of_spec(bodies[j].1),
        ),
    decreases bodies.len(),
{
    let idx0 = grid.index_of_spec(bodies[0].1);
    grid.lemma_index_of_in_range(bodies[0].1);
    let init1 = insert_cell(init, idx0, bodies[0].0);
    if j == 0 {
        assert(only_in_cell(init1, bodies[0].0, idx0)) by {
            assert forall|i: int| 0 <= i < init1.len() && i != idx0 implies !init1[i].contains(
                bodies[0].0,
            ) by {
                assert(init1[i] == init[i]);
            }
        }
        assert(id_not_in_bodies(bodies.drop_first(), bodies[0].0)) by {
            assert forall|k: int| 0 <= k < bodies.drop_first().len() implies bodies.drop_first()[k].0
                != bodies[0].0 by {
                assert(bodies.drop_first()[k] == bodies[k + 1]);
            }
        }
        lemma_inserts_of_others_keep_exclusive(
            grid,
            init1,
            bodies.drop_first(),
            bodies[0].0,
            idx0,
        );
    } else {
        let id = bodies[j].0;
        assert(forall|i: int| 0 <= i < init1.len() && i != idx0 ==> init1[i] == init[i]);
        assert forall|i: int| 0 <= i < init1.len() implies !init1[i].contains(id) by {
            if i == idx0 {
                assert(init1[i] == init[i].push(bodies[0].0));
                if init1[i].contains(id) {
                    let w = choose|w: int| 0 <= w < init1[i].len() && init1[i][w] == id;
                    if w < init[i].len() {
                        assert(init[i][w] == id);
                    } else {
                        assert(bodies[0].0 == id);
                    }
                }
            }
        }
        assert(distinct_body_ids(bodies.drop_first())) by {
            assert forall|k: int, l: int|
                0 <= k < l < bodies.drop_first().len() implies bodies.drop_first()[k].0
                != bodies.drop_first()[l].0 by {
                assert(bodies.drop_first()[k] == bodies[k + 1]);
                assert(bodies.drop_first()[l] == bodies[l + 1]);
            }
        }
        assert(bodies.drop_first()[j - 1] == bodies[j]);
        lemma_rebuild_exclusive(grid, init1, bodies.drop_first(), j - 1);
    }
}

/// Rebuild the grid from current positions: empty every cell, then insert
/// every body at the cell covering its position, in order.
pub fn remap(entity_map: &mut EntityMap, bodies: &Vec<(u64, Vec2)>)
    requires
        old(entity_map).wf(),
    ensures
        final(entity_map).wf(),
        final(entity_map).same_geometry(*old(entity_map)),
        final(entity_map).cells() == cells_after_inserts(
            *old(entity_map),
            empty_cells(old(entity_map).cells().len() as int),
            bodies@,
        ),
{
    let ghost g0 = *old(entity_map);
    entity_map.clear();
    proof {
        assert(entity_map.cells() =~~= empty_cells(g0.cells().len() as int));
    }
    let n = bodies.len();
    let mut i: usize = 0;
    while i < n
        invariant
            i <= n,
            n == bodies@.len(),
            entity_map.wf(),
            entity_map.same_geometry(g0),
            g0.wf(),
            entity_map.cells() == cells_after_inserts(
                g0,
                empty_cells(g0.cells().len() as int),
                bodies@.subrange(0, i as int),
            ),
        decreases n - i,
    {
        let body = bodies[i];
        let ghost pre = *entity_map;
        entity_map.add_entity(body.0, body.1);
        proof {
            let prefix = bodies@.subrange(0, i as int);
            assert(bodies@.subrange(0, i + 1 as int) =~= prefix.push(bodies@[i as int]));
            lemma_cells_after_inserts_snoc(
                g0,
                empty_cells(g0.cells().len() as int),
                prefix,
                bodies@[i as int],
            );
            assert(pre.index_of_spec(body.1) == g0.index_of_spec(body.1));
        }
        i = i + 1;
    }
    proof {
        assert(bodies@.subrange(0, n as int) =~= bodies@);
    }
}

} // verus!
