//! The program space: a dense rectangular byte store backed by a grid,
//! together with a sparse overflow map for writes beyond the dense
//! extent, and wrap-around position arithmetic over the current extent.

use vstd::prelude::*;

use crate::cursor::{Direction, Position};

verus! {

broadcast use vstd::std_specs::hash::group_hash_axioms;

/// The dense store of the program space.
#[verifier::external_type_specification]
#[verifier::external_body]
#[verifier::reject_recursive_types(T)]
pub struct ExGrid<T>(grid::Grid<T>);

/// What the dense store holds: one sequence per row, top row first,
/// each sequence holding that row's bytes left to right.
pub uninterp spec fn grid_cells(g: grid::Grid<u8>) -> Seq<Seq<u8>>;

/// Relies on grid::Grid::init: a rows x cols grid with every element
/// the given byte, and an empty grid when either dimension is zero.
#[verifier::external_body]
fn grid_init(rows: usize, cols: usize, fill: u8) -> (g: grid::Grid<u8>)
    requires
        rows * cols <= usize::MAX,
    ensures
        (rows == 0 || cols == 0) ==> grid_cells(g).len() == 0,
        (rows > 0 && cols > 0) ==> grid_cells(g).len() == rows,
        forall|y: int| 0 <= y < grid_cells(g).len() ==> (#[trigger] grid_cells(g)[y]).len()
            == cols,
        forall|y: int, x: int|
            0 <= y < grid_cells(g).len() && 0 <= x < cols ==> grid_cells(g)[y][x] == fill,
{
    grid::Grid::init(rows, cols, fill)
}

/// Relies on grid::Grid::rows: the number of rows.
#[verifier::external_body]
fn grid_rows(g: &grid::Grid<u8>) -> (r: usize)
    ensures
        r == grid_cells(*g).len(),
{
    g.rows()
}

/// Relies on grid::Grid::cols: the number of columns, which every row
/// of a grid holds.
#[verifier::external_body]
fn grid_cols(g: &grid::Grid<u8>) -> (r: usize)
    ensures
        grid_cells(*g).len() > 0 ==> r == grid_cells(*g)[0].len(),
{
    g.cols()
}

/// Relies on grid::Grid::get: the element at (row, col), or None when
/// either index is beyond the grid's bounds.
#[verifier::external_body]
fn grid_get(g: &grid::Grid<u8>, row: usize, col: usize) -> (r: Option<u8>)
    ensures
        (row < grid_cells(*g).len() && col < grid_cells(*g)[row as int].len()) ==> r == Some(
            grid_cells(*g)[row as int][col as int],
        ),
        !(row < grid_cells(*g).len() && col < grid_cells(*g)[row as int].len()) ==> r
            == None::<u8>,
{
    g.get(row, col).copied()
}

/// Relies on grid::Grid's IndexMut at (row, col): replaces the element
/// there and nothing else.
#[verifier::external_body]
fn grid_set(g: &mut grid::Grid<u8>, row: usize, col: usize, v: u8)
    requires
        0 <= row < grid_cells(*old(g)).len(),
        0 <= col < grid_cells(*old(g))[row as int].len(),
    ensures
        grid_cells(*final(g)) == grid_cells(*old(g)).update(
            row as int,
            grid_cells(*old(g))[row as int].update(col as int, v),
        ),
{
    g[(row, col)] = v;
}

/// The key under which a position is held in the sparse map.
pub open spec fn spec_pos_key(x: int, y: int) -> u64 {
    (x + 256 * y) as u64
}

pub(crate) fn pos_key(pos: Position) -> (k: u64)
    ensures
        k == spec_pos_key(pos.x as int, pos.y as int),
{
    pos.x as u64 + 256u64 * (pos.y as u64)
}

/// The mathematical model of a [`Space`]: the extent seen so far, the
/// byte unwritten cells read as, and a map holding the written cells
/// (the whole dense rectangle counts as written).
pub ghost struct SpaceModel {
    /// One more than the largest row index covered so far.
    pub rows: int,
    /// One more than the largest column index covered so far.
    pub cols: int,
    /// What a cell that was never written reads as.
    pub default: u8,
    /// The written cells, keyed by (x, y).
    pub at: Map<(int, int), u8>,
}

impl SpaceModel {
    /// Total read: the written byte, or the default.
    pub open spec fn read(self, x: int, y: int) -> u8 {
        if self.at.dom().contains((x, y)) {
            self.at[(x, y)]
        } else {
            self.default
        }
    }

    /// The model after writing `v` at `(x, y)`: the cell is recorded
    /// and the extent grows to cover it.
    pub open spec fn write(self, x: int, y: int, v: u8) -> SpaceModel {
        SpaceModel {
            rows: if y + 1 > self.rows {
                y + 1
            } else {
                self.rows
            },
            cols: if x + 1 > self.cols {
                x + 1
            } else {
                self.cols
            },
            default: self.default,
            at: self.at.insert((x, y), v),
        }
    }

    /// Every written cell lies inside the recorded extent.
    pub open spec fn extent_covers(self) -> bool {
        forall|p: (int, int)| #[trigger]
            self.at.dom().contains(p) ==> 0 <= p.0 < self.cols && 0 <= p.1 < self.rows
    }

    /// Whether one step from `p` in direction `d` wraps around the
    /// current extent (or runs over the very edge of the coordinate
    /// range).
    pub open spec fn wrap_steps_over(self, p: Position, d: Direction) -> bool {
        let c = self.cols % 256;
        let r = self.rows % 256;
        match d {
            Direction::Right => p.x == 255 || p.x + 1 >= c,
            Direction::Left => p.x == 0,
            Direction::Up => p.y == 0,
            Direction::Down => p.y == 255 || p.y + 1 >= r,
        }
    }

    /// One wrapping step from `p` in direction `d`, over the current
    /// extent reduced to a byte. Moving left from column zero lands on
    /// the column numbered `cols` itself, one past the last column;
    /// the next move brings it back into range. Moving up from row
    /// zero behaves the same way in `y`.
    pub open spec fn wrap(self, p: Position, d: Direction) -> Position {
        let c = self.cols % 256;
        let r = self.rows % 256;
        match d {
            Direction::Right => Position {
                x: if p.x == 255 {
                    0u8
                } else if p.x + 1 >= c {
                    0u8
                } else {
                    (p.x + 1) as u8
                },
                y: p.y,
            },
            Direction::Left => Position {
                x: if p.x == 0 {
                    c as u8
                } else {
                    (p.x - 1) as u8
                },
                y: p.y,
            },
            Direction::Up => Position {
                x: p.x,
                y: if p.y == 0 {
                    r as u8
                } else {
                    (p.y - 1) as u8
                },
            },
            Direction::Down => Position {
                x: p.x,
                y: if p.y == 255 {
                    0u8
                } else if p.y + 1 >= r {
                    0u8
                } else {
                    (p.y + 1) as u8
                },
            },
        }
    }
}

/// No position outside the recorded extent reads as anything but the
/// default byte: reads are total, and the extent covers every write.
pub proof fn lemma_read_outside_extent(m: SpaceModel, x: int, y: int)
    requires
        m.extent_covers(),
        x >= m.cols || y >= m.rows || x < 0 || y < 0,
    ensures
        m.read(x, y) == m.default,
{
}

/// Moving against a direction and then along it returns to the
/// starting position, whenever neither of the two steps wraps around
/// the extent.
pub proof fn lemma_wrap_round_trip(m: SpaceModel, p: Position, d: Direction)
    requires
        !m.wrap_steps_over(p, d.reverse()),
        !m.wrap_steps_over(m.wrap(p, d.reverse()), d),
    ensures
        m.wrap(m.wrap(p, d.reverse()), d) == p,
{
}

/// A write followed by a read at the same cell gives the written byte,
/// and reads elsewhere are unchanged.
pub proof fn lemma_write_read(m: SpaceModel, x: int, y: int, v: u8)
    ensures
        m.write(x, y, v).read(x, y) == v,
        forall|x2: int, y2: int|
            (x2 != x || y2 != y) ==> #[trigger] m.write(x, y, v).read(x2, y2) == m.read(x2, y2),
{
}

/// Writing preserves coverage of the extent, for cells at non-negative
/// coordinates.
pub proof fn lemma_write_extent_covers(m: SpaceModel, x: int, y: int, v: u8)
    requires
        m.extent_covers(),
        0 <= x,
        0 <= y,
    ensures
        m.write(x, y, v).extent_covers(),
{
}

// ------------------------------------------------------------------
// Splitting a program into lines.
// ------------------------------------------------------------------
/// The rows of `s` split at every newline, keeping the empty row that
/// a trailing newline opens. A program always has at least one raw
/// row, possibly empty.
pub open spec fn split_raw(s: Seq<u8>) -> Seq<Seq<u8>>
    decreases s.len(),
{
    if s.len() == 0 {
        seq![Seq::<u8>::empty()]
    } else {
        let pre = split_raw(s.drop_last());
        if s.last() == 10 {
            pre.push(Seq::<u8>::empty())
        } else {
            pre.update(pre.len() - 1, pre.last().push(s.last()))
        }
    }
}

/// The rows of a program: split at newlines, with no row for a
/// trailing newline, and no rows at all for an empty program.
pub open spec fn program_lines(s: Seq<u8>) -> Seq<Seq<u8>> {
    if s.len() == 0 {
        Seq::empty()
    } else if s.last() == 10 {
        split_raw(s).drop_last()
    } else {
        split_raw(s)
    }
}

/// The length of the longest row.
pub open spec fn max_line_len(ls: Seq<Seq<u8>>) -> int
    decreases ls.len(),
{
    if ls.len() == 0 {
        0int
    } else {
        let rest = max_line_len(ls.drop_last());
        if ls.last().len() > rest {
            ls.last().len() as int
        } else {
            rest
        }
    }
}

/// The byte a freshly loaded program shows at `(x, y)`: the program
/// byte where one exists, the default space everywhere else.
pub open spec fn program_byte(s: Seq<u8>, x: int, y: int) -> u8 {
    let ls = program_lines(s);
    if 0 <= y < ls.len() && 0 <= x < ls[y].len() {
        ls[y][x]
    } else {
        32u8
    }
}

/// A program always splits into at least one raw row.
proof fn lemma_split_raw_nonempty(s: Seq<u8>)
    ensures
        split_raw(s).len() >= 1,
    decreases s.len(),
{
    if s.len() != 0 {
        lemma_split_raw_nonempty(s.drop_last());
    }
}

/// Every raw row of a prefix of `s` is a prefix of the matching raw
/// row of `s`, and all but the last are whole rows of `s`.
proof fn lemma_split_raw_prefix(s: Seq<u8>, i: int)
    requires
        0 <= i <= s.len(),
    ensures
        split_raw(s.take(i)).len() >= 1,
        split_raw(s.take(i)).len() <= split_raw(s).len(),
        forall|y: int|
            0 <= y < split_raw(s.take(i)).len() - 1 ==> #[trigger] split_raw(s.take(i))[y]
                == split_raw(s)[y],
        split_raw(s.take(i)).last() == split_raw(s)[split_raw(s.take(i)).len() - 1].take(
            split_raw(s.take(i)).last().len() as int,
        ),
        split_raw(s.take(i)).last().len() <= split_raw(s)[split_raw(s.take(i)).len() - 1].len(),
    decreases s.len() - i,
{
    lemma_split_raw_nonempty(s.take(i));
    if i == s.len() {
        assert(s.take(i) == s);
        lemma_split_raw_nonempty(s);
        let p = split_raw(s);
        assert(p.last() =~= p[p.len() - 1].take(p.last().len() as int));
    } else {
        lemma_split_raw_prefix(s, i + 1);
        let a = s.take(i);
        let b = s.take(i + 1);
        assert(b.drop_last() =~= a);
        assert(b.last() == s[i]);
        let pa = split_raw(a);
        let pb = split_raw(b);
        lemma_split_raw_nonempty(a);
        lemma_split_raw_nonempty(b);
        let full = split_raw(s);
        if s[i] == 10 {
            assert(pb == pa.push(Seq::<u8>::empty()));
            // the row that the prefix closes here is a whole row of s
            assert(pa.last() == pb[pa.len() - 1]);
            assert(pb[pa.len() - 1] == full[pa.len() - 1]);
            assert(pa.last() =~= full[pa.len() - 1].take(pa.last().len() as int));
            assert forall|y: int| 0 <= y < pa.len() - 1 implies #[trigger] pa[y] == full[y] by {
                assert(pa[y] == pb[y]);
                assert(pb[y] == full[y]);
            }
        } else {
            assert(pb == pa.update(pa.len() - 1, pa.last().push(s[i])));
            assert(pb.last() == pa.last().push(s[i]));
            assert(pb.len() == pa.len());
            let row = full[pa.len() - 1];
            assert(pb.last() == row.take(pb.last().len() as int));
            assert(pa.last() =~= row.take(pa.last().len() as int)) by {
                assert forall|j: int| 0 <= j < pa.last().len() implies pa.last()[j] == row[j] by {
                    assert(pb.last()[j] == row.take(pb.last().len() as int)[j]);
                    assert(pb.last()[j] == pa.last()[j]);
                }
            }
            assert forall|y: int| 0 <= y < pa.len() - 1 implies #[trigger] pa[y] == full[y] by {
                assert(pa[y] == pb[y]);
                assert(pb[y] == full[y]);
            }
        }
    }
}

/// No raw row is longer than the longest row of the whole program.
proof fn lemma_max_line_len_bound(ls: Seq<Seq<u8>>, y: int)
    requires
        0 <= y < ls.len(),
    ensures
        ls[y].len() <= max_line_len(ls),
    decreases ls.len(),
{
    if y < ls.len() - 1 {
        lemma_max_line_len_bound(ls.drop_last(), y);
    }
}

// ------------------------------------------------------------------
// The space itself.
// ------------------------------------------------------------------
/// The program space: a dense grid sized to the program as loaded,
/// plus a sparse map for cells written beyond it. The recorded extent
/// `(rows, cols)` only ever grows.
pub struct Space {
    grid: grid::Grid<u8>,
    map: std::collections::HashMap<u64, u8>,
    rows: usize,
    cols: usize,
    default: u8,
}

impl View for Space {
    type V = SpaceModel;

    closed spec fn view(&self) -> SpaceModel {
        SpaceModel {
            rows: self.rows as int,
            cols: self.cols as int,
            default: self.default,
            at: Map::new(
                |p: (int, int)|
                    {
                        ||| (0 <= p.1 < grid_cells(self.grid).len() && 0 <= p.0 < grid_cells(
                            self.grid,
                        )[p.1].len())
                        ||| (0 <= p.0 < 256 && 0 <= p.1 < 256 && self.map@.contains_key(
                            spec_pos_key(p.0, p.1),
                        ))
                    },
                |p: (int, int)|
                    if 0 <= p.1 < grid_cells(self.grid).len() && 0 <= p.0 < grid_cells(
                        self.grid,
                    )[p.1].len() {
                        grid_cells(self.grid)[p.1][p.0]
                    } else {
                        self.map@[spec_pos_key(p.0, p.1)]
                    },
            ),
        }
    }
}

impl Space {
    /// The space is internally consistent: the dense grid is
    /// rectangular and inside the recorded extent, and so is every
    /// sparse cell.
    pub closed spec fn wf(&self) -> bool {
        &&& grid_cells(self.grid).len() <= self.rows
        &&& forall|y: int|
            0 <= y < grid_cells(self.grid).len() ==> (#[trigger] grid_cells(self.grid)[y]).len()
                == grid_cells(self.grid)[0].len()
        &&& (grid_cells(self.grid).len() > 0 ==> grid_cells(self.grid)[0].len() <= self.cols)
        &&& forall|k: u64| #[trigger]
            self.map@.contains_key(k) ==> k < 0x10000 && (k % 256) < self.cols && (k / 256)
                < self.rows
    }

    /// An empty space of the given size. Every cell reads as zero.
    pub fn with_size(rows: u16, cols: u16) -> (s: Space)
        ensures
            s@.rows == rows as int,
            s@.cols == cols as int,
            s@.default == 0u8,
            forall|x: int, y: int| #[trigger] s@.read(x, y) == 0u8,
            s.wf(),
    {
        let rows_us: usize = rows as usize;
        let cols_us: usize = cols as usize;
        proof {
            assert(rows_us * cols_us <= usize::MAX) by (nonlinear_arith)
                requires
                    rows_us <= 0xFFFF && cols_us <= 0xFFFF && usize::MAX >= 0xFFFF_FFFF,
            ;
        }
        let grid = grid_init(rows_us, cols_us, 0);
        let s = Space {
            grid,
            map: std::collections::HashMap::new(),
            rows: rows_us,
            cols: cols_us,
            default: 0,
        };
        proof {
            assert(forall|x: int, y: int| #[trigger] s@.read(x, y) == 0u8);
        }
        s
    }

    /// The space a program's bytes load into: the dense extent covers
    /// the program's rows and its longest row, row-major, with short
    /// rows padded by spaces; unwritten cells read as a space.
    pub fn new(program: &[u8]) -> (s: Space)
        requires
            program@.len() < 0x10000,
        ensures
            s@.rows == program_lines(program@).len(),
            s@.cols == max_line_len(program_lines(program@)),
            s@.default == 32u8,
            forall|x: int, y: int| #[trigger] s@.read(x, y) == program_byte(program@, x, y),
            s.wf(),
    {
        let ghost sq = program@;
        let mut cols: usize = 0;
        let mut rows: usize = 0;
        let mut last_line: usize = 0;
        let mut i: usize = 0;
        while i < program.len()
            invariant
                0 <= i <= sq.len() < 0x10000,
                sq == program@,
                rows == split_raw(sq.take(i as int)).len() - 1,
                last_line == i - split_raw(sq.take(i as int)).last().len(),
                cols == max_line_len(split_raw(sq.take(i as int)).drop_last()),
                rows <= i,
                cols <= i,
                last_line <= i,
            decreases sq.len() - i,
        {
            proof {
                lemma_split_raw_nonempty(sq.take(i as int));
                assert(sq.take(i + 1).drop_last() =~= sq.take(i as int));
                assert(sq.take(i + 1).last() == sq[i as int]);
            }
            let ghost pa = split_raw(sq.take(i as int));
            let c = program[i];
            if c == 10 {
                proof {
                    assert(split_raw(sq.take(i + 1)) == pa.push(Seq::<u8>::empty()));
                    assert(split_raw(sq.take(i + 1)).drop_last() =~= pa);
                }
                if i - last_line > cols {
                    cols = i - last_line;
                }
                last_line = i + 1;
                rows = rows + 1;
            } else {
                proof {
                    let pb = split_raw(sq.take(i + 1));
                    assert(pb == pa.update(pa.len() - 1, pa.last().push(sq[i as int])));
                    assert(pb.drop_last() =~= pa.drop_last());
                    assert(pb.last().len() == pa.last().len() + 1);
                }
            }
            i = i + 1;
        }
        proof {
            assert(sq.take(sq.len() as int) =~= sq);
            lemma_split_raw_nonempty(sq);
        }
        let ghost raw = split_raw(sq);
        if last_line != program.len() {
            proof {
                assert(raw.last().len() > 0);
                if sq.len() > 0 && sq.last() == 10 {
                    assert(raw == split_raw(sq.drop_last()).push(Seq::<u8>::empty()));
                    assert(false);
                }
                assert(program_lines(sq) == raw);
            }
            if program.len() - last_line > cols {
                cols = program.len() - last_line;
            }
            rows = rows + 1;
            proof {
                assert(rows == program_lines(sq).len());
                assert(cols == max_line_len(program_lines(sq)));
            }
        } else {
            proof {
                assert(raw.last().len() == 0);
                if sq.len() > 0 {
                    if sq.last() != 10 {
                        assert(raw == split_raw(sq.drop_last()).update(
                            split_raw(sq.drop_last()).len() - 1,
                            split_raw(sq.drop_last()).last().push(sq.last()),
                        ));
                        lemma_split_raw_nonempty(sq.drop_last());
                        assert(false);
                    }
                    assert(program_lines(sq) == raw.drop_last());
                    assert(rows == program_lines(sq).len());
                    assert(cols == max_line_len(program_lines(sq)));
                } else {
                    assert(program_lines(sq) =~= Seq::<Seq<u8>>::empty());
                }
            }
        }
        let ghost lines = program_lines(sq);
        proof {
            assert(rows <= 0x10000 && cols < 0x10000);
            assert(rows * cols <= usize::MAX) by (nonlinear_arith)
                requires
                    rows <= 0x10000 && cols < 0x10000 && usize::MAX >= 0xFFFF_FFFF,
            ;
        }
        let mut grid = grid_init(rows, cols, 32);
        let ghost grows: int = grid_cells(grid).len() as int;
        let mut last_line: usize = 0;
        let mut row: usize = 0;
        let mut i: usize = 0;
        while i < program.len()
            invariant
                0 <= i <= sq.len() < 0x10000,
                sq == program@,
                raw == split_raw(sq),
                lines == program_lines(sq),
                lines.len() == rows,
                max_line_len(lines) == cols,
                row == split_raw(sq.take(i as int)).len() - 1,
                last_line == i - split_raw(sq.take(i as int)).last().len(),
                row <= i,
                last_line <= i,
                grid_cells(grid).len() == grows,
                grows == if rows == 0 || cols == 0 {
                    0int
                } else {
                    rows as int
                },
                forall|y: int|
                    0 <= y < grows ==> (#[trigger] grid_cells(grid)[y]).len() == cols,
                forall|y: int, x: int|
                    0 <= y < grows && 0 <= x < cols ==> (#[trigger] grid_cells(grid)[y][x]) == (
                    if y < split_raw(sq.take(i as int)).len() && x < split_raw(
                        sq.take(i as int),
                    )[y].len() {
                        split_raw(sq.take(i as int))[y][x]
                    } else {
                        32u8
                    }),
            decreases sq.len() - i,
        {
            proof {
                lemma_split_raw_nonempty(sq.take(i as int));
                assert(sq.take(i + 1).drop_last() =~= sq.take(i as int));
                assert(sq.take(i + 1).last() == sq[i as int]);
                lemma_split_raw_prefix(sq, i + 1);
            }
            let ghost pa = split_raw(sq.take(i as int));
            let ghost pb = split_raw(sq.take(i + 1));
            let c = program[i];
            if c == 10 {
                last_line = i + 1;
                row = row + 1;
                proof {
                    assert(pb == pa.push(Seq::<u8>::empty()));
                    assert forall|y: int, x: int|
                        0 <= y < grows && 0 <= x < cols implies (#[trigger] grid_cells(
                        grid,
                    )[y][x]) == (if y < pb.len() && x < pb[y].len() {
                        pb[y][x]
                    } else {
                        32u8
                    }) by {
                        if y < pb.len() {
                            if y < pa.len() {
                                assert(pb[y] == pa[y]);
                            } else {
                                assert(pb[y].len() == 0);
                            }
                        }
                    }
                }
            } else {
                proof {
                    assert(pb == pa.update(pa.len() - 1, pa.last().push(sq[i as int])));
                    // the byte lands inside the dense extent
                    assert(pb.last().len() <= split_raw(sq)[pa.len() - 1].len());
                    assert(pa.len() - 1 < lines.len());
                    assert(lines[pa.len() - 1] == split_raw(sq)[pa.len() - 1]);
                    lemma_max_line_len_bound(lines, pa.len() - 1);
                    assert(i - last_line < cols);
                    assert(row < rows);
                }
                grid_set(&mut grid, row, i - last_line, c);
                proof {
                    assert forall|y: int, x: int|
                        0 <= y < grows && 0 <= x < cols implies (#[trigger] grid_cells(
                        grid,
                    )[y][x]) == (if y < pb.len() && x < pb[y].len() {
                        pb[y][x]
                    } else {
                        32u8
                    }) by {
                        if y == pa.len() - 1 {
                            assert(pb[y] == pa.last().push(sq[i as int]));
                            if x < pb[y].len() {
                                if x < pa.last().len() {
                                    assert(pb[y][x] == pa[y][x]);
                                } else {
                                    assert(x == pa.last().len());
                                    assert(pb[y][x] == sq[i as int]);
                                }
                            }
                        } else if 0 <= y < pa.len() {
                            assert(pb[y] == pa[y]);
                        }
                    }
                }
            }
            i = i + 1;
        }
        proof {
            assert(sq.take(sq.len() as int) =~= sq);
        }
        let s = Space {
            grid,
            map: std::collections::HashMap::new(),
            rows,
            cols,
            default: 32,
        };
        proof {
            assert forall|x: int, y: int| #[trigger]
                s@.read(x, y) == program_byte(sq, x, y) by {
                if 0 <= y < grows && 0 <= x < cols {
                    assert(s@.at.dom().contains((x, y)));
                    assert(s@.read(x, y) == grid_cells(s.grid)[y][x]);
                    if y < lines.len() && x < lines[y].len() {
                        if lines.len() < raw.len() {
                            assert(lines[y] == raw[y]);
                        }
                    } else {
                        if y < raw.len() && x < raw[y].len() {
                            assert(y == raw.len() - 1 && lines.len() == raw.len() - 1);
                            assert(raw[y].len() == 0);
                        }
                    }
                } else {
                    assert(!s@.at.dom().contains((x, y)));
                    assert(s@.read(x, y) == 32u8);
                    if 0 <= y < lines.len() && 0 <= x < lines[y].len() {
                        if lines.len() < raw.len() {
                            assert(lines[y] == raw[y]);
                        }
                        lemma_max_line_len_bound(lines, y);
                        assert(false);
                    }
                }
            }
        }
        s
    }

    /// Where the space wraps around vertically, reduced to 16 bits.
    pub fn rows(&self) -> (r: u16)
        ensures
            r as int == self@.rows % 0x10000,
    {
        (self.rows % 0x10000) as u16
    }

    /// Where the space wraps around horizontally, reduced to 16 bits.
    pub fn cols(&self) -> (r: u16)
        ensures
            r as int == self@.cols % 0x10000,
    {
        (self.cols % 0x10000) as u16
    }

    /// Retrieves the cell at a position: total, with the default byte
    /// for any address that was never written.
    pub fn get_cell(&self, pos: Position) -> (r: u8)
        requires
            self.wf(),
        ensures
            r == self@.read(pos.x as int, pos.y as int),
    {
        match self.lookup_cell(pos) {
            Some(c) => c,
            None => self.default,
        }
    }

    /// The cell at a position if it was ever written (the whole dense
    /// rectangle counts as written), and None otherwise.
    pub fn lookup_cell(&self, pos: Position) -> (r: Option<u8>)
        requires
            self.wf(),
        ensures
            self@.at.dom().contains((pos.x as int, pos.y as int)) ==> r == Some(
                self@.at[(pos.x as int, pos.y as int)],
            ),
            !self@.at.dom().contains((pos.x as int, pos.y as int)) ==> r == None::<u8>,
    {
        let x = pos.x as usize;
        let y = pos.y as usize;
        if x >= grid_cols(&self.grid) || y >= grid_rows(&self.grid) {
            match self.map.get(&pos_key(pos)) {
                Some(c) => Some(*c),
                None => None,
            }
        } else {
            grid_get(&self.grid, y, x)
        }
    }

    /// Updates the cell at a position, growing the recorded extent to
    /// cover it.
    pub fn set_cell(&mut self, pos: Position, cell: u8)
        requires
            old(self).wf(),
        ensures
            final(self)@ == old(self)@.write(pos.x as int, pos.y as int, cell),
            final(self).wf(),
    {
        let ghost xs = pos.x as int;
        let ghost ys = pos.y as int;
        let x = pos.x as usize;
        let y = pos.y as usize;
        let gc = grid_cols(&self.grid);
        let gr = grid_rows(&self.grid);
        if x >= gc || y >= gr {
            self.map.insert(pos_key(pos), cell);
        } else {
            grid_set(&mut self.grid, y, x, cell);
        }
        if x + 1 > self.cols {
            self.cols = x + 1;
        }
        if y + 1 > self.rows {
            self.rows = y + 1;
        }
        proof {
            assert(self@.at =~= old(self)@.write(xs, ys, cell).at) by {
                assert forall|p: (int, int)| true implies (self@.at.dom().contains(p) == old(
                    self,
                )@.write(xs, ys, cell).at.dom().contains(p)) && (self@.at.dom().contains(p)
                    ==> self@.at[p] == old(self)@.write(xs, ys, cell).at[p]) by {
                    if 0 <= p.0 < 256 && 0 <= p.1 < 256 && (p.0 != xs || p.1 != ys) {
                        assert(spec_pos_key(p.0, p.1) != spec_pos_key(xs, ys))
                            by (nonlinear_arith)
                            requires
                                0 <= p.0 < 256 && 0 <= p.1 < 256 && 0 <= xs < 256 && 0 <= ys < 256
                                    && (p.0 != xs || p.1 != ys),
                        ;
                    }
                }
            }
            assert(self@ == old(self)@.write(xs, ys, cell));
            assert forall|k: u64| #[trigger] self.map@.contains_key(k) implies k < 0x10000 && (k
                % 256) < self.cols && (k / 256) < self.rows by {
                if !old(self).map@.contains_key(k) {
                    assert(k == spec_pos_key(xs, ys));
                    assert(k == xs + 256 * ys);
                    assert(k % 256 == xs && k / 256 == ys) by (nonlinear_arith)
                        requires
                            0 <= xs < 256 && 0 <= ys < 256 && k == xs + 256 * ys,
                    ;
                }
            }
        }
    }

    /// One step from `pos` in direction `dir`, wrapping over the
    /// current extent.
    pub fn move_pos(&self, pos: Position, dir: Direction) -> (r: Position)
        ensures
            r == self@.wrap(pos, dir),
    {
        let cols = (self.cols % 256) as u8;
        let rows = (self.rows % 256) as u8;
        let x = pos.x;
        let y = pos.y;
        match dir {
            Direction::Right => {
                let nx = if x == 255 {
                    0
                } else if x + 1 >= cols {
                    0
                } else {
                    x + 1
                };
                Position { x: nx, y }
            },
            Direction::Left => {
                let nx = if x == 0 {
                    cols
                } else {
                    x - 1
                };
                Position { x: nx, y }
            },
            Direction::Up => {
                let ny = if y == 0 {
                    rows
                } else {
                    y - 1
                };
                Position { x, y: ny }
            },
            Direction::Down => {
                let ny = if y == 255 {
                    0
                } else if y + 1 >= rows {
                    0
                } else {
                    y + 1
                };
                Position { x, y: ny }
            },
        }
    }

    /// A well-formed space's model keeps every written cell inside the
    /// recorded extent.
    pub proof fn lemma_wf_extent_covers(&self)
        requires
            self.wf(),
        ensures
            self@.extent_covers(),
    {
        assert forall|p: (int, int)| #[trigger] self@.at.dom().contains(p) implies 0 <= p.0
            < self@.cols && 0 <= p.1 < self@.rows by {
            if !(0 <= p.1 < grid_cells(self.grid).len() && 0 <= p.0 < grid_cells(
                self.grid,
            )[p.1].len()) {
                let k = spec_pos_key(p.0, p.1);
                assert(self.map@.contains_key(k));
                assert(k == p.0 + 256 * p.1);
                assert(k % 256 == p.0 && k / 256 == p.1) by (nonlinear_arith)
                    requires
                        0 <= p.0 < 256 && 0 <= p.1 < 256 && k == p.0 + 256 * p.1,
                ;
            }
        }
    }
}

} // verus!
