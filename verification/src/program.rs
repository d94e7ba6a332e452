//! Executable programs as a capability: a rectangular byte grid with
//! wrap-around movement, and a vector-backed implementation that
//! slices its rows out of the raw program bytes.

use vstd::prelude::*;

use crate::cursor::{Direction, Position};
use crate::terminal::{lemma_newline_positions_sorted, newline_positions};

verus! {

/// One step from `pos` in `dir`, wrapping at a `width` x `height`
/// extent: moving left from column zero lands on the column numbered
/// `width` itself, one past the last column, and moving up from row
/// zero does the same in `y`; the next step corrects it.
pub open spec fn wrap_at(width: u8, height: u8, pos: Position, dir: Direction) -> Position {
    match dir {
        Direction::Right => Position {
            x: if pos.x == 255 {
                0u8
            } else if pos.x + 1 >= width {
                0u8
            } else {
                (pos.x + 1) as u8
            },
            y: pos.y,
        },
        Direction::Left => Position {
            x: if pos.x == 0 {
                width
            } else {
                (pos.x - 1) as u8
            },
            y: pos.y,
        },
        Direction::Up => Position {
            x: pos.x,
            y: if pos.y == 0 {
                height
            } else {
                (pos.y - 1) as u8
            },
        },
        Direction::Down => Position {
            x: pos.x,
            y: if pos.y == 255 {
                0u8
            } else if pos.y + 1 >= height {
                0u8
            } else {
                (pos.y + 1) as u8
            },
        },
    }
}

/// A program that can be executed: a byte per position within a
/// wrapping extent, total reads, and row access.
pub trait Program: Sized {
    /// The program's own consistency condition; reads expect it.
    spec fn inv(&self) -> bool;

    /// Where the program wraps around horizontally, as a
    /// specification value.
    spec fn spec_width(&self) -> u8;

    /// Where the program wraps around vertically, as a specification
    /// value.
    spec fn spec_height(&self) -> u8;

    /// The byte at a position, as a specification value; out of
    /// bounds reads give a space.
    spec fn spec_get(&self, pos: Position) -> u8;

    /// Where the program wraps around horizontally. This is also one
    /// larger than the largest column index.
    fn width(&self) -> (w: u8)
        ensures
            w == self.spec_width();

    /// Where the program wraps around vertically. This is also one
    /// larger than the largest row index.
    fn height(&self) -> (h: u8)
        ensures
            h == self.spec_height();

    /// Retrieves the opcode at a position; out of bounds reads give a
    /// space.
    fn get(&self, pos: Position) -> (b: u8)
        requires
            self.inv(),
        ensures
            b == self.spec_get(pos);

    /// Retrieves the specified row of the program, if it exists.
    fn get_line(&self, y: u8) -> (r: Option<Vec<u8>>)
        requires
            self.inv(),
    ;

    /// One step from `pos` in `dir`, wrapping at the maximum and
    /// minimum vertical and horizontal extents.
    fn move_pos(&self, pos: Position, dir: Direction) -> (r: Position)
        ensures
            r == wrap_at(self.spec_width(), self.spec_height(), pos, dir),
    {
        let width = self.width();
        let height = self.height();
        match dir {
            Direction::Right => {
                let x = if pos.x == 255 {
                    0
                } else if pos.x + 1 >= width {
                    0
                } else {
                    pos.x + 1
                };
                Position { x, y: pos.y }
            },
            Direction::Left => {
                let x = if pos.x == 0 {
                    width
                } else {
                    pos.x - 1
                };
                Position { x, y: pos.y }
            },
            Direction::Up => {
                let y = if pos.y == 0 {
                    height
                } else {
                    pos.y - 1
                };
                Position { x: pos.x, y }
            },
            Direction::Down => {
                let y = if pos.y == 255 {
                    0
                } else if pos.y + 1 >= height {
                    0
                } else {
                    pos.y + 1
                };
                Position { x: pos.x, y }
            },
        }
    }
}

/// The row boundaries a vector program records for raw bytes `s`: the
/// position of every newline, plus the end of the data when the data
/// does not end in a newline (or holds none at all).
pub open spec fn line_end_positions(s: Seq<u8>) -> Seq<int> {
    let nl = newline_positions(s);
    if nl.len() == 0 {
        seq![s.len() as int]
    } else if nl.last() != s.len() - 1 {
        nl.push(s.len() as int)
    } else {
        nl
    }
}

/// Where a row of raw bytes `s` starts: right after the previous
/// row's end.
pub open spec fn line_start(s: Seq<u8>, y: int) -> int {
    if y == 0 {
        0int
    } else {
        line_end_positions(s)[y - 1] + 1
    }
}

/// The row `y` slices out of raw bytes `s`.
pub open spec fn line_of(s: Seq<u8>, y: int) -> Seq<u8> {
    s.subrange(line_start(s, y), line_end_positions(s)[y])
}

/// The byte a vector program shows at a position: the byte of its
/// row where one exists, a space everywhere else.
pub open spec fn byte_at(s: Seq<u8>, x: int, y: int) -> u8 {
    if 0 <= y < line_end_positions(s).len() && 0 <= x < line_of(s, y).len() {
        line_of(s, y)[x]
    } else {
        32u8
    }
}

/// The recorded row ends are increasing and stay within the data
/// (with the data's end itself as the only possible last entry).
pub proof fn lemma_line_end_positions_sorted(s: Seq<u8>)
    ensures
        line_end_positions(s).len() >= 1,
        forall|i: int|
            0 <= i < line_end_positions(s).len() ==> 0 <= #[trigger] line_end_positions(s)[i]
                <= s.len(),
        forall|i: int, j: int|
            0 <= i < j < line_end_positions(s).len() ==> line_end_positions(s)[i]
                < line_end_positions(s)[j],
{
    lemma_newline_positions_sorted(s);
    let nl = newline_positions(s);
    if nl.len() > 0 && nl.last() != s.len() - 1 {
        assert forall|i: int, j: int|
            0 <= i < j < line_end_positions(s).len() implies line_end_positions(s)[i]
            < line_end_positions(s)[j] by {
            if j < nl.len() {
            } else {
                assert(line_end_positions(s)[j] == s.len());
                assert(line_end_positions(s)[i] == nl[i]);
            }
        }
    }
}

/// A program that stores its data in vectors: the raw bytes and the
/// recorded end of each row.
pub struct VecProgram {
    data: Vec<u8>,
    line_ends: Vec<usize>,
}

impl VecProgram {
    /// The raw program bytes.
    pub closed spec fn spec_data(&self) -> Seq<u8> {
        self.data@
    }

    /// The recorded row ends match the raw bytes.
    pub closed spec fn wf(&self) -> bool {
        self.line_ends@.map(|i: int, v: usize| v as int) == line_end_positions(self.data@)
    }

    /// Slices a program out of raw bytes: rows split at newlines, a
    /// trailing unterminated row kept, and at least one (possibly
    /// empty) row for data without newlines.
    pub fn from_bytes(data: Vec<u8>) -> (r: VecProgram)
        ensures
            r.wf(),
            r.spec_data() == data@,
    {
        let ghost sq = data@;
        let mut line_ends: Vec<usize> = Vec::new();
        let mut any: bool = false;
        let mut last: usize = 0;
        let mut i: usize = 0;
        while i < data.len()
            invariant
                0 <= i <= sq.len(),
                sq == data@,
                line_ends@.map(|t: int, v: usize| v as int) == newline_positions(sq.take(i as int)),
                any == (newline_positions(sq.take(i as int)).len() > 0),
                any ==> line_ends@.len() > 0 && last as int == newline_positions(
                    sq.take(i as int),
                ).last(),
            decreases sq.len() - i,
        {
            proof {
                assert(sq.take(i + 1).drop_last() =~= sq.take(i as int));
                assert(sq.take(i + 1).last() == sq[i as int]);
            }
            if data[i] == 10 {
                line_ends.push(i);
                any = true;
                last = i;
                proof {
                    assert(line_ends@.map(|t: int, v: usize| v as int) =~= newline_positions(
                        sq.take(i + 1),
                    ));
                }
            } else {
                proof {
                    assert(line_ends@.map(|t: int, v: usize| v as int) =~= newline_positions(
                        sq.take(i + 1),
                    ));
                }
            }
            i = i + 1;
        }
        proof {
            assert(sq.take(sq.len() as int) =~= sq);
        }
        if any {
            if last != data.len() - 1 {
                line_ends.push(data.len());
                proof {
                    assert(line_ends@.map(|t: int, v: usize| v as int) =~= line_end_positions(sq));
                }
            }
        } else {
            line_ends.push(data.len());
            proof {
                assert(line_ends@.map(|t: int, v: usize| v as int) =~= line_end_positions(sq));
            }
        }
        VecProgram { data, line_ends }
    }
}

impl Program for VecProgram {
    closed spec fn inv(&self) -> bool {
        self.wf()
    }

    /// The published wrap extent: columns 0 to 254.
    closed spec fn spec_width(&self) -> u8 {
        255u8
    }

    /// The published wrap extent: rows 0 to 254.
    closed spec fn spec_height(&self) -> u8 {
        255u8
    }

    closed spec fn spec_get(&self, pos: Position) -> u8 {
        byte_at(self.data@, pos.x as int, pos.y as int)
    }

    fn width(&self) -> (w: u8) {
        255
    }

    fn height(&self) -> (h: u8) {
        255
    }

    fn get(&self, pos: Position) -> (b: u8) {
        match self.get_line(pos.y) {
            Some(line) => {
                if (pos.x as usize) < line.len() {
                    line[pos.x as usize]
                } else {
                    32
                }
            },
            None => 32,
        }
    }

    /// The row `y`, if the program has that many rows.
    fn get_line(&self, y: u8) -> (r: Option<Vec<u8>>)
        ensures
            (y as int) >= line_end_positions(self.spec_data()).len() ==> r == None::<Vec<u8>>,
            (y as int) < line_end_positions(self.spec_data()).len() ==> r is Some
                && r.unwrap()@ == line_of(self.spec_data(), y as int),
    {
        proof {
            lemma_line_end_positions_sorted(self.spec_data());
        }
        let yy = y as usize;
        let dlen = self.data.len();
        if yy >= self.line_ends.len() {
            return None;
        }
        proof {
            let ends = line_end_positions(self.spec_data());
            if yy > 0 {
                assert(self.line_ends@.map(|t: int, v: usize| v as int)[yy - 1] == ends[yy - 1]);
            }
            assert(self.line_ends@.map(|t: int, v: usize| v as int)[yy as int] == ends[yy as int]);
        }
        let lower: usize = if yy == 0 {
            0
        } else {
            self.line_ends[yy - 1] + 1
        };
        let upper: usize = self.line_ends[yy];
        let mut out: Vec<u8> = Vec::new();
        let mut k = lower;
        while k < upper
            invariant
                lower <= k <= upper <= self.data@.len(),
                out@ == self.data@.subrange(lower as int, k as int),
            decreases upper - k,
        {
            out.push(self.data[k]);
            proof {
                assert(out@ =~= self.data@.subrange(lower as int, k + 1));
            }
            k = k + 1;
        }
        proof {
            assert(out@ =~= line_of(self.spec_data(), y as int));
        }
        Some(out)
    }
}

} // verus!
