//! A self-contained runtime for the befunge-93 dialect: a program
//! held as a vector of rows, a cursor with wide coordinates, and a
//! one-shot stepper without space-skipping or error statuses.

use vstd::prelude::*;

use crate::space::max_line_len;

verus! {

/// A 2d position in this runtime's program space, with machine-wide
/// coordinates.
#[derive(PartialEq, Eq, Structural, Hash, Clone, Copy, Debug)]
pub struct Position {
    /// The column, indexed left to right.
    pub x: usize,
    /// The row, indexed top to bottom.
    pub y: usize,
}

/// A cardinal direction in the program space.
#[derive(PartialEq, Eq, Structural, Hash, Clone, Copy, Debug)]
pub enum Direction {
    /// The negative y direction.
    Up,
    /// The positive y direction.
    Down,
    /// The negative x direction.
    Left,
    /// The positive x direction.
    Right,
}

/// What one step of the runtime did.
#[derive(PartialEq, Eq, Structural, Hash, Clone, Copy, Debug)]
pub enum Status {
    /// An instruction executed.
    Completed,
    /// An input instruction found no input; it will be retried.
    Waiting,
    /// The program ended.
    Terminated,
}

/// The byte a row store shows at `(x, y)`: a space beyond the rows or
/// beyond a row's end.
pub open spec fn row_byte(lines: Seq<Seq<u8>>, x: int, y: int) -> u8 {
    if 0 <= y < lines.len() && 0 <= x < lines[y].len() {
        lines[y][x]
    } else {
        32u8
    }
}

/// A sequence padded with `fill` up to length `n` (or left alone when
/// it is already that long).
pub open spec fn padded<T>(s: Seq<T>, n: int, fill: T) -> Seq<T> {
    if s.len() >= n {
        s
    } else {
        Seq::new(n as nat, |i: int| if i < s.len() { s[i] } else { fill })
    }
}

/// Writing `v` at `(x, y)` into a row store: rows are grown to reach
/// the cell, the touched row is padded with spaces, and the recorded
/// extent follows the growth (the width only when the row grew).
pub open spec fn rows_put(lines: Seq<Seq<u8>>, width: int, height: int, x: int, y: int, v: u8) -> (
    Seq<Seq<u8>>,
    int,
    int,
) {
    let lines1 = padded(lines, y + 1, Seq::<u8>::empty());
    let height1 = if lines.len() < y + 1 {
        y + 1
    } else {
        height
    };
    let row = lines1[y];
    let grow_row = row.len() < x + 1;
    let row1 = padded(row, x + 1, 32u8);
    let width1 = if grow_row && x + 1 > width {
        x + 1
    } else {
        width
    };
    (lines1.update(y, row1.update(x, v)), width1, height1)
}

/// The observable state of a befunge-93 runtime.
pub ghost struct B93Machine {
    /// The program rows.
    pub lines: Seq<Seq<u8>>,
    /// Where the program wraps horizontally.
    pub width: int,
    /// Where the program wraps vertically.
    pub height: int,
    /// The cursor position, as (x, y).
    pub pos: (int, int),
    /// The cursor direction.
    pub dir: Direction,
    /// The byte stack, bottom first.
    pub stack: Seq<u8>,
    /// Whether the cursor reads bytes literally.
    pub quote: bool,
    /// The bytes waiting to be read.
    pub input: Seq<u8>,
    /// The bytes written so far.
    pub output: Seq<u8>,
}

impl B93Machine {
    /// One wrapping step of the cursor along its direction.
    pub open spec fn wrap(self, p: (int, int), d: Direction) -> (int, int) {
        match d {
            Direction::Right => (
                if p.0 + 1 >= self.width {
                    0int
                } else {
                    p.0 + 1
                },
                p.1,
            ),
            Direction::Left => (
                if p.0 == 0 {
                    self.width
                } else {
                    p.0 - 1
                },
                p.1,
            ),
            Direction::Up => (
                p.0,
                if p.1 == 0 {
                    self.height
                } else {
                    p.1 - 1
                },
            ),
            Direction::Down => (
                p.0,
                if p.1 + 1 >= self.height {
                    0int
                } else {
                    p.1 + 1
                },
            ),
        }
    }

    /// The byte under a position.
    pub open spec fn read(self, p: (int, int)) -> u8 {
        row_byte(self.lines, p.0, p.1)
    }

    /// The machine after writing `v` at `(x, y)`: rows are grown to
    /// reach the cell, the touched row is padded with spaces, and the
    /// wrap extent follows the growth.
    pub open spec fn put(self, x: int, y: int, v: u8) -> B93Machine {
        let (lines1, w1, h1) = rows_put(self.lines, self.width, self.height, x, y, v);
        B93Machine { lines: lines1, width: w1, height: h1, ..self }
    }

    /// The machine with the cursor advanced one wrapping step.
    pub open spec fn advanced(self) -> B93Machine {
        B93Machine { pos: self.wrap(self.pos, self.dir), ..self }
    }
}

/// Popping once: the top byte (zero when the stack is empty) and the
/// remaining stack.
pub open spec fn b93_pop(s: Seq<u8>) -> (u8, Seq<u8>) {
    if s.len() > 0 {
        (s.last(), s.drop_last())
    } else {
        (0u8, s)
    }
}

/// One step in quote mode: a double quote leaves quote mode, any
/// other byte is pushed literally; the cursor advances either way.
pub open spec fn b93_quote_step(m: B93Machine, op: u8) -> B93Machine {
    if op == 34 {
        B93Machine { quote: false, ..m }.advanced()
    } else {
        B93Machine { stack: m.stack.push(op), ..m }.advanced()
    }
}

/// One dispatched instruction in normal mode, cursor advance
/// included. Unknown bytes are a plain move; division and modulus by
/// zero push zero.
pub open spec fn b93_dispatch(m: B93Machine, op: u8, rd: Direction) -> (B93Machine, Status) {
    if op == 43 || op == 45 || op == 42 || op == 47 || op == 37 || op == 96 {
        let (b, s1) = b93_pop(m.stack);
        let (a, s2) = b93_pop(s1);
        let v: u8 = if op == 43 {
            ((a + b) % 256) as u8
        } else if op == 45 {
            ((a - b) % 256) as u8
        } else if op == 42 {
            ((a * b) % 256) as u8
        } else if op == 47 {
            if b == 0 {
                0u8
            } else {
                (a / b) as u8
            }
        } else if op == 37 {
            if b == 0 {
                0u8
            } else {
                (a % b) as u8
            }
        } else {
            if a > b {
                1u8
            } else {
                0u8
            }
        };
        (B93Machine { stack: s2.push(v), ..m }.advanced(), Status::Completed)
    } else if op == 33 {
        let (a, s1) = b93_pop(m.stack);
        let v: u8 = if a == 0 {
            1u8
        } else {
            0u8
        };
        (B93Machine { stack: s1.push(v), ..m }.advanced(), Status::Completed)
    } else if op == 62 {
        (B93Machine { dir: Direction::Right, ..m }.advanced(), Status::Completed)
    } else if op == 60 {
        (B93Machine { dir: Direction::Left, ..m }.advanced(), Status::Completed)
    } else if op == 94 {
        (B93Machine { dir: Direction::Up, ..m }.advanced(), Status::Completed)
    } else if op == 118 {
        (B93Machine { dir: Direction::Down, ..m }.advanced(), Status::Completed)
    } else if op == 63 {
        (B93Machine { dir: rd, ..m }.advanced(), Status::Completed)
    } else if op == 95 {
        let (a, s1) = b93_pop(m.stack);
        let d = if a == 0 {
            Direction::Right
        } else {
            Direction::Left
        };
        (B93Machine { dir: d, stack: s1, ..m }.advanced(), Status::Completed)
    } else if op == 124 {
        let (a, s1) = b93_pop(m.stack);
        let d = if a == 0 {
            Direction::Down
        } else {
            Direction::Up
        };
        (B93Machine { dir: d, stack: s1, ..m }.advanced(), Status::Completed)
    } else if op == 34 {
        (B93Machine { quote: true, ..m }.advanced(), Status::Completed)
    } else if op == 58 {
        let (a, s1) = b93_pop(m.stack);
        (B93Machine { stack: s1.push(a).push(a), ..m }.advanced(), Status::Completed)
    } else if op == 92 {
        let (b, s1) = b93_pop(m.stack);
        let (a, s2) = b93_pop(s1);
        (B93Machine { stack: s2.push(b).push(a), ..m }.advanced(), Status::Completed)
    } else if op == 36 {
        let (a, s1) = b93_pop(m.stack);
        (B93Machine { stack: s1, ..m }.advanced(), Status::Completed)
    } else if op == 46 {
        let (a, s1) = b93_pop(m.stack);
        (
            B93Machine {
                stack: s1,
                output: m.output + crate::interpreter::dec_bytes(a) + seq![32u8],
                ..m
            }.advanced(),
            Status::Completed,
        )
    } else if op == 44 {
        let (a, s1) = b93_pop(m.stack);
        (B93Machine { stack: s1, output: m.output.push(a), ..m }.advanced(), Status::Completed)
    } else if op == 35 {
        (m.advanced().advanced(), Status::Completed)
    } else if op == 103 {
        let (yy, s1) = b93_pop(m.stack);
        let (xx, s2) = b93_pop(s1);
        let v = m.read((xx as int, yy as int));
        (B93Machine { stack: s2.push(v), ..m }.advanced(), Status::Completed)
    } else if op == 112 {
        let (yy, s1) = b93_pop(m.stack);
        let (xx, s2) = b93_pop(s1);
        let (v, s3) = b93_pop(s2);
        (
            B93Machine { stack: s3, ..m }.put(xx as int, yy as int, v).advanced(),
            Status::Completed,
        )
    } else if op == 38 {
        if m.input.len() > 0 {
            (
                B93Machine {
                    stack: m.stack.push(((m.input[0] - 48) % 256) as u8),
                    input: m.input.drop_first(),
                    ..m
                }.advanced(),
                Status::Completed,
            )
        } else {
            (m, Status::Waiting)
        }
    } else if op == 126 {
        if m.input.len() > 0 {
            (
                B93Machine { stack: m.stack.push(m.input[0]), input: m.input.drop_first(), ..m }.advanced(),
                Status::Completed,
            )
        } else {
            (m, Status::Waiting)
        }
    } else if op == 64 {
        (m, Status::Terminated)
    } else if 48 <= op <= 57 {
        (B93Machine { stack: m.stack.push((op - 48) as u8), ..m }.advanced(), Status::Completed)
    } else {
        (m.advanced(), Status::Completed)
    }
}

/// What one `step()` call does to a runtime, given the direction `rd`
/// a random-direction instruction would take.
pub open spec fn b93_step(m: B93Machine, rd: Direction) -> (B93Machine, Status) {
    let op = m.read(m.pos);
    if m.quote {
        (b93_quote_step(m, op), Status::Completed)
    } else {
        b93_dispatch(m, op, rd)
    }
}

/// A program held as a vector of rows, with the recorded wrap extent.
#[derive(PartialEq, Eq, Clone, Debug)]
pub struct Program {
    data: Vec<Vec<u8>>,
    width: usize,
    height: usize,
}

impl Program {
    /// The program rows.
    pub closed spec fn spec_lines(&self) -> Seq<Seq<u8>> {
        self.data@.map(|i: int, row: Vec<u8>| row@)
    }

    /// Where the program wraps horizontally.
    pub closed spec fn spec_width(&self) -> int {
        self.width as int
    }

    /// Where the program wraps vertically.
    pub closed spec fn spec_height(&self) -> int {
        self.height as int
    }

    /// The recorded extent covers the rows.
    pub closed spec fn wf(&self) -> bool {
        &&& self.height == self.data@.len()
        &&& self.width == max_line_len(self.spec_lines())
        &&& self.width < usize::MAX
        &&& self.height < usize::MAX
    }

    /// A program from its rows: the extent is the row count by the
    /// longest row.
    pub fn from_rows(input: Vec<Vec<u8>>) -> (r: Program)
        requires
            input@.len() < usize::MAX,
            forall|i: int| 0 <= i < input@.len() ==> (#[trigger] input@[i])@.len() < usize::MAX,
        ensures
            r.wf(),
            r.spec_lines() == input@.map(|i: int, row: Vec<u8>| row@),
            r.spec_height() == input@.len(),
            r.spec_width() == max_line_len(input@.map(|i: int, row: Vec<u8>| row@)),
    {
        let ghost lines = input@.map(|i: int, row: Vec<u8>| row@);
        let height = input.len();
        let mut width: usize = 0;
        let mut i: usize = 0;
        while i < input.len()
            invariant
                0 <= i <= input@.len(),
                lines == input@.map(|t: int, row: Vec<u8>| row@),
                forall|t: int| 0 <= t < input@.len() ==> (#[trigger] input@[t])@.len() < usize::MAX,
                width == max_line_len(lines.take(i as int)),
                width < usize::MAX,
            decreases input@.len() - i,
        {
            proof {
                assert(lines.take(i + 1).drop_last() =~= lines.take(i as int));
                assert(lines.take(i + 1).last() == lines[i as int]);
                assert(lines[i as int] == input@[i as int]@);
            }
            if input[i].len() > width {
                width = input[i].len();
            }
            i = i + 1;
        }
        proof {
            assert(lines.take(lines.len() as int) =~= lines);
        }
        Program { data: input, width, height }
    }

    /// The byte at a position: total, a space beyond the rows.
    pub fn get(&self, pos: &Position) -> (b: u8)
        ensures
            b == row_byte(self.spec_lines(), pos.x as int, pos.y as int),
    {
        if pos.y < self.data.len() {
            let row = &self.data[pos.y];
            if pos.x < row.len() {
                proof {
                    assert(self.spec_lines()[pos.y as int] == self.data@[pos.y as int]@);
                }
                row[pos.x]
            } else {
                32
            }
        } else {
            32
        }
    }

    /// The specified row of the program, if it exists.
    pub fn get_line(&self, index: usize) -> (r: Option<Vec<u8>>)
        ensures
            index < self.spec_lines().len() ==> r is Some && r.unwrap()@ == self.spec_lines()[index as int],
            index >= self.spec_lines().len() ==> r == None::<Vec<u8>>,
    {
        if index >= self.data.len() {
            return None;
        }
        let row = &self.data[index];
        let mut out: Vec<u8> = Vec::new();
        let mut k: usize = 0;
        while k < row.len()
            invariant
                0 <= k <= row@.len(),
                out@ == row@.take(k as int),
            decreases row@.len() - k,
        {
            out.push(row[k]);
            proof {
                assert(out@ =~= row@.take(k + 1));
            }
            k = k + 1;
        }
        proof {
            assert(out@ =~= row@);
            assert(self.spec_lines()[index as int] == self.data@[index as int]@);
        }
        Some(out)
    }
}

impl Program {
    /// Updates the opcode at a position, growing the rows and padding
    /// the touched row as needed.
    fn set(&mut self, pos: &Position, opcode: u8)
        requires
            pos.x < usize::MAX - 1,
            pos.y < usize::MAX - 1,
        ensures
            ({
                let (lines1, w1, h1) = rows_put(
                    old(self).spec_lines(),
                    old(self).spec_width(),
                    old(self).spec_height(),
                    pos.x as int,
                    pos.y as int,
                    opcode,
                );
                final(self).spec_lines() == lines1 && final(self).spec_width() == w1 && final(self).spec_height() == h1
            }),
    {
        let ghost lines0 = self.spec_lines();
        let min_height = pos.y + 1;
        let min_width = pos.x + 1;
        if self.data.len() < min_height {
            while self.data.len() < min_height
                invariant
                    self.data@.len() <= min_height,
                    lines0.len() <= self.data@.len(),
                    forall|t: int| 0 <= t < lines0.len() ==> (#[trigger] self.data@[t])@ == lines0[t],
                    forall|t: int|
                        lines0.len() <= t < self.data@.len() ==> (#[trigger] self.data@[t])@
                            == Seq::<u8>::empty(),
                    self.width == old(self).width,
                    self.height == old(self).height,
                decreases min_height - self.data@.len(),
            {
                self.data.push(Vec::new());
            }
            self.height = min_height;
        }
        proof {
            assert(self.spec_lines() =~= padded(lines0, pos.y + 1, Seq::<u8>::empty()));
        }
        let ghost lines1 = padded(lines0, pos.y + 1, Seq::<u8>::empty());
        let mut row = self.data.remove(pos.y);
        let ghost row0 = row@;
        let grew = row.len() < min_width;
        if grew {
            while row.len() < min_width
                invariant
                    row0.len() <= row@.len() <= min_width,
                    row@ == padded(row0, row@.len() as int, 32u8),
                decreases min_width - row@.len(),
            {
                row.push(32);
                proof {
                    assert(row@ =~= padded(row0, row@.len() as int, 32u8));
                }
            }
            if min_width > self.width {
                self.width = min_width;
            }
        }
        proof {
            if !grew {
                assert(row@ =~= padded(row0, pos.x + 1, 32u8));
            }
        }
        row.set(pos.x, opcode);
        self.data.insert(pos.y, row);
        proof {
            let (el, w1, h1) = rows_put(
                lines0,
                old(self).spec_width(),
                old(self).spec_height(),
                pos.x as int,
                pos.y as int,
                opcode,
            );
            assert(self.spec_lines() =~= el);
        }
    }
}

/// A step-by-step executor for the befunge-93 dialect: a program, a
/// cursor, a stack, and in-memory input and output buffers.
#[derive(PartialEq, Eq, Clone, Debug)]
pub struct Runtime {
    program: Program,
    current_pos: Position,
    current_dir: Direction,
    stack: Vec<u8>,
    quote_mode: bool,
    input_buffer: std::collections::VecDeque<u8>,
    output_buffer: Vec<u8>,
}

impl Runtime {
    /// The observable state of this runtime.
    pub closed spec fn machine(&self) -> B93Machine {
        B93Machine {
            lines: self.program.spec_lines(),
            width: self.program.spec_width(),
            height: self.program.spec_height(),
            pos: (self.current_pos.x as int, self.current_pos.y as int),
            dir: self.current_dir,
            stack: self.stack@,
            quote: self.quote_mode,
            input: self.input_buffer@,
            output: self.output_buffer@,
        }
    }

    /// The position and extent stay comfortably inside the machine
    /// word, so cursor arithmetic cannot run over.
    pub closed spec fn wf(&self) -> bool {
        &&& self.program.width < usize::MAX - 1
        &&& self.program.height < usize::MAX - 1
        &&& self.program.height == self.program.spec_lines().len()
        &&& self.current_pos.x <= self.program.width
        &&& self.current_pos.y <= self.program.height
    }

    /// A runtime over a program: the cursor starts at the origin,
    /// heading right, in normal mode, over empty buffers.
    pub fn from_program(prog: Program) -> (r: Runtime)
        requires
            prog.spec_width() < usize::MAX - 1,
            prog.spec_height() < usize::MAX - 1,
            prog.spec_height() == prog.spec_lines().len(),
        ensures
            r.wf(),
            r.machine() == (B93Machine {
                lines: prog.spec_lines(),
                width: prog.spec_width(),
                height: prog.spec_height(),
                pos: (0int, 0int),
                dir: Direction::Right,
                stack: Seq::<u8>::empty(),
                quote: false,
                input: Seq::<u8>::empty(),
                output: Seq::<u8>::empty(),
            }),
    {
        Runtime {
            program: prog,
            current_pos: Position { x: 0, y: 0 },
            current_dir: Direction::Right,
            stack: Vec::new(),
            quote_mode: false,
            input_buffer: std::collections::VecDeque::new(),
            output_buffer: Vec::new(),
        }
    }

    /// Where the cursor stands.
    pub fn get_current_pos(&self) -> (p: Position)
        ensures
            p.x as int == self.machine().pos.0,
            p.y as int == self.machine().pos.1,
    {
        self.current_pos
    }

    /// Where the cursor heads.
    pub fn get_current_dir(&self) -> (d: Direction)
        ensures
            d == self.machine().dir,
    {
        self.current_dir
    }

    /// The stack contents, bottom first.
    pub fn get_stack(&self) -> (r: &Vec<u8>)
        ensures
            r@ == self.machine().stack,
    {
        &self.stack
    }

    /// The opcode at a position: total, a space beyond the rows.
    pub fn get_opcode(&self, pos: &Position) -> (b: u8)
        ensures
            b == self.machine().read((pos.x as int, pos.y as int)),
    {
        self.program.get(pos)
    }

    /// The row the cursor stands on, if it exists.
    pub fn get_line(&self) -> (r: Option<Vec<u8>>)
        ensures
            self.machine().pos.1 < self.machine().lines.len() ==> r is Some && r.unwrap()@
                == self.machine().lines[self.machine().pos.1],
            self.machine().pos.1 >= self.machine().lines.len() ==> r == None::<Vec<u8>>,
    {
        self.program.get_line(self.current_pos.y)
    }

    /// Appends data to the input buffer.
    pub fn write_input(&mut self, input: &[u8])
        ensures
            final(self).machine() == (B93Machine {
                input: old(self).machine().input + input@,
                ..old(self).machine()
            }),
            final(self).wf() == old(self).wf(),
    {
        let mut i: usize = 0;
        while i < input.len()
            invariant
                0 <= i <= input@.len(),
                self.input_buffer@ == old(self).input_buffer@ + input@.take(i as int),
                self.program == old(self).program,
                self.current_pos == old(self).current_pos,
                self.current_dir == old(self).current_dir,
                self.stack == old(self).stack,
                self.quote_mode == old(self).quote_mode,
                self.output_buffer == old(self).output_buffer,
            decreases input@.len() - i,
        {
            self.input_buffer.push_back(input[i]);
            proof {
                assert(self.input_buffer@ =~= old(self).input_buffer@ + input@.take(i + 1));
            }
            i = i + 1;
        }
        proof {
            assert(input@.take(input@.len() as int) =~= input@);
        }
    }

    /// Takes everything written so far, leaving the output empty.
    pub fn read_output(&mut self) -> (r: Vec<u8>)
        ensures
            r@ == old(self).machine().output,
            final(self).machine() == (B93Machine {
                output: Seq::<u8>::empty(),
                ..old(self).machine()
            }),
            final(self).wf() == old(self).wf(),
    {
        let mut out: Vec<u8> = Vec::new();
        std::mem::swap(&mut out, &mut self.output_buffer);
        out
    }

    /// Rewrites a cell of the program.
    fn set_opcode(&mut self, pos: Position, opcode: u8)
        requires
            pos.x < 0x10000,
            pos.y < 0x10000,
            old(self).wf(),
        ensures
            final(self).machine() == old(self).machine().put(pos.x as int, pos.y as int, opcode),
            final(self).wf(),
    {
        let ghost m0 = self.machine();
        self.program.set(&pos, opcode);
        proof {
            let (l1, w1, h1) = rows_put(
                m0.lines,
                m0.width,
                m0.height,
                pos.x as int,
                pos.y as int,
                opcode,
            );
            assert(w1 >= m0.width);
            assert(l1.len() == h1);
        }
    }

    /// Advances the cursor one wrapping step along its direction.
    fn move_auto(&mut self)
        requires
            old(self).wf(),
        ensures
            final(self).machine() == old(self).machine().advanced(),
            final(self).wf(),
    {
        let width = self.program.width;
        let height = self.program.height;
        match self.current_dir {
            Direction::Right => {
                self.current_pos.x = if width == 0 {
                    0
                } else if self.current_pos.x >= width - 1 {
                    0
                } else {
                    self.current_pos.x + 1
                };
            },
            Direction::Left => {
                self.current_pos.x = if self.current_pos.x == 0 {
                    width
                } else {
                    self.current_pos.x - 1
                };
            },
            Direction::Up => {
                self.current_pos.y = if self.current_pos.y == 0 {
                    height
                } else {
                    self.current_pos.y - 1
                };
            },
            Direction::Down => {
                self.current_pos.y = if height == 0 {
                    0
                } else if self.current_pos.y >= height - 1 {
                    0
                } else {
                    self.current_pos.y + 1
                };
            },
        }
    }

    /// Pops the top byte, or zero from an empty stack.
    fn pop(&mut self) -> (r: u8)
        ensures
            ({
                let (v, s1) = b93_pop(old(self).machine().stack);
                r == v && final(self).machine() == (B93Machine {
                    stack: s1,
                    ..old(self).machine()
                })
            }),
            final(self).wf() == old(self).wf(),
    {
        match self.stack.pop() {
            Some(v) => v,
            None => 0,
        }
    }

    /// Interprets the next instruction: one step of the runtime.
    pub fn step(&mut self) -> (status: Status)
        requires
            old(self).wf(),
        ensures
            final(self).wf(),
            exists|rd: Direction| #[trigger] b93_step_matches(
                old(self).machine(),
                final(self).machine(),
                status,
                rd,
            ),
    {
        let opcode = self.program.get(&self.current_pos);
        if self.quote_mode {
            let st = self.step_quoted(opcode);
            proof {
                assert(b93_step_matches(
                    old(self).machine(),
                    self.machine(),
                    st,
                    Direction::Right,
                ));
            }
            st
        } else {
            let (st, rd) = self.step_unquoted(opcode);
            proof {
                assert(b93_step_matches(old(self).machine(), self.machine(), st, rd@));
            }
            st
        }
    }

    /// One step in quote mode.
    fn step_quoted(&mut self, opcode: u8) -> (st: Status)
        requires
            old(self).wf(),
            old(self).machine().quote,
        ensures
            final(self).wf(),
            final(self).machine() == b93_quote_step(old(self).machine(), opcode),
            st == Status::Completed,
    {
        if opcode == 34 {
            self.quote_mode = false;
        } else {
            self.stack.push(opcode);
        }
        self.move_auto();
        Status::Completed
    }

    /// One dispatched instruction in normal mode, with the ghost
    /// direction a random-direction instruction took.
    #[verifier::rlimit(100)]
    fn step_unquoted(&mut self, opcode: u8) -> (res: (Status, Ghost<Direction>))
        requires
            old(self).wf(),
            !old(self).machine().quote,
        ensures
            final(self).wf(),
            ({
                let (m2, st) = b93_dispatch(old(self).machine(), opcode, res.1@);
                final(self).machine() == m2 && res.0 == st
            }),
    {
        let ghost mut rd = Direction::Right;
        let status: Status;
        match opcode {
            43u8 | 45u8 | 42u8 | 47u8 | 37u8 | 96u8 => {
                let b = self.pop();
                let a = self.pop();
                let v: u8 = if opcode == 43 {
                    a.wrapping_add(b)
                } else if opcode == 45 {
                    a.wrapping_sub(b)
                } else if opcode == 42 {
                    a.wrapping_mul(b)
                } else if opcode == 47 {
                    if b == 0 {
                        0
                    } else {
                        a / b
                    }
                } else if opcode == 37 {
                    if b == 0 {
                        0
                    } else {
                        a % b
                    }
                } else {
                    if a > b {
                        1
                    } else {
                        0
                    }
                };
                self.stack.push(v);
                self.move_auto();
                status = Status::Completed;
                proof {
                    let (bb, s1) = b93_pop(old(self).machine().stack);
                    let (aa, s2) = b93_pop(s1);
                    assert((aa + bb) % 256 == vstd::wrapping::u8_specs::wrapping_add(aa, bb));
                    assert((aa - bb) % 256 == vstd::wrapping::u8_specs::wrapping_sub(aa, bb));
                    assert((aa * bb) % 256 == vstd::wrapping::u8_specs::wrapping_mul(aa, bb))
                        by (nonlinear_arith);
                }
            },
            33u8 => {
                let a = self.pop();
                self.stack.push(if a == 0 {
                    1
                } else {
                    0
                });
                self.move_auto();
                status = Status::Completed;
            },
            62u8 => {
                self.current_dir = Direction::Right;
                self.move_auto();
                status = Status::Completed;
            },
            60u8 => {
                self.current_dir = Direction::Left;
                self.move_auto();
                status = Status::Completed;
            },
            94u8 => {
                self.current_dir = Direction::Up;
                self.move_auto();
                status = Status::Completed;
            },
            118u8 => {
                self.current_dir = Direction::Down;
                self.move_auto();
                status = Status::Completed;
            },
            63u8 => {
                let idx = crate::interpreter::random_index4();
                let d = if idx == 0 {
                    Direction::Right
                } else if idx == 1 {
                    Direction::Left
                } else if idx == 2 {
                    Direction::Up
                } else {
                    Direction::Down
                };
                self.current_dir = d;
                proof {
                    rd = d;
                }
                self.move_auto();
                status = Status::Completed;
            },
            95u8 => {
                let a = self.pop();
                self.current_dir = if a == 0 {
                    Direction::Right
                } else {
                    Direction::Left
                };
                self.move_auto();
                status = Status::Completed;
            },
            124u8 => {
                let a = self.pop();
                self.current_dir = if a == 0 {
                    Direction::Down
                } else {
                    Direction::Up
                };
                self.move_auto();
                status = Status::Completed;
            },
            34u8 => {
                self.quote_mode = true;
                self.move_auto();
                status = Status::Completed;
            },
            58u8 => {
                let a = self.pop();
                self.stack.push(a);
                self.stack.push(a);
                self.move_auto();
                status = Status::Completed;
            },
            92u8 => {
                let b = self.pop();
                let a = self.pop();
                self.stack.push(b);
                self.stack.push(a);
                self.move_auto();
                status = Status::Completed;
            },
            36u8 => {
                self.pop();
                self.move_auto();
                status = Status::Completed;
            },
            46u8 => {
                let a = self.pop();
                let digits = crate::interpreter::decimal_digits(a);
                let mut k: usize = 0;
                while k < digits.len()
                    invariant
                        0 <= k <= digits@.len(),
                        self.machine() == (B93Machine {
                            stack: b93_pop(old(self).machine().stack).1,
                            output: old(self).machine().output + digits@.take(k as int),
                            ..old(self).machine()
                        }),
                        self.wf() == old(self).wf(),
                        digits@ == crate::interpreter::dec_bytes(
                            b93_pop(old(self).machine().stack).0,
                        ),
                    decreases digits@.len() - k,
                {
                    self.output_buffer.push(digits[k]);
                    proof {
                        assert(self.machine().output =~= old(self).machine().output + digits@.take(
                            k + 1,
                        ));
                    }
                    k = k + 1;
                }
                self.output_buffer.push(32);
                self.move_auto();
                status = Status::Completed;
                proof {
                    assert(digits@.take(digits@.len() as int) =~= digits@);
                    let (aa, s1) = b93_pop(old(self).machine().stack);
                    assert(self.machine().output =~= old(self).machine().output
                        + crate::interpreter::dec_bytes(aa) + seq![32u8]);
                }
            },
            44u8 => {
                let a = self.pop();
                self.output_buffer.push(a);
                self.move_auto();
                status = Status::Completed;
            },
            35u8 => {
                self.move_auto();
                self.move_auto();
                status = Status::Completed;
            },
            103u8 => {
                let yy = self.pop();
                let xx = self.pop();
                let v = self.program.get(&Position { x: xx as usize, y: yy as usize });
                self.stack.push(v);
                self.move_auto();
                status = Status::Completed;
            },
            112u8 => {
                let yy = self.pop();
                let xx = self.pop();
                let v = self.pop();
                self.set_opcode(Position { x: xx as usize, y: yy as usize }, v);
                self.move_auto();
                status = Status::Completed;
            },
            38u8 => {
                match self.input_buffer.pop_front() {
                    Some(c) => {
                        self.stack.push(c.wrapping_sub(48));
                        self.move_auto();
                        status = Status::Completed;
                        proof {
                            let b0 = old(self).machine().input[0];
                            assert((b0 - 48) % 256 == vstd::wrapping::u8_specs::wrapping_sub(
                                b0,
                                48,
                            ));
                        }
                    },
                    None => {
                        status = Status::Waiting;
                    },
                }
            },
            126u8 => {
                match self.input_buffer.pop_front() {
                    Some(c) => {
                        self.stack.push(c);
                        self.move_auto();
                        status = Status::Completed;
                    },
                    None => {
                        status = Status::Waiting;
                    },
                }
            },
            64u8 => {
                status = Status::Terminated;
            },
            48u8 | 49u8 | 50u8 | 51u8 | 52u8 | 53u8 | 54u8 | 55u8 | 56u8 | 57u8 => {
                self.stack.push(opcode - 48);
                self.move_auto();
                status = Status::Completed;
            },
            _ => {
                self.move_auto();
                status = Status::Completed;
            },
        }
        (status, Ghost(rd))
    }
}

/// Whether one step from `pre` to `post` with the given status is
/// what `b93_step` prescribes under the direction `rd`.
pub open spec fn b93_step_matches(
    pre: B93Machine,
    post: B93Machine,
    status: Status,
    rd: Direction,
) -> bool {
    let (m2, st) = b93_step(pre, rd);
    post == m2 && status == st
}

} // verus!
