//! Static path analysis: a breadth-first reachability pass that tags
//! every grid cell with the set of (direction, mode) pairs under which
//! the cursor could visit it.

use vstd::prelude::*;

use crate::cursor::{Direction, Mode, Position};
use crate::space::{Space, SpaceModel};

verus! {

// Quoted: up, down, left and right visit bits.
pub const QU_MASK: u8 = 0x01;

pub const QD_MASK: u8 = 0x02;

pub const QL_MASK: u8 = 0x04;

pub const QR_MASK: u8 = 0x08;

// Normal: up, down, left and right visit bits.
pub const NU_MASK: u8 = 0x10;

pub const ND_MASK: u8 = 0x20;

pub const NL_MASK: u8 = 0x40;

pub const NR_MASK: u8 = 0x80;

// All quoted and all normal bits.
pub const Q_MASK: u8 = 0x0F;

pub const N_MASK: u8 = 0xF0;

/// The visit bit of one (direction, mode) pair.
pub open spec fn mask_of(dir: Direction, mode: Mode) -> u8 {
    match (dir, mode) {
        (Direction::Up, Mode::Quote) => QU_MASK,
        (Direction::Up, Mode::Normal) => NU_MASK,
        (Direction::Down, Mode::Quote) => QD_MASK,
        (Direction::Down, Mode::Normal) => ND_MASK,
        (Direction::Left, Mode::Quote) => QL_MASK,
        (Direction::Left, Mode::Normal) => NL_MASK,
        (Direction::Right, Mode::Quote) => QR_MASK,
        (Direction::Right, Mode::Normal) => NR_MASK,
    }
}

/// How many of the eight visit bits are set.
pub open spec fn popcount(b: u8) -> int {
    (b & 1) + ((b >> 1) & 1) + ((b >> 2) & 1) + ((b >> 3) & 1) + ((b >> 4) & 1) + ((b >> 5) & 1) + (
    (b >> 6) & 1) + ((b >> 7) & 1)
}

/// How many visit bits a cell can still gain.
pub open spec fn missing(b: u8) -> int {
    8 - popcount(b)
}

proof fn lemma_popcount_bounds(b: u8)
    ensures
        0 <= popcount(b) <= 8,
{
    assert((b & 1) <= 1 && ((b >> 1) & 1) <= 1 && ((b >> 2) & 1) <= 1 && ((b >> 3) & 1) <= 1 && ((b
        >> 4) & 1) <= 1 && ((b >> 5) & 1) <= 1 && ((b >> 6) & 1) <= 1 && ((b >> 7) & 1) <= 1)
        by (bit_vector);
}

proof fn lemma_popcount_zero()
    ensures
        popcount(0) == 0,
{
    assert((0u8 & 1) == 0 && ((0u8 >> 1) & 1) == 0 && ((0u8 >> 2) & 1) == 0 && ((0u8 >> 3) & 1) == 0
        && ((0u8 >> 4) & 1) == 0 && ((0u8 >> 5) & 1) == 0 && ((0u8 >> 6) & 1) == 0 && ((0u8 >> 7)
        & 1) == 0) by (bit_vector);
}

/// Setting one still-unset visit bit raises the count by exactly one.
proof fn lemma_or_bit(b: u8, m: u8)
    requires
        m == 1 || m == 2 || m == 4 || m == 8 || m == 16 || m == 32 || m == 64 || m == 128,
        b | m != b,
    ensures
        popcount(b | m) == popcount(b) + 1,
        b | m != 0,
{
    if m == 1 {
        assert(((b | 1u8) & 1) == 1 && (b & 1) == 0 && (((b | 1u8) >> 1) & 1) == ((b >> 1) & 1) && ((
        (b | 1u8) >> 2) & 1) == ((b >> 2) & 1) && (((b | 1u8) >> 3) & 1) == ((b >> 3) & 1) && (((b
            | 1u8) >> 4) & 1) == ((b >> 4) & 1) && (((b | 1u8) >> 5) & 1) == ((b >> 5) & 1) && (((b
            | 1u8) >> 6) & 1) == ((b >> 6) & 1) && (((b | 1u8) >> 7) & 1) == ((b >> 7) & 1) && (b
            | 1u8) != 0) by (bit_vector)
            requires
                b | 1u8 != b,
        ;
    } else if m == 2 {
        assert((((b | 2u8) >> 1) & 1) == 1 && ((b >> 1) & 1) == 0 && ((b | 2u8) & 1) == (b & 1) && ((
        (b | 2u8) >> 2) & 1) == ((b >> 2) & 1) && (((b | 2u8) >> 3) & 1) == ((b >> 3) & 1) && (((b
            | 2u8) >> 4) & 1) == ((b >> 4) & 1) && (((b | 2u8) >> 5) & 1) == ((b >> 5) & 1) && (((b
            | 2u8) >> 6) & 1) == ((b >> 6) & 1) && (((b | 2u8) >> 7) & 1) == ((b >> 7) & 1) && (b
            | 2u8) != 0) by (bit_vector)
            requires
                b | 2u8 != b,
        ;
    } else if m == 4 {
        assert((((b | 4u8) >> 2) & 1) == 1 && ((b >> 2) & 1) == 0 && ((b | 4u8) & 1) == (b & 1) && ((
        (b | 4u8) >> 1) & 1) == ((b >> 1) & 1) && (((b | 4u8) >> 3) & 1) == ((b >> 3) & 1) && (((b
            | 4u8) >> 4) & 1) == ((b >> 4) & 1) && (((b | 4u8) >> 5) & 1) == ((b >> 5) & 1) && (((b
            | 4u8) >> 6) & 1) == ((b >> 6) & 1) && (((b | 4u8) >> 7) & 1) == ((b >> 7) & 1) && (b
            | 4u8) != 0) by (bit_vector)
            requires
                b | 4u8 != b,
        ;
    } else if m == 8 {
        assert((((b | 8u8) >> 3) & 1) == 1 && ((b >> 3) & 1) == 0 && ((b | 8u8) & 1) == (b & 1) && ((
        (b | 8u8) >> 1) & 1) == ((b >> 1) & 1) && (((b | 8u8) >> 2) & 1) == ((b >> 2) & 1) && (((b
            | 8u8) >> 4) & 1) == ((b >> 4) & 1) && (((b | 8u8) >> 5) & 1) == ((b >> 5) & 1) && (((b
            | 8u8) >> 6) & 1) == ((b >> 6) & 1) && (((b | 8u8) >> 7) & 1) == ((b >> 7) & 1) && (b
            | 8u8) != 0) by (bit_vector)
            requires
                b | 8u8 != b,
        ;
    } else if m == 16 {
        assert((((b | 16u8) >> 4) & 1) == 1 && ((b >> 4) & 1) == 0 && ((b | 16u8) & 1) == (b & 1)
            && (((b | 16u8) >> 1) & 1) == ((b >> 1) & 1) && (((b | 16u8) >> 2) & 1) == ((b >> 2) & 1)
            && (((b | 16u8) >> 3) & 1) == ((b >> 3) & 1) && (((b | 16u8) >> 5) & 1) == ((b >> 5) & 1)
            && (((b | 16u8) >> 6) & 1) == ((b >> 6) & 1) && (((b | 16u8) >> 7) & 1) == ((b >> 7) & 1)
            && (b | 16u8) != 0) by (bit_vector)
            requires
                b | 16u8 != b,
        ;
    } else if m == 32 {
        assert((((b | 32u8) >> 5) & 1) == 1 && ((b >> 5) & 1) == 0 && ((b | 32u8) & 1) == (b & 1)
            && (((b | 32u8) >> 1) & 1) == ((b >> 1) & 1) && (((b | 32u8) >> 2) & 1) == ((b >> 2) & 1)
            && (((b | 32u8) >> 3) & 1) == ((b >> 3) & 1) && (((b | 32u8) >> 4) & 1) == ((b >> 4) & 1)
            && (((b | 32u8) >> 6) & 1) == ((b >> 6) & 1) && (((b | 32u8) >> 7) & 1) == ((b >> 7) & 1)
            && (b | 32u8) != 0) by (bit_vector)
            requires
                b | 32u8 != b,
        ;
    } else if m == 64 {
        assert((((b | 64u8) >> 6) & 1) == 1 && ((b >> 6) & 1) == 0 && ((b | 64u8) & 1) == (b & 1)
            && (((b | 64u8) >> 1) & 1) == ((b >> 1) & 1) && (((b | 64u8) >> 2) & 1) == ((b >> 2) & 1)
            && (((b | 64u8) >> 3) & 1) == ((b >> 3) & 1) && (((b | 64u8) >> 4) & 1) == ((b >> 4) & 1)
            && (((b | 64u8) >> 5) & 1) == ((b >> 5) & 1) && (((b | 64u8) >> 7) & 1) == ((b >> 7) & 1)
            && (b | 64u8) != 0) by (bit_vector)
            requires
                b | 64u8 != b,
        ;
    } else {
        assert((((b | 128u8) >> 7) & 1) == 1 && ((b >> 7) & 1) == 0 && ((b | 128u8) & 1) == (b & 1)
            && (((b | 128u8) >> 1) & 1) == ((b >> 1) & 1) && (((b | 128u8) >> 2) & 1) == ((b >> 2)
            & 1) && (((b | 128u8) >> 3) & 1) == ((b >> 3) & 1) && (((b | 128u8) >> 4) & 1) == ((b
            >> 4) & 1) && (((b | 128u8) >> 5) & 1) == ((b >> 5) & 1) && (((b | 128u8) >> 6) & 1) == (
        (b >> 6) & 1) && (b | 128u8) != 0) by (bit_vector)
            requires
                b | 128u8 != b,
        ;
    }
}

/// The mode a visit arriving at `p` in mode `m` is drawn in: a quote
/// cell always shows as quoted.
pub open spec fn draw_mode_at(space: SpaceModel, p: Position, m: Mode) -> Mode {
    if space.read(p.x as int, p.y as int) == 34 {
        Mode::Quote
    } else {
        m
    }
}

/// The mode the cursor continues in after `p`: a quote cell flips it.
pub open spec fn next_mode_at(space: SpaceModel, p: Position, m: Mode) -> Mode {
    if space.read(p.x as int, p.y as int) == 34 {
        match m {
            Mode::Quote => Mode::Normal,
            Mode::Normal => Mode::Quote,
        }
    } else {
        m
    }
}

/// Whether the cursor can go from the arrival tuple `t` to the
/// arrival tuple `s` in one step, under the language's control flow:
/// a continuing quote runs straight on, arrows and branches fan out,
/// the skip jumps two cells, the terminator has no successor, and
/// everything else runs straight on.
pub open spec fn is_successor(
    space: SpaceModel,
    t: (Position, Direction, Mode),
    s: (Position, Direction, Mode),
) -> bool {
    let p = t.0;
    let d = t.1;
    let op = space.read(p.x as int, p.y as int);
    let nm = next_mode_at(space, p, t.2);
    if nm is Quote {
        s == (space.wrap(p, d), d, nm)
    } else if op == 94 {
        s == (space.wrap(p, Direction::Up), Direction::Up, nm)
    } else if op == 118 {
        s == (space.wrap(p, Direction::Down), Direction::Down, nm)
    } else if op == 60 {
        s == (space.wrap(p, Direction::Left), Direction::Left, nm)
    } else if op == 62 {
        s == (space.wrap(p, Direction::Right), Direction::Right, nm)
    } else if op == 63 {
        ||| s == (space.wrap(p, Direction::Up), Direction::Up, nm)
        ||| s == (space.wrap(p, Direction::Down), Direction::Down, nm)
        ||| s == (space.wrap(p, Direction::Left), Direction::Left, nm)
        ||| s == (space.wrap(p, Direction::Right), Direction::Right, nm)
    } else if op == 124 {
        ||| s == (space.wrap(p, Direction::Up), Direction::Up, nm)
        ||| s == (space.wrap(p, Direction::Down), Direction::Down, nm)
    } else if op == 95 {
        ||| s == (space.wrap(p, Direction::Left), Direction::Left, nm)
        ||| s == (space.wrap(p, Direction::Right), Direction::Right, nm)
    } else if op == 35 {
        s == (space.wrap(space.wrap(p, d), d), d, nm)
    } else if op == 64 {
        false
    } else {
        s == (space.wrap(p, d), d, nm)
    }
}

/// The arrival tuple everything is seeded from: the origin, heading
/// right, in normal mode.
pub open spec fn start_tuple() -> (Position, Direction, Mode) {
    (Position { x: 0u8, y: 0u8 }, Direction::Right, Mode::Normal)
}

/// Whether the cursor can reach the arrival tuple `t` in `n` steps
/// from the start of the program.
pub open spec fn reaches(space: SpaceModel, t: (Position, Direction, Mode), n: nat) -> bool
    decreases n,
{
    if n == 0 {
        t == start_tuple()
    } else {
        exists|t0: (Position, Direction, Mode)|
            reaches(space, t0, (n - 1) as nat) && #[trigger] is_successor(space, t0, t)
    }
}

/// Whether the cursor can reach the arrival tuple `t` at all.
pub open spec fn reachable(space: SpaceModel, t: (Position, Direction, Mode)) -> bool {
    exists|n: nat| reaches(space, t, n)
}

/// Whether the analysis states mark `p` as visited along `d` in the
/// drawing mode `dm`.
pub open spec fn marked(states: SpaceModel, p: Position, d: Direction, dm: Mode) -> bool {
    states.read(p.x as int, p.y as int) & mask_of(d, dm) != 0
}

/// The mark an arrival tuple leaves: its direction, in its drawing
/// mode.
pub open spec fn marked_tuple(
    states: SpaceModel,
    space: SpaceModel,
    t: (Position, Direction, Mode),
) -> bool {
    marked(states, t.0, t.1, draw_mode_at(space, t.0, t.2))
}

/// Whether every one-step successor of `t` carries its mark.
pub open spec fn succs_marked(
    states: SpaceModel,
    space: SpaceModel,
    t: (Position, Direction, Mode),
) -> bool {
    forall|s: (Position, Direction, Mode)| #[trigger]
        is_successor(space, t, s) ==> marked_tuple(states, space, s)
}

/// A mark is justified when some reachable arrival leaves it.
pub open spec fn reachable_mark(space: SpaceModel, p: Position, d: Direction, dm: Mode) -> bool {
    exists|m0: Mode|
        #[trigger] draw_mode_at(space, p, m0) == dm && reachable(space, (p, d, m0))
}

/// What the analysis delivers. The marking is sound: the start tuple
/// is marked, every mark traces back to a reachable arrival, and
/// every mark owns an arrival (in a mode drawing that mark) whose
/// one-step successors are all marked, so the marking is closed under
/// the control flow it claims to have followed. At a quote cell both
/// arrival modes share one visit bit, so only the arrival the search
/// saw first has its continuation explored; the marking is therefore
/// pinned up to that choice, not to a single set.
pub open spec fn analysis_valid(space: SpaceModel, states: SpaceModel) -> bool {
    &&& marked_tuple(states, space, start_tuple())
    &&& forall|p: Position, d: Direction, dm: Mode| #[trigger]
        marked(states, p, d, dm) ==> reachable_mark(space, p, d, dm)
    &&& forall|p: Position, d: Direction, dm: Mode| #[trigger]
        marked(states, p, d, dm) ==> exists|m0: Mode|
            #[trigger] draw_mode_at(space, p, m0) == dm && succs_marked(
                states,
                space,
                (p, d, m0),
            )
}

/// Or-ing a visit bit in makes its mark and keeps every other mark:
/// a mark of the new byte is the fresh bit or an old mark.
proof fn lemma_or_mark(b: u8, m: u8, m2: u8)
    requires
        m == 1 || m == 2 || m == 4 || m == 8 || m == 16 || m == 32 || m == 64 || m == 128,
        m2 == 1 || m2 == 2 || m2 == 4 || m2 == 8 || m2 == 16 || m2 == 32 || m2 == 64 || m2 == 128,
    ensures
        (b | m) & m != 0,
        b & m2 != 0 ==> (b | m) & m2 != 0,
        (b | m) & m2 != 0 && m2 != m ==> b & m2 != 0,
        b | m == b ==> b & m != 0,
{
    assert(((b | m) & m != 0) && (b & m2 != 0 ==> (b | m) & m2 != 0) && ((b | m) & m2 != 0 && m2
        != m ==> b & m2 != 0) && (b | m == b ==> b & m != 0)) by (bit_vector)
        requires
            (m == 1 || m == 2 || m == 4 || m == 8 || m == 16 || m == 32 || m == 64 || m == 128) && (
            m2 == 1 || m2 == 2 || m2 == 4 || m2 == 8 || m2 == 16 || m2 == 32 || m2 == 64 || m2
                == 128),
    ;
}

/// Each (direction, mode) pair owns its bit.
proof fn lemma_mask_of_injective(d1: Direction, m1: Mode, d2: Direction, m2: Mode)
    ensures
        mask_of(d1, m1) == mask_of(d2, m2) ==> d1 == d2 && m1 == m2,
{
}

/// The visit bits a row of cells can still gain, summed over columns
/// 0 to `w - 1`.
pub open spec fn missing_row(st: SpaceModel, y: int, w: int) -> int
    decreases w,
{
    if w <= 0 {
        0int
    } else {
        missing_row(st, y, w - 1) + missing(st.read(w - 1, y))
    }
}

/// The visit bits the whole rectangle of cells can still gain.
pub open spec fn missing_total(st: SpaceModel, w: int, h: int) -> int
    decreases h,
{
    if h <= 0 {
        0int
    } else {
        missing_total(st, w, h - 1) + missing_row(st, h - 1, w)
    }
}

proof fn lemma_missing_row_bounds(st: SpaceModel, y: int, w: int)
    ensures
        0 <= missing_row(st, y, w),
        w >= 0 ==> missing_row(st, y, w) <= 8 * w,
    decreases w,
{
    if w > 0 {
        lemma_missing_row_bounds(st, y, w - 1);
        lemma_popcount_bounds(st.read(w - 1, y));
    }
}

proof fn lemma_missing_total_bounds(st: SpaceModel, w: int, h: int)
    ensures
        0 <= missing_total(st, w, h),
        w >= 0 && h >= 0 ==> missing_total(st, w, h) <= 8 * w * h,
    decreases h,
{
    if h > 0 {
        lemma_missing_total_bounds(st, w, h - 1);
        lemma_missing_row_bounds(st, h - 1, w);
        if w >= 0 {
            assert(8 * w * h == 8 * w * (h - 1) + 8 * w) by (nonlinear_arith);
        }
    }
}

proof fn lemma_missing_row_update(st: SpaceModel, st2: SpaceModel, y: int, w: int, x: int, d: int)
    requires
        forall|xx: int| 0 <= xx < w && xx != x ==> st2.read(xx, y) == st.read(xx, y),
        0 <= x < w,
        missing(st2.read(x, y)) == missing(st.read(x, y)) + d,
    ensures
        missing_row(st2, y, w) == missing_row(st, y, w) + d,
    decreases w,
{
    if w > 0 {
        if x == w - 1 {
            assert forall|xx: int| 0 <= xx < w - 1 implies st2.read(xx, y) == st.read(xx, y) by {}
            lemma_missing_row_frame(st, st2, y, w - 1);
        } else {
            lemma_missing_row_update(st, st2, y, w - 1, x, d);
        }
    }
}

proof fn lemma_missing_row_frame(st: SpaceModel, st2: SpaceModel, y: int, w: int)
    requires
        forall|xx: int| 0 <= xx < w ==> st2.read(xx, y) == st.read(xx, y),
    ensures
        missing_row(st2, y, w) == missing_row(st, y, w),
    decreases w,
{
    if w > 0 {
        lemma_missing_row_frame(st, st2, y, w - 1);
    }
}

proof fn lemma_missing_total_update(
    st: SpaceModel,
    st2: SpaceModel,
    w: int,
    h: int,
    x: int,
    y: int,
    d: int,
)
    requires
        forall|xx: int, yy: int|
            0 <= xx < w && 0 <= yy < h && (xx != x || yy != y) ==> st2.read(xx, yy) == st.read(
                xx,
                yy,
            ),
        0 <= x < w,
        0 <= y < h,
        missing(st2.read(x, y)) == missing(st.read(x, y)) + d,
    ensures
        missing_total(st2, w, h) == missing_total(st, w, h) + d,
    decreases h,
{
    if h > 0 {
        if y == h - 1 {
            lemma_missing_row_update(st, st2, h - 1, w, x, d);
            lemma_missing_total_frame(st, st2, w, h - 1);
        } else {
            lemma_missing_row_frame(st, st2, h - 1, w);
            lemma_missing_total_update(st, st2, w, h - 1, x, y, d);
        }
    }
}

proof fn lemma_missing_total_frame(st: SpaceModel, st2: SpaceModel, w: int, h: int)
    requires
        forall|xx: int, yy: int|
            0 <= xx < w && 0 <= yy < h ==> st2.read(xx, yy) == st.read(xx, yy),
    ensures
        missing_total(st2, w, h) == missing_total(st, w, h),
    decreases h,
{
    if h > 0 {
        lemma_missing_row_frame(st, st2, h - 1, w);
        lemma_missing_total_frame(st, st2, w, h - 1);
    }
}

proof fn lemma_missing_total_blank(st: SpaceModel, w: int, h: int)
    requires
        forall|xx: int, yy: int| #[trigger] st.read(xx, yy) == 0,
    ensures
        w >= 0 && h >= 0 ==> missing_total(st, w, h) == 8 * w * h,
    decreases h,
{
    lemma_popcount_zero();
    if h > 0 && w >= 0 {
        lemma_missing_total_blank(st, w, h - 1);
        lemma_missing_row_blank(st, h - 1, w);
        assert(8 * w * h == 8 * w * (h - 1) + 8 * w) by (nonlinear_arith);
    } else if h == 0 && w >= 0 {
        assert(8 * w * 0 == 0) by (nonlinear_arith);
    }
}

proof fn lemma_missing_row_blank(st: SpaceModel, y: int, w: int)
    requires
        forall|xx: int, yy: int| #[trigger] st.read(xx, yy) == 0,
    ensures
        w >= 0 ==> missing_row(st, y, w) == 8 * w,
    decreases w,
{
    lemma_popcount_zero();
    if w > 0 {
        lemma_missing_row_blank(st, y, w - 1);
    }
}

/// One cell's analysis state: for each of the four directions, one
/// bit for "visited in normal mode" and one for "visited in quote
/// mode".
#[derive(Default, Clone, Copy, PartialEq, Eq, Structural, Debug)]
pub struct State(pub u8);

/// Which modes could visit a cell.
#[derive(Debug, Clone, Copy, PartialEq, Eq, Structural)]
pub enum Modes {
    /// Nothing reaches the cell.
    Unvisited,
    /// Only quote mode reaches it.
    Quoted,
    /// Only normal mode reaches it.
    Normal,
    /// Both modes reach it.
    Both,
}

/// Along which axes a cell is entered.
#[derive(Debug, Clone, Copy, PartialEq, Eq, Structural)]
pub enum Directions {
    /// Nothing reaches the cell.
    Unvisited,
    /// Only left or right entries reach it.
    Horizontal,
    /// Only up or down entries reach it.
    Vertical,
    /// Both axes reach it.
    Both,
}

/// The modes a state byte shows.
pub open spec fn spec_modes(b: u8) -> Modes {
    if (b & N_MASK) != 0 && (b & Q_MASK) != 0 {
        Modes::Both
    } else if (b & N_MASK) != 0 {
        Modes::Normal
    } else if (b & Q_MASK) != 0 {
        Modes::Quoted
    } else {
        Modes::Unvisited
    }
}

/// The axes a state byte shows.
pub open spec fn spec_directions(b: u8) -> Directions {
    let u = (b & (NU_MASK | QU_MASK)) != 0;
    let d = (b & (ND_MASK | QD_MASK)) != 0;
    let l = (b & (NL_MASK | QL_MASK)) != 0;
    let r = (b & (NR_MASK | QR_MASK)) != 0;
    if !u && !d && !l && !r {
        Directions::Unvisited
    } else if !u && !d {
        Directions::Horizontal
    } else if !l && !r {
        Directions::Vertical
    } else {
        Directions::Both
    }
}

impl State {
    /// Which modes have visited this cell.
    pub fn modes(self) -> (r: Modes)
        ensures
            r == spec_modes(self.0),
    {
        let normal = (self.0 & N_MASK) != 0;
        let quoted = (self.0 & Q_MASK) != 0;
        if normal && quoted {
            Modes::Both
        } else if normal {
            Modes::Normal
        } else if quoted {
            Modes::Quoted
        } else {
            Modes::Unvisited
        }
    }

    /// Along which axes this cell is entered.
    pub fn directions(self) -> (r: Directions)
        ensures
            r == spec_directions(self.0),
    {
        let u = (self.0 & (NU_MASK | QU_MASK)) != 0;
        let d = (self.0 & (ND_MASK | QD_MASK)) != 0;
        let l = (self.0 & (NL_MASK | QL_MASK)) != 0;
        let r = (self.0 & (NR_MASK | QR_MASK)) != 0;
        if !u && !d && !l && !r {
            Directions::Unvisited
        } else if !u && !d {
            Directions::Horizontal
        } else if !l && !r {
            Directions::Vertical
        } else {
            Directions::Both
        }
    }

    /// This state with the visit bit for one (direction, mode) pair
    /// set.
    pub fn update(self, dir: Direction, mode: Mode) -> (r: State)
        ensures
            r.0 == self.0 | mask_of(dir, mode),
    {
        let mask: u8 = match (dir, mode) {
            (Direction::Up, Mode::Quote) => QU_MASK,
            (Direction::Up, Mode::Normal) => NU_MASK,
            (Direction::Down, Mode::Quote) => QD_MASK,
            (Direction::Down, Mode::Normal) => ND_MASK,
            (Direction::Left, Mode::Quote) => QL_MASK,
            (Direction::Left, Mode::Normal) => NL_MASK,
            (Direction::Right, Mode::Quote) => QR_MASK,
            (Direction::Right, Mode::Normal) => NR_MASK,
        };
        State(self.0 | mask)
    }
}

impl Directions {
    /// The glyph a visited blank cell is drawn with on the axes that
    /// reach it.
    pub fn blank_char(self) -> (c: char)
        ensures
            self is Unvisited ==> c == ' ',
            self is Horizontal ==> c == '─',
            self is Vertical ==> c == '│',
            self is Both ==> c == '┼',
    {
        match self {
            Directions::Unvisited => ' ',
            Directions::Horizontal => '─',
            Directions::Vertical => '│',
            Directions::Both => '┼',
        }
    }
}

/// The result of the path analysis: a state byte per position, in the
/// same shape as the program space.
pub struct PathAnalysis {
    /// One [`State`] byte per cell.
    pub cell_states: Space,
}

/// Whether the tuple `s` still waits in the worklist window.
pub open spec fn pending(
    queue: Seq<(Position, Direction, Mode)>,
    head: int,
    s: (Position, Direction, Mode),
) -> bool {
    exists|j: int| head <= j < queue.len() && #[trigger] queue[j] == s
}

/// Whether every successor of `t` is marked already or still waits in
/// the worklist window.
pub open spec fn covered(
    states: SpaceModel,
    space: SpaceModel,
    queue: Seq<(Position, Direction, Mode)>,
    head: int,
    t: (Position, Direction, Mode),
) -> bool {
    forall|s: (Position, Direction, Mode)| #[trigger]
        is_successor(space, t, s) ==> marked_tuple(states, space, s) || pending(queue, head, s)
}

/// One more step keeps a tuple reachable.
proof fn lemma_step_reachable(
    space: SpaceModel,
    t: (Position, Direction, Mode),
    s: (Position, Direction, Mode),
)
    requires
        reachable(space, t),
        is_successor(space, t, s),
    ensures
        reachable(space, s),
{
    let n = choose|n: nat| reaches(space, t, n);
    assert(reaches(space, s, n + 1));
}

/// No visit bit is set in a zero byte.
proof fn lemma_zero_mask(m: u8)
    requires
        m == 1 || m == 2 || m == 4 || m == 8 || m == 16 || m == 32 || m == 64 || m == 128,
    ensures
        0u8 & m == 0,
{
    assert(0u8 & m == 0) by (bit_vector);
}

/// A wrapped step stays inside the wrap extent.
proof fn lemma_wrap_in_bounds(m: SpaceModel, p: Position, d: Direction)
    requires
        p.x <= m.cols % 256,
        p.y <= m.rows % 256,
    ensures
        m.wrap(p, d).x <= m.cols % 256,
        m.wrap(p, d).y <= m.rows % 256,
{
}

/// Enqueues the tuple one wrapping step from `pos` in `dir`.
fn push_step(
    space: &Space,
    queue: &mut Vec<(Position, Direction, Mode)>,
    pos: Position,
    dir: Direction,
    mode: Mode,
)
    ensures
        final(queue)@ == old(queue)@.push((space@.wrap(pos, dir), dir, mode)),
{
    let p = space.move_pos(pos, dir);
    queue.push((p, dir, mode));
}

/// Tags every cell with the (direction, mode) pairs under which the
/// cursor could visit it, walking breadth-first from the origin.
pub fn analyze_path(space: &Space) -> (r: PathAnalysis)
    requires
        space.wf(),
    ensures
        r.cell_states.wf(),
        r.cell_states@.default == 0u8,
        r.cell_states@.read(0, 0) != 0,
        analysis_valid(space@, r.cell_states@),
{
    let (states, _updates) = analyze_counted(space);
    PathAnalysis { cell_states: states }
}

/// The analysis, together with how many cell updates it performed:
/// each of the eight visit bits of a cell is set at most once, so the
/// updates never outnumber eight per cell of the wrap extent.
#[verifier::rlimit(100)]
pub fn analyze_counted(space: &Space) -> (r: (Space, usize))
    requires
        space.wf(),
    ensures
        r.0.wf(),
        r.0@.default == 0u8,
        r.0@.read(0, 0) != 0,
        analysis_valid(space@, r.0@),
        r.1 <= 8 * (space@.cols % 256 + 1) * (space@.rows % 256 + 1),
{
    let ghost c = space@.cols % 256;
    let ghost rr = space@.rows % 256;
    let mut states = Space::with_size(space.rows(), space.cols());
    let mut queue: Vec<(Position, Direction, Mode)> = Vec::new();
    queue.push((Position { x: 0, y: 0 }, Direction::Right, Mode::Normal));
    let mut head: usize = 0;
    let mut updates: usize = 0;
    proof {
        lemma_missing_total_blank(states@, c + 1, rr + 1);
        assert(8 * (c + 1) * (rr + 1) <= 8 * 256 * 256) by (nonlinear_arith)
            requires
                0 <= c < 256 && 0 <= rr < 256,
        ;
        assert(reaches(space@, start_tuple(), 0));
        assert forall|p2: Position, d2: Direction, dm2: Mode|
            !(#[trigger] marked(states@, p2, d2, dm2)) by {
            lemma_zero_mask(mask_of(d2, dm2));
        }
    }
    while head < queue.len()
        invariant
            space.wf(),
            states.wf(),
            states@.default == 0u8,
            c == space@.cols % 256,
            rr == space@.rows % 256,
            head <= queue@.len(),
            forall|i: int|
                0 <= i < queue@.len() ==> (#[trigger] queue@[i]).0.x <= c && queue@[i].0.y <= rr,
            updates + missing_total(states@, c + 1, rr + 1) == 8 * (c + 1) * (rr + 1),
            8 * (c + 1) * (rr + 1) <= 8 * 256 * 256,
            head >= 1 ==> marked_tuple(states@, space@, start_tuple()),
            head == 0 ==> states@.read(0, 0) == 0,
            head == 0 ==> queue@.len() == 1 && queue@[0] == start_tuple(),
            forall|i: int| 0 <= i < queue@.len() ==> reachable(space@, #[trigger] queue@[i]),
            forall|i: int|
                0 <= i < head ==> marked_tuple(states@, space@, #[trigger] queue@[i]),
            forall|p2: Position, d2: Direction, dm2: Mode| #[trigger]
                marked(states@, p2, d2, dm2) ==> reachable_mark(space@, p2, d2, dm2),
            forall|p2: Position, d2: Direction, dm2: Mode| #[trigger]
                marked(states@, p2, d2, dm2) ==> exists|m0: Mode|
                    #[trigger] draw_mode_at(space@, p2, m0) == dm2 && covered(
                        states@,
                        space@,
                        queue@,
                        head as int,
                        (p2, d2, m0),
                    ),
        decreases missing_total(states@, c + 1, rr + 1), queue@.len() - head,
    {
        let ghost h0 = head as int;
        let ghost q0 = queue@;
        let (pos, dir, mode) = queue[head];
        let ghost t = (pos, dir, mode);
        head = head + 1;
        let cell = space.get_cell(pos);

        // quotes always show as visited in quote mode
        let draw_mode = if cell == 34 {
            Mode::Quote
        } else {
            mode
        };
        proof {
            assert(t == q0[h0]);
            assert(draw_mode == draw_mode_at(space@, pos, mode));
        }
        let old_state = State(states.get_cell(pos));
        let new_state = old_state.update(dir, draw_mode);
        if old_state.0 == new_state.0 {
            // fixpoint: this tuple had already left its mark
            proof {
                lemma_missing_total_bounds(states@, c + 1, rr + 1);
                if h0 == 0 {
                    // the very first tuple always sets a bit
                    let m = mask_of(dir, draw_mode);
                    assert((0u8 | m) != 0) by (bit_vector)
                        requires
                            m == 1 || m == 2 || m == 4 || m == 8 || m == 16 || m == 32 || m == 64
                                || m == 128,
                    ;
                    assert(false);
                }
                let m = mask_of(dir, draw_mode);
                lemma_or_mark(old_state.0, m, m);
                assert(marked_tuple(states@, space@, t));
                // the same witnesses cover the shorter window
                assert forall|p2: Position, d2: Direction, dm2: Mode| #[trigger]
                    marked(states@, p2, d2, dm2) implies exists|m0: Mode|
                        #[trigger] draw_mode_at(space@, p2, m0) == dm2 && covered(
                            states@,
                            space@,
                            queue@,
                            head as int,
                            (p2, d2, m0),
                        ) by {
                    let m0 = choose|m0: Mode|
                        #[trigger] draw_mode_at(space@, p2, m0) == dm2 && covered(
                            states@,
                            space@,
                            queue@,
                            h0,
                            (p2, d2, m0),
                        );
                    assert forall|s: (Position, Direction, Mode)| #[trigger]
                        is_successor(space@, (p2, d2, m0), s) implies marked_tuple(
                        states@,
                        space@,
                        s,
                    ) || pending(queue@, head as int, s) by {
                        if !marked_tuple(states@, space@, s) {
                            let j = choose|j: int|
                                h0 <= j < queue@.len() && #[trigger] queue@[j] == s;
                            if j == h0 {
                                assert(s == t);
                            } else {
                                assert(pending(queue@, head as int, s));
                            }
                        }
                    }
                    assert(covered(states@, space@, queue@, head as int, (p2, d2, m0)));
                }
            }
        } else {
            let ghost pre = states@;
            states.set_cell(pos, new_state.0);
            proof {
                lemma_or_bit(old_state.0, mask_of(dir, draw_mode));
                assert(states@.read(pos.x as int, pos.y as int) != 0);
                if !(pos.x == 0 && pos.y == 0) {
                    assert(states@.read(0, 0) == pre.read(0, 0));
                }
                assert(missing(states@.read(pos.x as int, pos.y as int)) == missing(
                    pre.read(pos.x as int, pos.y as int),
                ) - 1);
                lemma_missing_total_update(
                    pre,
                    states@,
                    c + 1,
                    rr + 1,
                    pos.x as int,
                    pos.y as int,
                    -1,
                );
                lemma_missing_total_bounds(states@, c + 1, rr + 1);
            }
            updates = updates + 1;
            // the mode the successors run under
            let next_mode = if cell == 34 {
                match mode {
                    Mode::Quote => Mode::Normal,
                    Mode::Normal => Mode::Quote,
                }
            } else {
                mode
            };
            proof {
                lemma_wrap_in_bounds(space@, pos, Direction::Up);
                lemma_wrap_in_bounds(space@, pos, Direction::Down);
                lemma_wrap_in_bounds(space@, pos, Direction::Left);
                lemma_wrap_in_bounds(space@, pos, Direction::Right);
                assert(next_mode == next_mode_at(space@, pos, mode));
            }
            if matches!(next_mode, Mode::Quote) {
                push_step(space, &mut queue, pos, dir, next_mode);
                proof {
                    assert(queue@[queue@.len() - 1] == (space@.wrap(pos, dir), dir, next_mode));
                    assert forall|i2: int| 0 <= i2 < q0.len() implies queue@[i2] == q0[i2] by {}
                    assert forall|s: (Position, Direction, Mode)| #[trigger] is_successor(
                        space@,
                        t,
                        s,
                    ) implies marked_tuple(states@, space@, s) || pending(
                        queue@,
                        head as int,
                        s,
                    ) by {
                        assert(pending(queue@, head as int, s));
                    }
                    assert(covered(states@, space@, queue@, head as int, t));
                    assert forall|i2: int| 0 <= i2 < queue@.len() implies reachable(
                        space@,
                        #[trigger] queue@[i2],
                    ) by {
                        if i2 < q0.len() {
                            assert(queue@[i2] == q0[i2]);
                        } else {
                            lemma_step_reachable(space@, t, queue@[i2]);
                        }
                    }
                }
            } else {
                match cell {
                    94u8 => {
                        push_step(space, &mut queue, pos, Direction::Up, next_mode);
                    proof {
                            assert(queue@[queue@.len() - 1] == (space@.wrap(pos, Direction::Up), Direction::Up, next_mode));
                            assert forall|i2: int| 0 <= i2 < q0.len() implies queue@[i2] == q0[i2] by {}
                            assert forall|s: (Position, Direction, Mode)| #[trigger] is_successor(
                                space@,
                                t,
                                s,
                            ) implies marked_tuple(states@, space@, s) || pending(queue@, head as int, s) by {
                                if s == (space@.wrap(pos, Direction::Up), Direction::Up, next_mode) {
                                    assert(queue@[queue@.len() - 1] == s);
                                    assert(pending(queue@, head as int, s));
                                }
                            }
                            assert(covered(states@, space@, queue@, head as int, t));
                            assert forall|i2: int| 0 <= i2 < queue@.len() implies reachable(
                                space@,
                                #[trigger] queue@[i2],
                            ) by {
                                if i2 < q0.len() {
                                    assert(queue@[i2] == q0[i2]);
                                } else {
                                    lemma_step_reachable(space@, t, queue@[i2]);
                                }
                            }
                        }
                    },
                    118u8 => {
                        push_step(space, &mut queue, pos, Direction::Down, next_mode);
                    proof {
                            assert(queue@[queue@.len() - 1] == (space@.wrap(pos, Direction::Down), Direction::Down, next_mode));
                            assert forall|i2: int| 0 <= i2 < q0.len() implies queue@[i2] == q0[i2] by {}
                            assert forall|s: (Position, Direction, Mode)| #[trigger] is_successor(
                                space@,
                                t,
                                s,
                            ) implies marked_tuple(states@, space@, s) || pending(queue@, head as int, s) by {
                                if s == (space@.wrap(pos, Direction::Down), Direction::Down, next_mode) {
                                    assert(queue@[queue@.len() - 1] == s);
                                    assert(pending(queue@, head as int, s));
                                }
                            }
                            assert(covered(states@, space@, queue@, head as int, t));
                            assert forall|i2: int| 0 <= i2 < queue@.len() implies reachable(
                                space@,
                                #[trigger] queue@[i2],
                            ) by {
                                if i2 < q0.len() {
                                    assert(queue@[i2] == q0[i2]);
                                } else {
                                    lemma_step_reachable(space@, t, queue@[i2]);
                                }
                            }
                        }
                    },
                    60u8 => {
                        push_step(space, &mut queue, pos, Direction::Left, next_mode);
                    proof {
                            assert(queue@[queue@.len() - 1] == (space@.wrap(pos, Direction::Left), Direction::Left, next_mode));
                            assert forall|i2: int| 0 <= i2 < q0.len() implies queue@[i2] == q0[i2] by {}
                            assert forall|s: (Position, Direction, Mode)| #[trigger] is_successor(
                                space@,
                                t,
                                s,
                            ) implies marked_tuple(states@, space@, s) || pending(queue@, head as int, s) by {
                                if s == (space@.wrap(pos, Direction::Left), Direction::Left, next_mode) {
                                    assert(queue@[queue@.len() - 1] == s);
                                    assert(pending(queue@, head as int, s));
                                }
                            }
                            assert(covered(states@, space@, queue@, head as int, t));
                            assert forall|i2: int| 0 <= i2 < queue@.len() implies reachable(
                                space@,
                                #[trigger] queue@[i2],
                            ) by {
                                if i2 < q0.len() {
                                    assert(queue@[i2] == q0[i2]);
                                } else {
                                    lemma_step_reachable(space@, t, queue@[i2]);
                                }
                            }
                        }
                    },
                    62u8 => {
                        push_step(space, &mut queue, pos, Direction::Right, next_mode);
                    proof {
                            assert(queue@[queue@.len() - 1] == (space@.wrap(pos, Direction::Right), Direction::Right, next_mode));
                            assert forall|i2: int| 0 <= i2 < q0.len() implies queue@[i2] == q0[i2] by {}
                            assert forall|s: (Position, Direction, Mode)| #[trigger] is_successor(
                                space@,
                                t,
                                s,
                            ) implies marked_tuple(states@, space@, s) || pending(queue@, head as int, s) by {
                                if s == (space@.wrap(pos, Direction::Right), Direction::Right, next_mode) {
                                    assert(queue@[queue@.len() - 1] == s);
                                    assert(pending(queue@, head as int, s));
                                }
                            }
                            assert(covered(states@, space@, queue@, head as int, t));
                            assert forall|i2: int| 0 <= i2 < queue@.len() implies reachable(
                                space@,
                                #[trigger] queue@[i2],
                            ) by {
                                if i2 < q0.len() {
                                    assert(queue@[i2] == q0[i2]);
                                } else {
                                    lemma_step_reachable(space@, t, queue@[i2]);
                                }
                            }
                        }
                    },
                    63u8 => {
                        push_step(space, &mut queue, pos, Direction::Up, next_mode);
                        push_step(space, &mut queue, pos, Direction::Down, next_mode);
                        push_step(space, &mut queue, pos, Direction::Left, next_mode);
                        push_step(space, &mut queue, pos, Direction::Right, next_mode);
                    proof {
                            assert(queue@[queue@.len() - 4] == (space@.wrap(pos, Direction::Up), Direction::Up, next_mode));
                            assert(queue@[queue@.len() - 3] == (space@.wrap(pos, Direction::Down), Direction::Down, next_mode));
                            assert(queue@[queue@.len() - 2] == (space@.wrap(pos, Direction::Left), Direction::Left, next_mode));
                            assert(queue@[queue@.len() - 1] == (space@.wrap(pos, Direction::Right), Direction::Right, next_mode));
                            assert forall|i2: int| 0 <= i2 < q0.len() implies queue@[i2] == q0[i2] by {}
                            assert forall|s: (Position, Direction, Mode)| #[trigger] is_successor(
                                space@,
                                t,
                                s,
                            ) implies marked_tuple(states@, space@, s) || pending(queue@, head as int, s) by {
                                if s == (space@.wrap(pos, Direction::Up), Direction::Up, next_mode) {
                                    assert(queue@[queue@.len() - 4] == s);
                                    assert(pending(queue@, head as int, s));
                                }
                                if s == (space@.wrap(pos, Direction::Down), Direction::Down, next_mode) {
                                    assert(queue@[queue@.len() - 3] == s);
                                    assert(pending(queue@, head as int, s));
                                }
                                if s == (space@.wrap(pos, Direction::Left), Direction::Left, next_mode) {
                                    assert(queue@[queue@.len() - 2] == s);
                                    assert(pending(queue@, head as int, s));
                                }
                                if s == (space@.wrap(pos, Direction::Right), Direction::Right, next_mode) {
                                    assert(queue@[queue@.len() - 1] == s);
                                    assert(pending(queue@, head as int, s));
                                }
                            }
                            assert(covered(states@, space@, queue@, head as int, t));
                            assert forall|i2: int| 0 <= i2 < queue@.len() implies reachable(
                                space@,
                                #[trigger] queue@[i2],
                            ) by {
                                if i2 < q0.len() {
                                    assert(queue@[i2] == q0[i2]);
                                } else {
                                    lemma_step_reachable(space@, t, queue@[i2]);
                                }
                            }
                        }
                    },
                    124u8 => {
                        push_step(space, &mut queue, pos, Direction::Up, next_mode);
                        push_step(space, &mut queue, pos, Direction::Down, next_mode);
                    proof {
                            assert(queue@[queue@.len() - 2] == (space@.wrap(pos, Direction::Up), Direction::Up, next_mode));
                            assert(queue@[queue@.len() - 1] == (space@.wrap(pos, Direction::Down), Direction::Down, next_mode));
                            assert forall|i2: int| 0 <= i2 < q0.len() implies queue@[i2] == q0[i2] by {}
                            assert forall|s: (Position, Direction, Mode)| #[trigger] is_successor(
                                space@,
                                t,
                                s,
                            ) implies marked_tuple(states@, space@, s) || pending(queue@, head as int, s) by {
                                if s == (space@.wrap(pos, Direction::Up), Direction::Up, next_mode) {
                                    assert(queue@[queue@.len() - 2] == s);
                                    assert(pending(queue@, head as int, s));
                                }
                                if s == (space@.wrap(pos, Direction::Down), Direction::Down, next_mode) {
                                    assert(queue@[queue@.len() - 1] == s);
                                    assert(pending(queue@, head as int, s));
                                }
                            }
                            assert(covered(states@, space@, queue@, head as int, t));
                            assert forall|i2: int| 0 <= i2 < queue@.len() implies reachable(
                                space@,
                                #[trigger] queue@[i2],
                            ) by {
                                if i2 < q0.len() {
                                    assert(queue@[i2] == q0[i2]);
                                } else {
                                    lemma_step_reachable(space@, t, queue@[i2]);
                                }
                            }
                        }
                    },
                    95u8 => {
                        push_step(space, &mut queue, pos, Direction::Left, next_mode);
                        push_step(space, &mut queue, pos, Direction::Right, next_mode);
                    proof {
                            assert(queue@[queue@.len() - 2] == (space@.wrap(pos, Direction::Left), Direction::Left, next_mode));
                            assert(queue@[queue@.len() - 1] == (space@.wrap(pos, Direction::Right), Direction::Right, next_mode));
                            assert forall|i2: int| 0 <= i2 < q0.len() implies queue@[i2] == q0[i2] by {}
                            assert forall|s: (Position, Direction, Mode)| #[trigger] is_successor(
                                space@,
                                t,
                                s,
                            ) implies marked_tuple(states@, space@, s) || pending(queue@, head as int, s) by {
                                if s == (space@.wrap(pos, Direction::Left), Direction::Left, next_mode) {
                                    assert(queue@[queue@.len() - 2] == s);
                                    assert(pending(queue@, head as int, s));
                                }
                                if s == (space@.wrap(pos, Direction::Right), Direction::Right, next_mode) {
                                    assert(queue@[queue@.len() - 1] == s);
                                    assert(pending(queue@, head as int, s));
                                }
                            }
                            assert(covered(states@, space@, queue@, head as int, t));
                            assert forall|i2: int| 0 <= i2 < queue@.len() implies reachable(
                                space@,
                                #[trigger] queue@[i2],
                            ) by {
                                if i2 < q0.len() {
                                    assert(queue@[i2] == q0[i2]);
                                } else {
                                    lemma_step_reachable(space@, t, queue@[i2]);
                                }
                            }
                        }
                    },
                    35u8 => {
                        // skip over the next cell
                        let p1 = space.move_pos(pos, dir);
                        let p2 = space.move_pos(p1, dir);
                        proof {
                            lemma_wrap_in_bounds(space@, space@.wrap(pos, dir), dir);
                        }
                        queue.push((p2, dir, next_mode));
                    proof {
                            assert(queue@[queue@.len() - 1] == (space@.wrap(space@.wrap(pos, dir), dir), dir, next_mode));
                            assert forall|i2: int| 0 <= i2 < q0.len() implies queue@[i2] == q0[i2] by {}
                            assert forall|s: (Position, Direction, Mode)| #[trigger] is_successor(
                                space@,
                                t,
                                s,
                            ) implies marked_tuple(states@, space@, s) || pending(queue@, head as int, s) by {
                                if s == (space@.wrap(space@.wrap(pos, dir), dir), dir, next_mode) {
                                    assert(queue@[queue@.len() - 1] == s);
                                    assert(pending(queue@, head as int, s));
                                }
                            }
                            assert(covered(states@, space@, queue@, head as int, t));
                            assert forall|i2: int| 0 <= i2 < queue@.len() implies reachable(
                                space@,
                                #[trigger] queue@[i2],
                            ) by {
                                if i2 < q0.len() {
                                    assert(queue@[i2] == q0[i2]);
                                } else {
                                    lemma_step_reachable(space@, t, queue@[i2]);
                                }
                            }
                        }
                    },
                    64u8 => {
                        // terminal: no successor
                    proof {
                            assert forall|i2: int| 0 <= i2 < q0.len() implies queue@[i2] == q0[i2] by {}
                            assert forall|s: (Position, Direction, Mode)| #[trigger] is_successor(
                                space@,
                                t,
                                s,
                            ) implies marked_tuple(states@, space@, s) || pending(queue@, head as int, s) by {
                            }
                            assert(covered(states@, space@, queue@, head as int, t));
                            assert forall|i2: int| 0 <= i2 < queue@.len() implies reachable(
                                space@,
                                #[trigger] queue@[i2],
                            ) by {
                                if i2 < q0.len() {
                                    assert(queue@[i2] == q0[i2]);
                                } else {
                                    lemma_step_reachable(space@, t, queue@[i2]);
                                }
                            }
                        }
                    },
                    _ => {
                        push_step(space, &mut queue, pos, dir, next_mode);
                    proof {
                            assert(queue@[queue@.len() - 1] == (space@.wrap(pos, dir), dir, next_mode));
                            assert forall|i2: int| 0 <= i2 < q0.len() implies queue@[i2] == q0[i2] by {}
                            assert forall|s: (Position, Direction, Mode)| #[trigger] is_successor(
                                space@,
                                t,
                                s,
                            ) implies marked_tuple(states@, space@, s) || pending(queue@, head as int, s) by {
                                if s == (space@.wrap(pos, dir), dir, next_mode) {
                                    assert(queue@[queue@.len() - 1] == s);
                                    assert(pending(queue@, head as int, s));
                                }
                            }
                            assert(covered(states@, space@, queue@, head as int, t));
                            assert forall|i2: int| 0 <= i2 < queue@.len() implies reachable(
                                space@,
                                #[trigger] queue@[i2],
                            ) by {
                                if i2 < q0.len() {
                                    assert(queue@[i2] == q0[i2]);
                                } else {
                                    lemma_step_reachable(space@, t, queue@[i2]);
                                }
                            }
                        }
                    },
                }
            }
            proof {
                let m = mask_of(dir, draw_mode);
                let preb = pre.read(pos.x as int, pos.y as int);
                assert(states@.read(pos.x as int, pos.y as int) == old_state.0 | m);
                assert(preb == old_state.0);
                // the write adds exactly this tuple's mark
                assert forall|p2: Position, d2: Direction, dm2: Mode| #[trigger]
                    marked(states@, p2, d2, dm2) implies (marked(pre, p2, d2, dm2) || (p2 == pos
                    && d2 == dir && dm2 == draw_mode)) by {
                    if p2 == pos {
                        lemma_or_mark(preb, m, mask_of(d2, dm2));
                        if mask_of(d2, dm2) == m {
                            lemma_mask_of_injective(d2, dm2, dir, draw_mode);
                        }
                    } else {
                        assert(states@.read(p2.x as int, p2.y as int) == pre.read(
                            p2.x as int,
                            p2.y as int,
                        ));
                    }
                }
                // and keeps every mark that was there
                assert forall|p2: Position, d2: Direction, dm2: Mode|
                    marked(pre, p2, d2, dm2) implies #[trigger] marked(states@, p2, d2, dm2) by {
                    if p2 == pos {
                        lemma_or_mark(preb, m, mask_of(d2, dm2));
                    } else {
                        assert(states@.read(p2.x as int, p2.y as int) == pre.read(
                            p2.x as int,
                            p2.y as int,
                        ));
                    }
                }
                lemma_or_mark(preb, m, m);
                assert(marked_tuple(states@, space@, t));
                // every tuple popped so far has left its mark
                assert forall|i2: int| 0 <= i2 < head implies marked_tuple(
                    states@,
                    space@,
                    #[trigger] queue@[i2],
                ) by {
                    assert(queue@[i2] == q0[i2]);
                    if i2 < h0 {
                        assert(marked_tuple(pre, space@, q0[i2]));
                    } else {
                        assert(q0[i2] == t);
                    }
                }
                // every mark traces back to a reachable arrival
                assert forall|p2: Position, d2: Direction, dm2: Mode| #[trigger]
                    marked(states@, p2, d2, dm2) implies reachable_mark(space@, p2, d2, dm2) by {
                    if !marked(pre, p2, d2, dm2) {
                        assert(p2 == pos && d2 == dir && dm2 == draw_mode);
                        assert(draw_mode_at(space@, pos, mode) == dm2);
                        assert(reachable(space@, t));
                    }
                }
                // every mark owns a witness whose successors are
                // marked or pending
                assert forall|p2: Position, d2: Direction, dm2: Mode| #[trigger]
                    marked(states@, p2, d2, dm2) implies exists|m0: Mode|
                        #[trigger] draw_mode_at(space@, p2, m0) == dm2 && covered(
                            states@,
                            space@,
                            queue@,
                            head as int,
                            (p2, d2, m0),
                        ) by {
                    if marked(pre, p2, d2, dm2) {
                        let m0 = choose|m0: Mode|
                            #[trigger] draw_mode_at(space@, p2, m0) == dm2 && covered(
                                pre,
                                space@,
                                q0,
                                h0,
                                (p2, d2, m0),
                            );
                        assert forall|s: (Position, Direction, Mode)| #[trigger]
                            is_successor(space@, (p2, d2, m0), s) implies marked_tuple(
                            states@,
                            space@,
                            s,
                        ) || pending(queue@, head as int, s) by {
                            if !marked_tuple(pre, space@, s) {
                                let j = choose|j: int|
                                    h0 <= j < q0.len() && #[trigger] q0[j] == s;
                                if j == h0 {
                                    assert(s == t);
                                } else {
                                    assert(queue@[j] == q0[j]);
                                    assert(pending(queue@, head as int, s));
                                }
                            }
                        }
                        assert(covered(states@, space@, queue@, head as int, (p2, d2, m0)));
                    } else {
                        assert(p2 == pos && d2 == dir && dm2 == draw_mode);
                        assert(draw_mode_at(space@, pos, mode) == dm2);
                        assert((p2, d2, mode) == t);
                        assert(covered(states@, space@, queue@, head as int, (p2, d2, mode)));
                    }
                }
                // the start tuple's mark, once set, never leaves
                if h0 == 0 {
                    assert(t == start_tuple());
                } else {
                    assert(marked_tuple(pre, space@, start_tuple()));
                }
            }
        }
    }
    proof {
        lemma_missing_total_bounds(states@, c + 1, rr + 1);
        // the worklist is drained: every cover is final, and the
        // start tuple was processed first
        assert(head >= 1);
        assert forall|p2: Position, d2: Direction, dm2: Mode| #[trigger]
            marked(states@, p2, d2, dm2) implies exists|m0: Mode|
                #[trigger] draw_mode_at(space@, p2, m0) == dm2 && succs_marked(
                    states@,
                    space@,
                    (p2, d2, m0),
                ) by {
            let m0 = choose|m0: Mode|
                #[trigger] draw_mode_at(space@, p2, m0) == dm2 && covered(
                    states@,
                    space@,
                    queue@,
                    head as int,
                    (p2, d2, m0),
                );
            assert forall|s: (Position, Direction, Mode)| #[trigger]
                is_successor(space@, (p2, d2, m0), s) implies marked_tuple(
                states@,
                space@,
                s,
            ) by {
                if pending(queue@, head as int, s) {
                    let j = choose|j: int|
                        head <= j < queue@.len() && #[trigger] queue@[j] == s;
                    assert(false);
                }
            }
            assert(succs_marked(states@, space@, (p2, d2, m0)));
        }
        assert(marked_tuple(states@, space@, start_tuple()));
        let sm = mask_of(
            Direction::Right,
            draw_mode_at(space@, Position { x: 0u8, y: 0u8 }, Mode::Normal),
        );
        lemma_zero_mask(sm);
        assert(states@.read(0, 0) != 0);
        assert(analysis_valid(space@, states@));
    }
    (states, updates)
}

} // verus!
