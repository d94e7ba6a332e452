//! The interpreter: a step-at-a-time opcode dispatcher over a byte
//! stack, with wrapping byte arithmetic, a string-mode toggle,
//! space-skipping, and non-blocking suspension on input.

use vstd::prelude::*;

use rand::seq::IndexedRandom;

use crate::cursor::{Cursor, Direction, Mode, Position};
use crate::io::{read_number_consumed, read_number_value, IO};
use crate::record::{absorb_all, apply_event, apply_events, Event, Record};
use crate::space::{Space, SpaceModel};

verus! {

/// The status of the interpreter after it has executed an
/// instruction.
#[derive(PartialEq, Eq, Structural, Hash, Clone, Copy, Debug)]
pub enum Status {
    /// The result of most normal instructions.
    Completed,
    /// The result of executing an input instruction with an empty
    /// input buffer; the instruction will be retried.
    Waiting,
    /// The result of executing the termination instruction.
    Terminated,
    /// The step went wrong; the error says how.
    Error(InterpreterError),
}

/// What can go wrong during a step.
#[derive(PartialEq, Eq, Structural, Hash, Clone, Copy, Debug)]
pub enum InterpreterError {
    /// Space-skipping came back around to where it started.
    InfiniteLoop,
    /// The byte under the cursor is no instruction.
    InvalidOpcode(u8),
}

/// The observable state of an interpreter: the space, the cursor, the
/// stack, and what its input and output channels hold.
pub ghost struct Machine {
    /// The program space.
    pub space: SpaceModel,
    /// Where the cursor stands, where it heads, and its mode.
    pub cursor: Cursor,
    /// The byte stack, bottom first.
    pub stack: Seq<u8>,
    /// The bytes waiting to be read.
    pub input: Seq<u8>,
    /// The bytes written so far.
    pub output: Seq<u8>,
}

/// Everything one step yields: the successor machine, the status, and
/// the mutation events the step records (step boundaries excluded).
pub ghost struct StepOutcome {
    /// The machine after the step.
    pub machine: Machine,
    /// What the step reported.
    pub status: Status,
    /// The mutation events of the step, in order.
    pub events: Seq<Event>,
}

/// Popping once: the top byte (zero when the stack is empty, which is
/// never fatal), the remaining stack, and the event recorded.
pub open spec fn pop1(s: Seq<u8>) -> (u8, Seq<u8>, Event) {
    if s.len() > 0 {
        (s.last(), s.drop_last(), Event::Pop { top: s.last() })
    } else {
        (0u8, s, Event::PopBottom)
    }
}

/// The decimal digits of a byte, most significant first.
pub open spec fn dec_bytes(v: u8) -> Seq<u8> {
    if v < 10 {
        seq![(48 + v) as u8]
    } else if v < 100 {
        seq![(48 + v / 10) as u8, (48 + v % 10) as u8]
    } else {
        seq![(48 + v / 100) as u8, (48 + (v / 10) % 10) as u8, (48 + v % 10) as u8]
    }
}

/// How many cells space-skipping will look at before giving up; large
/// enough that it only ever stops early on an orbit that never comes
/// back to its starting cell.
pub const SKIP_LIMIT: usize = 600;

/// Space-skipping from `cur`, having started at `start`: the first
/// non-space cell along the ray, or failure when the walk returns to
/// its starting cell (or runs out of fuel) while still on spaces.
pub open spec fn skip_rec(
    space: SpaceModel,
    start: Position,
    cur: Position,
    dir: Direction,
    fuel: nat,
) -> (bool, Position)
    decreases fuel,
{
    if space.read(cur.x as int, cur.y as int) != 32 {
        (true, cur)
    } else if fuel == 0 {
        (false, cur)
    } else {
        let next = space.wrap(cur, dir);
        if next == start {
            (false, next)
        } else {
            skip_rec(space, start, next, dir, (fuel - 1) as nat)
        }
    }
}

/// Applies the space-skipping phase to a dispatched step: in normal
/// mode the cursor slides over spaces, and a walk that bites its own
/// tail turns the step into an infinite-loop error.
pub open spec fn with_skip(m: Machine, status: Status, mid: Seq<Event>) -> StepOutcome {
    if m.cursor.mode is Normal {
        let (ok, p) = skip_rec(m.space, m.cursor.pos, m.cursor.pos, m.cursor.dir, SKIP_LIMIT as nat);
        StepOutcome {
            machine: Machine { cursor: Cursor { pos: p, ..m.cursor }, ..m },
            status: if ok {
                status
            } else {
                Status::Error(InterpreterError::InfiniteLoop)
            },
            events: mid,
        }
    } else {
        StepOutcome { machine: m, status, events: mid }
    }
}

/// One step in quote mode, before the space-skipping phase: a double
/// quote returns to normal mode, any other byte is pushed literally;
/// the cursor always advances.
pub open spec fn quote_dispatch(m: Machine, op: u8) -> (Machine, Status, Seq<Event>) {
    if op == 34 {
        (
            Machine {
                cursor: Cursor {
                    pos: m.space.wrap(m.cursor.pos, m.cursor.dir),
                    dir: m.cursor.dir,
                    mode: Mode::Normal,
                },
                ..m
            },
            Status::Completed,
            seq![Event::ExitQuote],
        )
    } else {
        (
            Machine {
                cursor: Cursor { pos: m.space.wrap(m.cursor.pos, m.cursor.dir), ..m.cursor },
                stack: m.stack.push(op),
                ..m
            },
            Status::Completed,
            seq![Event::Push { top: op }],
        )
    }
}

/// One dispatched instruction in normal mode, move included, but
/// before the space-skipping phase. Division and modulus by zero
/// push zero.
pub open spec fn normal_dispatch(m: Machine, op: u8, rd: Direction) -> (Machine, Status, Seq<
    Event,
>) {
    let pos = m.cursor.pos;
    let dir = m.cursor.dir;
    if op == 43 || op == 45 || op == 42 || op == 47 || op == 37 || op == 96 {
        // binary arithmetic and comparison: the second pop is the left
        // operand
        let (b, s1, e1) = pop1(m.stack);
        let (a, s2, e2) = pop1(s1);
        let v: u8 = if op == 43 {
            ((a + b) % 256) as u8
        } else if op == 45 {
            ((a - b) % 256) as u8
        } else if op == 42 {
            ((a * b) % 256) as u8
        } else if op == 47 {
            if b == 0 {
                0u8
            } else {
                (a / b) as u8
            }
        } else if op == 37 {
            if b == 0 {
                0u8
            } else {
                (a % b) as u8
            }
        } else {
            if a > b {
                1u8
            } else {
                0u8
            }
        };
        (
            Machine { stack: s2.push(v), ..m },
            Status::Completed,
            seq![e1, e2, Event::Push { top: v }],
        )
    } else if op == 33 {
        let (a, s1, e1) = pop1(m.stack);
        let v: u8 = if a == 0 {
            1u8
        } else {
            0u8
        };
        (Machine { stack: s1.push(v), ..m }, Status::Completed, seq![e1, Event::Push { top: v }])
    } else if op == 62 {
        (
            Machine { cursor: Cursor { dir: Direction::Right, ..m.cursor }, ..m },
            Status::Completed,
            Seq::empty(),
        )
    } else if op == 60 {
        (
            Machine { cursor: Cursor { dir: Direction::Left, ..m.cursor }, ..m },
            Status::Completed,
            Seq::empty(),
        )
    } else if op == 94 {
        (
            Machine { cursor: Cursor { dir: Direction::Up, ..m.cursor }, ..m },
            Status::Completed,
            Seq::empty(),
        )
    } else if op == 118 {
        (
            Machine { cursor: Cursor { dir: Direction::Down, ..m.cursor }, ..m },
            Status::Completed,
            Seq::empty(),
        )
    } else if op == 63 {
        (
            Machine { cursor: Cursor { dir: rd, ..m.cursor }, ..m },
            Status::Completed,
            Seq::empty(),
        )
    } else if op == 95 {
        let (a, s1, e1) = pop1(m.stack);
        let d = if a == 0 {
            Direction::Right
        } else {
            Direction::Left
        };
        (Machine { cursor: Cursor { dir: d, ..m.cursor }, stack: s1, ..m }, Status::Completed, seq![e1])
    } else if op == 124 {
        let (a, s1, e1) = pop1(m.stack);
        let d = if a == 0 {
            Direction::Down
        } else {
            Direction::Up
        };
        (Machine { cursor: Cursor { dir: d, ..m.cursor }, stack: s1, ..m }, Status::Completed, seq![e1])
    } else if op == 34 {
        (
            Machine { cursor: Cursor { mode: Mode::Quote, ..m.cursor }, ..m },
            Status::Completed,
            seq![Event::EnterQuote],
        )
    } else if op == 58 {
        let (a, s1, e1) = pop1(m.stack);
        (
            Machine { stack: s1.push(a).push(a), ..m },
            Status::Completed,
            seq![e1, Event::Push { top: a }, Event::Push { top: a }],
        )
    } else if op == 92 {
        let (b, s1, e1) = pop1(m.stack);
        let (a, s2, e2) = pop1(s1);
        (
            Machine { stack: s2.push(b).push(a), ..m },
            Status::Completed,
            seq![e1, e2, Event::Push { top: b }, Event::Push { top: a }],
        )
    } else if op == 36 {
        let (a, s1, e1) = pop1(m.stack);
        (Machine { stack: s1, ..m }, Status::Completed, seq![e1])
    } else if op == 46 {
        let (a, s1, e1) = pop1(m.stack);
        (
            Machine { stack: s1, output: m.output + dec_bytes(a) + seq![32u8], ..m },
            Status::Completed,
            seq![e1],
        )
    } else if op == 44 {
        let (a, s1, e1) = pop1(m.stack);
        (Machine { stack: s1, output: m.output.push(a), ..m }, Status::Completed, seq![e1])
    } else if op == 35 {
        (
            Machine { cursor: Cursor { pos: m.space.wrap(pos, dir), ..m.cursor }, ..m },
            Status::Completed,
            Seq::empty(),
        )
    } else if op == 103 {
        let (yy, s1, e1) = pop1(m.stack);
        let (xx, s2, e2) = pop1(s1);
        let v = m.space.read(xx as int, yy as int);
        (
            Machine { stack: s2.push(v), ..m },
            Status::Completed,
            seq![e1, e2, Event::Push { top: v }],
        )
    } else if op == 112 {
        let (yy, s1, e1) = pop1(m.stack);
        let (xx, s2, e2) = pop1(s1);
        let (v, s3, e3) = pop1(s2);
        let at = Position { x: xx, y: yy };
        let before = m.space.read(xx as int, yy as int);
        (
            Machine { space: m.space.write(xx as int, yy as int, v), stack: s3, ..m },
            Status::Completed,
            seq![e1, e2, e3, Event::Replace { at, before, after: v }],
        )
    } else if op == 38 {
        let consumed = read_number_consumed(m.input);
        match read_number_value(m.input) {
            Some(v) => (
                Machine { stack: m.stack.push(v), input: m.input.skip(consumed), ..m },
                Status::Completed,
                seq![Event::Push { top: v }],
            ),
            None => (
                Machine { input: m.input.skip(consumed), ..m },
                Status::Waiting,
                Seq::empty(),
            ),
        }
    } else if op == 126 {
        if m.input.len() > 0 {
            (
                Machine { stack: m.stack.push(m.input[0]), input: m.input.drop_first(), ..m },
                Status::Completed,
                seq![Event::Push { top: m.input[0] }],
            )
        } else {
            (m, Status::Waiting, Seq::empty())
        }
    } else if op == 64 {
        (m, Status::Terminated, Seq::empty())
    } else if 48 <= op <= 57 {
        let v = (op - 48) as u8;
        (Machine { stack: m.stack.push(v), ..m }, Status::Completed, seq![Event::Push { top: v }])
    } else if op == 32 {
        (m, Status::Completed, Seq::empty())
    } else {
        (m, Status::Error(InterpreterError::InvalidOpcode(op)), Seq::empty())
    }
}

/// One normal-mode instruction with the single cursor advance of a
/// completed instruction, before the space-skipping phase.
pub open spec fn dispatch_move(m: Machine, op: u8, rd: Direction) -> (Machine, Status, Seq<
    Event,
>) {
    let (m1, status, mid) = normal_dispatch(m, op, rd);
    let m2 = if status is Completed {
        Machine {
            cursor: Cursor { pos: m1.space.wrap(m1.cursor.pos, m1.cursor.dir), ..m1.cursor },
            ..m1
        }
    } else {
        m1
    };
    (m2, status, mid)
}

/// What one `step()` call does to a machine, given the direction `rd`
/// a random-direction instruction would take: the mode picks the
/// dispatcher, and the space-skipping phase follows whenever the step
/// ends in normal mode.
pub open spec fn step_result(m: Machine, rd: Direction) -> StepOutcome {
    let op = m.space.read(m.cursor.pos.x as int, m.cursor.pos.y as int);
    let (m2, status, mid) = if m.cursor.mode is Quote {
        quote_dispatch(m, op)
    } else {
        dispatch_move(m, op, rd)
    };
    with_skip(m2, status, mid)
}

/// The instruction byte a machine is standing on.
pub open spec fn current_op(m: Machine) -> u8 {
    m.space.read(m.cursor.pos.x as int, m.cursor.pos.y as int)
}

/// The whole event run of one step: the boundary that opens it, the
/// mutation events, and the boundary that seals or withdraws it.
pub open spec fn full_events(m: Machine, o: StepOutcome) -> Seq<Event> {
    seq![Event::StartStep { at: m.cursor.pos, instruction: current_op(m) }] + o.events + seq![
        if o.status is Waiting {
            Event::RollbackStep
        } else {
            Event::CommitStep
        },
    ]
}

/// No step boundary stands among these events.
pub open spec fn mutation_only(es: Seq<Event>) -> bool {
    forall|i: int|
        0 <= i < es.len() ==> !((#[trigger] es[i]) is StartStep || es[i] is CommitStep
            || es[i] is RollbackStep)
}

/// The full relation one `step()` call establishes, for the recorder
/// kind `R`: the machine follows `step_result`, the recorder absorbs
/// the step's event run, and replaying the mutation events against
/// the old space, stack and quote flag lands exactly on the new ones.
pub open spec fn step_rel<R: Record>(
    pre: Machine,
    pre_rec: R::Model,
    post: Machine,
    post_rec: R::Model,
    status: Status,
    rd: Direction,
) -> bool {
    let o = step_result(pre, rd);
    &&& post == o.machine
    &&& status == o.status
    &&& post_rec == absorb_all::<R>(pre_rec, full_events(pre, o))
    &&& mutation_only(o.events)
    &&& (!(status is Waiting) ==> apply_events(pre.space, pre.stack, pre.cursor.mode is Quote, o.events)
        == (post.space, post.stack, post.cursor.mode is Quote))
    &&& (status is Waiting ==> o.events == Seq::<Event>::empty() && post.space == pre.space
        && post.stack == pre.stack && post.cursor == pre.cursor)
}

/// The relation the two mode dispatchers establish, before the
/// space-skipping phase: the machine, the status, the recorder having
/// absorbed the step's mutation events, and those events replaying
/// the step's effect on space, stack and quote flag.
pub open spec fn dispatch_rel<R: Record>(
    pre: Machine,
    pre_rec: R::Model,
    post: Machine,
    post_rec: R::Model,
    status: Status,
    op: u8,
    rd: Direction,
) -> bool {
    let (m2, st, mid) = if pre.cursor.mode is Quote {
        quote_dispatch(pre, op)
    } else {
        dispatch_move(pre, op, rd)
    };
    &&& post == m2
    &&& status == st
    &&& post_rec == absorb_all::<R>(pre_rec, mid)
    &&& mutation_only(mid)
    &&& apply_events(pre.space, pre.stack, pre.cursor.mode is Quote, mid) == (
        m2.space,
        m2.stack,
        m2.cursor.mode is Quote,
    )
}

/// Folding mutation events into a timeline only gathers them as
/// pending.
proof fn lemma_timeline_absorb_mutations(tm: crate::record::TimelineModel, mid: Seq<Event>)
    requires
        mutation_only(mid),
    ensures
        absorb_all::<crate::record::Timeline>(tm, mid) == (crate::record::TimelineModel {
            pending: tm.pending + mid,
            ..tm
        }),
    decreases mid.len(),
{
    if mid.len() == 0 {
        assert(tm.pending + mid =~= tm.pending);
    } else {
        let tm1 = crate::record::Timeline::absorb(tm, mid[0]);
        assert(tm1 == (crate::record::TimelineModel { pending: tm.pending.push(mid[0]), ..tm }));
        assert(mutation_only(mid.drop_first())) by {
            assert(forall|i: int|
                0 <= i < mid.drop_first().len() ==> mid.drop_first()[i] == mid[i + 1]);
        }
        lemma_timeline_absorb_mutations(tm1, mid.drop_first());
        assert(tm.pending.push(mid[0]) + mid.drop_first() =~= tm.pending + mid);
    }
}

/// What a whole step's event run does to a timeline that stands
/// between steps: a committed step appends its mutation events to the
/// log, a rolled-back step leaves the log as it was, and the timeline
/// stands between steps again.
pub proof fn lemma_timeline_absorb_step(
    tm: crate::record::TimelineModel,
    at: Position,
    instruction: u8,
    mid: Seq<Event>,
    commit: bool,
)
    requires
        tm.pending.len() == 0,
        mutation_only(mid),
    ensures
        ({
            let full = seq![Event::StartStep { at, instruction }] + mid + seq![
                if commit {
                    Event::CommitStep
                } else {
                    Event::RollbackStep
                },
            ];
            let tm2 = absorb_all::<crate::record::Timeline>(tm, full);
            &&& tm2.events == tm.events + (if commit {
                mid
            } else {
                Seq::<Event>::empty()
            })
            &&& tm2.pending.len() == 0
        }),
{
    let start_ev = Event::StartStep { at, instruction };
    let end_ev = if commit {
        Event::CommitStep
    } else {
        Event::RollbackStep
    };
    let full = seq![start_ev] + mid + seq![end_ev];
    crate::record::lemma_absorb_all_one::<crate::record::Timeline>(tm, start_ev);
    crate::record::lemma_absorb_all_concat::<crate::record::Timeline>(tm, seq![start_ev], mid);
    crate::record::lemma_absorb_all_concat::<crate::record::Timeline>(
        tm,
        seq![start_ev] + mid,
        seq![end_ev],
    );
    let tm1 = crate::record::Timeline::absorb(tm, start_ev);
    lemma_timeline_absorb_mutations(tm1, mid);
    let tm_mid = absorb_all::<crate::record::Timeline>(tm1, mid);
    crate::record::lemma_absorb_all_one::<crate::record::Timeline>(tm_mid, end_ev);
    assert(tm_mid.pending =~= mid);
    if !commit {
        assert(absorb_all::<crate::record::Timeline>(tm, full).events == tm.events + Seq::<
            Event,
        >::empty()) by {
            assert(tm.events + Seq::<Event>::empty() =~= tm.events);
        }
    }
}

/// A timeline replayed against a program's initial space, an empty
/// stack and the normal mode reproduces the interpreter's exact
/// observable space, stack and mode; every step preserves this,
/// whatever direction a random-direction instruction took.
pub proof fn lemma_step_preserves_replay(
    sp0: SpaceModel,
    st0: Seq<u8>,
    q0: bool,
    pre: Machine,
    pre_t: crate::record::TimelineModel,
    post: Machine,
    post_t: crate::record::TimelineModel,
    status: Status,
    rd: Direction,
)
    requires
        step_rel::<crate::record::Timeline>(pre, pre_t, post, post_t, status, rd),
        pre_t.pending.len() == 0,
        apply_events(sp0, st0, q0, pre_t.events) == (pre.space, pre.stack, pre.cursor.mode is Quote),
    ensures
        post_t.pending.len() == 0,
        apply_events(sp0, st0, q0, post_t.events) == (
            post.space,
            post.stack,
            post.cursor.mode is Quote,
        ),
{
    let o = step_result(pre, rd);
    lemma_timeline_absorb_step(
        pre_t,
        pre.cursor.pos,
        current_op(pre),
        o.events,
        !(o.status is Waiting),
    );
    if o.status is Waiting {
        assert(post_t.events == pre_t.events + Seq::<Event>::empty());
        assert(pre_t.events + Seq::<Event>::empty() =~= pre_t.events);
    } else {
        assert(post_t.events == pre_t.events + o.events);
        crate::record::lemma_apply_events_concat(sp0, st0, q0, pre_t.events, o.events);
    }
}

/// A normal-mode instruction that suspends records nothing, moves
/// nothing, and stands on an input instruction, never on a space.
proof fn lemma_dispatch_waiting(m: Machine, op: u8, rd: Direction)
    ensures
        ({
            let (m2, st, mid) = dispatch_move(m, op, rd);
            st is Waiting ==> mid == Seq::<Event>::empty() && m2.space == m.space && m2.stack
                == m.stack && m2.cursor == m.cursor && op != 32
        }),
{
}

/// Folding and replaying a one-event run.
proof fn lemma_track1<R: Record>(m0: R::Model, sp: SpaceModel, st: Seq<u8>, q: bool, e1: Event)
    ensures
        absorb_all::<R>(m0, Seq::<Event>::empty().push(e1)) == R::absorb(m0, e1),
        apply_events(sp, st, q, Seq::<Event>::empty().push(e1)) == apply_event(sp, st, q, e1),
{
    crate::record::lemma_absorb_all_push::<R>(m0, Seq::<Event>::empty(), e1);
    crate::record::lemma_apply_events_push(sp, st, q, Seq::<Event>::empty(), e1);
}

/// Folding and replaying a two-event run.
proof fn lemma_track2<R: Record>(
    m0: R::Model,
    sp: SpaceModel,
    st: Seq<u8>,
    q: bool,
    e1: Event,
    e2: Event,
)
    ensures
        absorb_all::<R>(m0, Seq::<Event>::empty().push(e1).push(e2)) == R::absorb(
            R::absorb(m0, e1),
            e2,
        ),
        apply_events(sp, st, q, Seq::<Event>::empty().push(e1).push(e2)) == ({
            let (s1, k1, q1) = apply_event(sp, st, q, e1);
            apply_event(s1, k1, q1, e2)
        }),
{
    lemma_track1::<R>(m0, sp, st, q, e1);
    crate::record::lemma_absorb_all_push::<R>(m0, Seq::<Event>::empty().push(e1), e2);
    crate::record::lemma_apply_events_push(sp, st, q, Seq::<Event>::empty().push(e1), e2);
}

/// Folding and replaying a three-event run.
proof fn lemma_track3<R: Record>(
    m0: R::Model,
    sp: SpaceModel,
    st: Seq<u8>,
    q: bool,
    e1: Event,
    e2: Event,
    e3: Event,
)
    ensures
        absorb_all::<R>(m0, Seq::<Event>::empty().push(e1).push(e2).push(e3)) == R::absorb(
            R::absorb(R::absorb(m0, e1), e2),
            e3,
        ),
        apply_events(sp, st, q, Seq::<Event>::empty().push(e1).push(e2).push(e3)) == ({
            let (s1, k1, q1) = apply_event(sp, st, q, e1);
            let (s2, k2, q2) = apply_event(s1, k1, q1, e2);
            apply_event(s2, k2, q2, e3)
        }),
{
    lemma_track2::<R>(m0, sp, st, q, e1, e2);
    crate::record::lemma_absorb_all_push::<R>(m0, Seq::<Event>::empty().push(e1).push(e2), e3);
    crate::record::lemma_apply_events_push(sp, st, q, Seq::<Event>::empty().push(e1).push(e2), e3);
}

/// Folding and replaying a four-event run.
proof fn lemma_track4<R: Record>(
    m0: R::Model,
    sp: SpaceModel,
    st: Seq<u8>,
    q: bool,
    e1: Event,
    e2: Event,
    e3: Event,
    e4: Event,
)
    ensures
        absorb_all::<R>(m0, Seq::<Event>::empty().push(e1).push(e2).push(e3).push(e4))
            == R::absorb(R::absorb(R::absorb(R::absorb(m0, e1), e2), e3), e4),
        apply_events(sp, st, q, Seq::<Event>::empty().push(e1).push(e2).push(e3).push(e4)) == ({
            let (s1, k1, q1) = apply_event(sp, st, q, e1);
            let (s2, k2, q2) = apply_event(s1, k1, q1, e2);
            let (s3, k3, q3) = apply_event(s2, k2, q2, e3);
            apply_event(s3, k3, q3, e4)
        }),
{
    lemma_track3::<R>(m0, sp, st, q, e1, e2, e3);
    crate::record::lemma_absorb_all_push::<R>(
        m0,
        Seq::<Event>::empty().push(e1).push(e2).push(e3),
        e4,
    );
    crate::record::lemma_apply_events_push(
        sp,
        st,
        q,
        Seq::<Event>::empty().push(e1).push(e2).push(e3),
        e4,
    );
}

/// A pop never fails: on an empty stack it yields zero and leaves the
/// stack empty (recording that the bottom was hit), on any other it
/// takes the top; the stack's depth can never fall below nothing.
pub proof fn lemma_pop_on_empty()
    ensures
        pop1(Seq::<u8>::empty()) == (0u8, Seq::<u8>::empty(), Event::PopBottom),
        forall|s: Seq<u8>|
            s.len() > 0 ==> #[trigger] pop1(s) == (s.last(), s.drop_last(), Event::Pop {
                top: s.last(),
            }),
        forall|s: Seq<u8>| (#[trigger] pop1(s).1).len() <= s.len(),
{
}

/// Relies on rand's IndexedRandom::choose over `rand::rng()`: some
/// element of a non-empty slice; here one of the four bytes below
/// four. Two calls may differ.
#[verifier::external_body]
pub(crate) fn random_index4() -> (r: u8)
    ensures
        r < 4,
{
    *[0u8, 1, 2, 3].choose(&mut rand::rng()).unwrap()
}

/// The decimal digits of a byte, most significant first, as the `.`
/// instruction prints them.
pub(crate) fn decimal_digits(v: u8) -> (r: Vec<u8>)
    ensures
        r@ == dec_bytes(v),
{
    let mut out: Vec<u8> = Vec::new();
    if v >= 100 {
        out.push(48 + v / 100);
        out.push(48 + (v / 10) % 10);
        out.push(48 + v % 10);
    } else if v >= 10 {
        out.push(48 + v / 10);
        out.push(48 + v % 10);
    } else {
        out.push(48 + v);
    }
    proof {
        assert(out@ =~= dec_bytes(v));
    }
    out
}

/// A step-by-step executor: a program space, a cursor, a byte stack,
/// an input/output capability, and a recorder observing mutations.
pub struct Interpreter<IOImpl, R> {
    space: Space,
    cursor: Cursor,
    stack: Vec<u8>,
    io: IOImpl,
    recorder: R,
}

impl<IOImpl: IO, R: Record> Interpreter<IOImpl, R> {
    /// The observable state of this interpreter.
    pub closed spec fn machine(&self) -> Machine {
        Machine {
            space: self.space@,
            cursor: self.cursor,
            stack: self.stack@,
            input: self.io.in_view(),
            output: self.io.out_view(),
        }
    }

    /// The state of the attached recorder.
    pub closed spec fn recorder_model(&self) -> R::Model {
        self.recorder.model()
    }

    /// The attached input/output capability, as a spec value.
    pub closed spec fn spec_io(&self) -> IOImpl {
        self.io
    }

    /// The interpreter's internal consistency: its space is sound.
    pub closed spec fn wf(&self) -> bool {
        self.space.wf()
    }

    /// A new interpreter over the given space, reading and writing
    /// through `io`, reporting mutations to `recorder`. The cursor
    /// starts at the origin, heading right, in normal mode, over an
    /// empty stack.
    pub fn new(space: Space, io: IOImpl, recorder: R) -> (r: Interpreter<IOImpl, R>)
        requires
            space.wf(),
        ensures
            r.wf(),
            r.machine() == (Machine {
                space: space@,
                cursor: Cursor {
                    pos: Position { x: 0, y: 0 },
                    dir: Direction::Right,
                    mode: Mode::Normal,
                },
                stack: Seq::<u8>::empty(),
                input: io.in_view(),
                output: io.out_view(),
            }),
            r.recorder_model() == recorder.model(),
            r.spec_io() == io,
    {
        let cursor = Cursor {
            pos: Position { x: 0, y: 0 },
            dir: Direction::Right,
            mode: Mode::Normal,
        };
        Interpreter { space, cursor, stack: Vec::new(), io, recorder }
    }

    /// The attached input/output capability.
    pub fn io(&self) -> (r: &IOImpl)
        ensures
            *r == self.spec_io(),
    {
        &self.io
    }

    /// The attached input/output capability, for feeding input or
    /// draining output; nothing else of the interpreter changes.
    pub fn io_mut(&mut self) -> (r: &mut IOImpl)
        ensures
            *r == old(self).spec_io(),
            final(self).spec_io() == *final(r),
            final(self).machine() == (Machine {
                input: final(r).in_view(),
                output: final(r).out_view(),
                ..old(self).machine()
            }),
            final(self).recorder_model() == old(self).recorder_model(),
            final(self).wf() == old(self).wf(),
    {
        &mut self.io
    }

    /// The program space.
    pub fn space(&self) -> (r: &Space)
        ensures
            r@ == self.machine().space,
            r.wf() == self.wf(),
    {
        &self.space
    }

    /// The position of the cursor.
    pub fn current_position(&self) -> (r: Position)
        ensures
            r == self.machine().cursor.pos,
    {
        self.cursor.pos
    }

    /// The direction of the cursor.
    pub fn current_direction(&self) -> (r: Direction)
        ensures
            r == self.machine().cursor.dir,
    {
        self.cursor.dir
    }

    /// The attached recorder.
    pub fn recorder(&self) -> (r: &R)
        ensures
            r.model() == self.recorder_model(),
    {
        &self.recorder
    }

    /// The stack contents, bottom first.
    pub fn stack(&self) -> (r: &Vec<u8>)
        ensures
            r@ == self.machine().stack,
    {
        &self.stack
    }

    /// Rewrites a cell, recording the replacement.
    fn put(&mut self, pos: Position, cell: u8)
        requires
            old(self).wf(),
        ensures
            final(self).wf(),
            final(self).machine() == (Machine {
                space: old(self).machine().space.write(pos.x as int, pos.y as int, cell),
                ..old(self).machine()
            }),
            final(self).recorder_model() == R::absorb(
                old(self).recorder_model(),
                Event::Replace {
                    at: pos,
                    before: old(self).machine().space.read(pos.x as int, pos.y as int),
                    after: cell,
                },
            ),
    {
        let old_cell = self.space.get_cell(pos);
        self.recorder.replace(pos, old_cell, cell);
        self.space.set_cell(pos, cell);
    }

    /// Advances the cursor one wrapping step along its direction.
    fn move_auto(&mut self)
        ensures
            final(self).machine() == (Machine {
                cursor: Cursor {
                    pos: old(self).machine().space.wrap(
                        old(self).machine().cursor.pos,
                        old(self).machine().cursor.dir,
                    ),
                    ..old(self).machine().cursor
                },
                ..old(self).machine()
            }),
            final(self).recorder_model() == old(self).recorder_model(),
            final(self).wf() == old(self).wf(),
    {
        let p = self.space.move_pos(self.cursor.pos, self.cursor.dir);
        self.cursor.pos = p;
    }

    /// Pops the top byte, or zero from an empty stack; never fatal.
    fn pop(&mut self) -> (r: u8)
        ensures
            ({
                let (v, s2, ev) = pop1(old(self).machine().stack);
                &&& r == v
                &&& final(self).machine() == (Machine { stack: s2, ..old(self).machine() })
                &&& final(self).recorder_model() == R::absorb(old(self).recorder_model(), ev)
            }),
            final(self).wf() == old(self).wf(),
    {
        let popped = self.stack.pop();
        match popped {
            Some(top) => {
                self.recorder.pop(top);
                top
            },
            None => {
                self.recorder.pop_bottom();
                0
            },
        }
    }

    /// Interprets the instruction under the cursor: one step of the
    /// machine. The status says whether the step completed, suspended
    /// on input (leaving the cursor for a retry), terminated the
    /// program, or failed. Every observable consequence is fixed by
    /// [`step_rel`], up to the direction a random-direction
    /// instruction chose.
    pub fn step(&mut self) -> (status: Status)
        requires
            old(self).wf(),
        ensures
            final(self).wf(),
            exists|rd: Direction| #[trigger] step_rel::<R>(
                old(self).machine(),
                old(self).recorder_model(),
                final(self).machine(),
                final(self).recorder_model(),
                status,
                rd,
            ),
    {
        let ghost m0 = old(self).machine();
        let ghost rec0 = old(self).recorder_model();
        let cell = self.space.get_cell(self.cursor.pos);
        self.recorder.start_step(self.cursor.pos, cell);
        let ghost rec1 = self.recorder_model();
        let ghost start_ev = Event::StartStep { at: m0.cursor.pos, instruction: cell };
        let mut status: Status;
        let ghost mut rd = Direction::Right;
        match self.cursor.mode {
            Mode::Quote => {
                status = self.step_quoted(cell);
            },
            Mode::Normal => {
                let (st, g) = self.step_unquoted(cell);
                status = st;
                proof {
                    rd = g@;
                }
            },
        }
        let ghost st0 = status;
        let ghost m_mid = self.machine();
        let ghost rec2 = self.recorder_model();
        if self.cursor.mode == Mode::Normal {
            match self.skip_spaces() {
                Some(err) => {
                    status = err;
                },
                None => {},
            }
        }
        if status == Status::Waiting {
            self.recorder.rollback_step();
        } else {
            self.recorder.commit_step();
        }
        proof {
            let o = step_result(m0, rd);
            let mid = o.events;
            let end_ev = if o.status is Waiting {
                Event::RollbackStep
            } else {
                Event::CommitStep
            };
            if st0 is Waiting && m0.cursor.mode is Normal {
                lemma_dispatch_waiting(m0, cell, rd);
            }
            assert(self.machine() == o.machine);
            assert(status == o.status);
            crate::record::lemma_absorb_all_one::<R>(rec0, start_ev);
            crate::record::lemma_absorb_all_concat::<R>(rec0, seq![start_ev], mid);
            crate::record::lemma_absorb_all_concat::<R>(rec0, seq![start_ev] + mid, seq![end_ev]);
            crate::record::lemma_absorb_all_one::<R>(
                absorb_all::<R>(rec0, seq![start_ev] + mid),
                end_ev,
            );
            assert(full_events(m0, o) == seq![start_ev] + mid + seq![end_ev]);
            assert(self.recorder_model() == absorb_all::<R>(rec0, full_events(m0, o)));
            assert(step_rel::<R>(
                m0,
                rec0,
                self.machine(),
                self.recorder_model(),
                status,
                rd,
            ));
        }
        status
    }

    /// One dispatched instruction in normal mode, with the single
    /// cursor advance of a completed instruction. The returned ghost
    /// direction witnesses where a random-direction instruction went.
    #[verifier::rlimit(100)]
    fn step_unquoted(&mut self, cell: u8) -> (res: (Status, Ghost<Direction>))
        requires
            old(self).wf(),
            old(self).machine().cursor.mode is Normal,
        ensures
            final(self).wf(),
            dispatch_rel::<R>(
                old(self).machine(),
                old(self).recorder_model(),
                final(self).machine(),
                final(self).recorder_model(),
                res.0,
                cell,
                res.1@,
            ),
    {
        let ghost m0 = old(self).machine();
        let ghost rec0 = old(self).recorder_model();
        let ghost mut rd = Direction::Right;
        let status: Status;
        match cell {
            43u8 | 45u8 | 42u8 | 47u8 | 37u8 | 96u8 => {
                let b = self.pop();
                let a = self.pop();
                let v: u8 = if cell == 43 {
                    a.wrapping_add(b)
                } else if cell == 45 {
                    a.wrapping_sub(b)
                } else if cell == 42 {
                    a.wrapping_mul(b)
                } else if cell == 47 {
                    if b == 0 {
                        0
                    } else {
                        a / b
                    }
                } else if cell == 37 {
                    if b == 0 {
                        0
                    } else {
                        a % b
                    }
                } else {
                    if a > b {
                        1
                    } else {
                        0
                    }
                };
                self.push(v);
                status = Status::Completed;
                proof {
                    let (bb, s1, e1) = pop1(m0.stack);
                    let (aa, s2, e2) = pop1(s1);
                    assert((aa + bb) % 256 == vstd::wrapping::u8_specs::wrapping_add(aa, bb));
                    assert((aa - bb) % 256 == vstd::wrapping::u8_specs::wrapping_sub(aa, bb));
                    assert((aa * bb) % 256 == vstd::wrapping::u8_specs::wrapping_mul(aa, bb))
                        by (nonlinear_arith);
                    assert(seq![e1, e2, Event::Push { top: v }] =~= Seq::<Event>::empty().push(
                        e1,
                    ).push(e2).push(Event::Push { top: v }));
                    lemma_track3::<R>(rec0, m0.space, m0.stack, false, e1, e2, Event::Push { top: v });
                }
            },
            33u8 => {
                let a = self.pop();
                let v: u8 = if a == 0 {
                    1
                } else {
                    0
                };
                self.push(v);
                status = Status::Completed;
                proof {
                    let (aa, s1, e1) = pop1(m0.stack);
                    assert(seq![e1, Event::Push { top: v }] =~= Seq::<Event>::empty().push(e1).push(
                        Event::Push { top: v },
                    ));
                    lemma_track2::<R>(rec0, m0.space, m0.stack, false, e1, Event::Push { top: v });
                }
            },
            62u8 => {
                self.cursor.dir = Direction::Right;
                status = Status::Completed;
            },
            60u8 => {
                self.cursor.dir = Direction::Left;
                status = Status::Completed;
            },
            94u8 => {
                self.cursor.dir = Direction::Up;
                status = Status::Completed;
            },
            118u8 => {
                self.cursor.dir = Direction::Down;
                status = Status::Completed;
            },
            63u8 => {
                let idx = random_index4();
                let d = if idx == 0 {
                    Direction::Right
                } else if idx == 1 {
                    Direction::Left
                } else if idx == 2 {
                    Direction::Up
                } else {
                    Direction::Down
                };
                self.cursor.dir = d;
                proof {
                    rd = d;
                }
                status = Status::Completed;
            },
            95u8 => {
                let a = self.pop();
                self.cursor.dir = if a == 0 {
                    Direction::Right
                } else {
                    Direction::Left
                };
                status = Status::Completed;
                proof {
                    let (aa, s1, e1) = pop1(m0.stack);
                    assert(seq![e1] =~= Seq::<Event>::empty().push(e1));
                    lemma_track1::<R>(rec0, m0.space, m0.stack, false, e1);
                }
            },
            124u8 => {
                let a = self.pop();
                self.cursor.dir = if a == 0 {
                    Direction::Down
                } else {
                    Direction::Up
                };
                status = Status::Completed;
                proof {
                    let (aa, s1, e1) = pop1(m0.stack);
                    assert(seq![e1] =~= Seq::<Event>::empty().push(e1));
                    lemma_track1::<R>(rec0, m0.space, m0.stack, false, e1);
                }
            },
            34u8 => {
                self.cursor.mode = Mode::Quote;
                self.recorder.enter_quote();
                status = Status::Completed;
                proof {
                    crate::record::lemma_absorb_all_one::<R>(rec0, Event::EnterQuote);
                    crate::record::lemma_apply_events_one(
                        m0.space,
                        m0.stack,
                        false,
                        Event::EnterQuote,
                    );
                }
            },
            58u8 => {
                let a = self.pop();
                self.push(a);
                self.push(a);
                status = Status::Completed;
                proof {
                    let (aa, s1, e1) = pop1(m0.stack);
                    assert(seq![e1, Event::Push { top: a }, Event::Push { top: a }]
                        =~= Seq::<Event>::empty().push(e1).push(Event::Push { top: a }).push(
                        Event::Push { top: a },
                    ));
                    lemma_track3::<R>(
                        rec0,
                        m0.space,
                        m0.stack,
                        false,
                        e1,
                        Event::Push { top: a },
                        Event::Push { top: a },
                    );
                }
            },
            92u8 => {
                let b = self.pop();
                let a = self.pop();
                self.push(b);
                self.push(a);
                status = Status::Completed;
                proof {
                    let (bb, s1, e1) = pop1(m0.stack);
                    let (aa, s2, e2) = pop1(s1);
                    assert(seq![e1, e2, Event::Push { top: b }, Event::Push { top: a }]
                        =~= Seq::<Event>::empty().push(e1).push(e2).push(Event::Push { top: b }).push(
                        Event::Push { top: a },
                    ));
                    lemma_track4::<R>(
                        rec0,
                        m0.space,
                        m0.stack,
                        false,
                        e1,
                        e2,
                        Event::Push { top: b },
                        Event::Push { top: a },
                    );
                }
            },
            36u8 => {
                self.pop();
                status = Status::Completed;
                proof {
                    let (aa, s1, e1) = pop1(m0.stack);
                    assert(seq![e1] =~= Seq::<Event>::empty().push(e1));
                    lemma_track1::<R>(rec0, m0.space, m0.stack, false, e1);
                }
            },
            46u8 => {
                let a = self.pop();
                let mut buf = decimal_digits(a);
                buf.push(32);
                self.io.write(buf.as_slice());
                status = Status::Completed;
                proof {
                    let (aa, s1, e1) = pop1(m0.stack);
                    assert(seq![e1] =~= Seq::<Event>::empty().push(e1));
                    lemma_track1::<R>(rec0, m0.space, m0.stack, false, e1);
                    assert(buf@ =~= dec_bytes(a).push(32u8));
                    assert(m0.output + buf@ =~= m0.output + dec_bytes(a) + seq![32u8]);
                }
            },
            44u8 => {
                let a = self.pop();
                let mut buf: Vec<u8> = Vec::new();
                buf.push(a);
                self.io.write(buf.as_slice());
                status = Status::Completed;
                proof {
                    let (aa, s1, e1) = pop1(m0.stack);
                    assert(seq![e1] =~= Seq::<Event>::empty().push(e1));
                    lemma_track1::<R>(rec0, m0.space, m0.stack, false, e1);
                    assert(m0.output + buf@ =~= m0.output.push(aa));
                }
            },
            35u8 => {
                self.move_auto();
                status = Status::Completed;
            },
            103u8 => {
                let yy = self.pop();
                let xx = self.pop();
                let v = self.space.get_cell(Position { x: xx, y: yy });
                self.push(v);
                status = Status::Completed;
                proof {
                    let (y1, s1, e1) = pop1(m0.stack);
                    let (x1, s2, e2) = pop1(s1);
                    assert(seq![e1, e2, Event::Push { top: v }] =~= Seq::<Event>::empty().push(
                        e1,
                    ).push(e2).push(Event::Push { top: v }));
                    lemma_track3::<R>(rec0, m0.space, m0.stack, false, e1, e2, Event::Push { top: v });
                }
            },
            112u8 => {
                let yy = self.pop();
                let xx = self.pop();
                let v = self.pop();
                self.put(Position { x: xx, y: yy }, v);
                status = Status::Completed;
                proof {
                    let (y1, s1, e1) = pop1(m0.stack);
                    let (x1, s2, e2) = pop1(s1);
                    let (v1, s3, e3) = pop1(s2);
                    let at = Position { x: x1, y: y1 };
                    let rep = Event::Replace {
                        at,
                        before: m0.space.read(x1 as int, y1 as int),
                        after: v1,
                    };
                    assert(seq![e1, e2, e3, rep] =~= Seq::<Event>::empty().push(e1).push(e2).push(
                        e3,
                    ).push(rep));
                    lemma_track4::<R>(rec0, m0.space, m0.stack, false, e1, e2, e3, rep);
                }
            },
            38u8 => {
                match self.io.read_number() {
                    Some(v) => {
                        self.push(v);
                        status = Status::Completed;
                        proof {
                            crate::record::lemma_absorb_all_one::<R>(
                                rec0,
                                Event::Push { top: v },
                            );
                            crate::record::lemma_apply_events_one(
                                m0.space,
                                m0.stack,
                                false,
                                Event::Push { top: v },
                            );
                        }
                    },
                    None => {
                        status = Status::Waiting;
                    },
                }
            },
            126u8 => {
                match self.io.read_byte() {
                    Some(b) => {
                        self.push(b);
                        status = Status::Completed;
                        proof {
                            crate::record::lemma_absorb_all_one::<R>(
                                rec0,
                                Event::Push { top: b },
                            );
                            crate::record::lemma_apply_events_one(
                                m0.space,
                                m0.stack,
                                false,
                                Event::Push { top: b },
                            );
                        }
                    },
                    None => {
                        status = Status::Waiting;
                    },
                }
            },
            64u8 => {
                status = Status::Terminated;
            },
            48u8 | 49u8 | 50u8 | 51u8 | 52u8 | 53u8 | 54u8 | 55u8 | 56u8 | 57u8 => {
                self.push(cell - 48);
                status = Status::Completed;
                proof {
                    crate::record::lemma_absorb_all_one::<R>(
                        rec0,
                        Event::Push { top: (cell - 48) as u8 },
                    );
                    crate::record::lemma_apply_events_one(
                        m0.space,
                        m0.stack,
                        false,
                        Event::Push { top: (cell - 48) as u8 },
                    );
                }
            },
            32u8 => {
                status = Status::Completed;
            },
            _ => {
                status = Status::Error(InterpreterError::InvalidOpcode(cell));
            },
        }
        if status == Status::Completed {
            self.move_auto();
        }
        (status, Ghost(rd))
    }

    /// One step in quote mode: a double quote returns the cursor to
    /// normal mode, anything else is pushed literally.
    fn step_quoted(&mut self, cell: u8) -> (st: Status)
        requires
            old(self).wf(),
            old(self).machine().cursor.mode is Quote,
        ensures
            final(self).wf(),
            dispatch_rel::<R>(
                old(self).machine(),
                old(self).recorder_model(),
                final(self).machine(),
                final(self).recorder_model(),
                st,
                cell,
                Direction::Right,
            ),
    {
        let ghost m0 = old(self).machine();
        let ghost rec0 = old(self).recorder_model();
        if cell == 34 {
            self.cursor.mode = Mode::Normal;
            self.recorder.exit_quote();
        } else {
            self.push(cell);
        }
        self.move_auto();
        proof {
            let e = if cell == 34 {
                Event::ExitQuote
            } else {
                Event::Push { top: cell }
            };
            crate::record::lemma_absorb_all_one::<R>(rec0, e);
            crate::record::lemma_apply_events_one(m0.space, m0.stack, true, e);
        }
        Status::Completed
    }

    /// Skips the cursor over spaces in its direction, detecting the
    /// cycle where it would walk for ever.
    fn skip_spaces(&mut self) -> (r: Option<Status>)
        requires
            old(self).wf(),
        ensures
            final(self).wf(),
            ({
                let (ok, p) = skip_rec(
                    old(self).machine().space,
                    old(self).machine().cursor.pos,
                    old(self).machine().cursor.pos,
                    old(self).machine().cursor.dir,
                    SKIP_LIMIT as nat,
                );
                &&& final(self).machine() == (Machine {
                    cursor: Cursor { pos: p, ..old(self).machine().cursor },
                    ..old(self).machine()
                })
                &&& r == (if ok {
                    None::<Status>
                } else {
                    Some(Status::Error(InterpreterError::InfiniteLoop))
                })
                &&& final(self).recorder_model() == old(self).recorder_model()
            }),
    {
        let start = self.cursor.pos;
        let mut fuel: usize = SKIP_LIMIT;
        loop
            invariant
                self.wf(),
                fuel <= SKIP_LIMIT,
                self.machine().space == old(self).machine().space,
                self.machine().stack == old(self).machine().stack,
                self.machine().input == old(self).machine().input,
                self.machine().output == old(self).machine().output,
                self.machine().cursor.dir == old(self).machine().cursor.dir,
                self.machine().cursor.mode == old(self).machine().cursor.mode,
                self.recorder_model() == old(self).recorder_model(),
                start == old(self).machine().cursor.pos,
                skip_rec(
                    old(self).machine().space,
                    start,
                    self.machine().cursor.pos,
                    old(self).machine().cursor.dir,
                    fuel as nat,
                ) == skip_rec(
                    old(self).machine().space,
                    start,
                    start,
                    old(self).machine().cursor.dir,
                    SKIP_LIMIT as nat,
                ),
            decreases fuel,
        {
            if self.space.get_cell(self.cursor.pos) != 32 {
                return None;
            }
            if fuel == 0 {
                return Some(Status::Error(InterpreterError::InfiniteLoop));
            }
            self.move_auto();
            if self.cursor.pos == start {
                return Some(Status::Error(InterpreterError::InfiniteLoop));
            }
            fuel = fuel - 1;
        }
    }

    /// Pushes a byte, recording the push.
    fn push(&mut self, cell: u8)
        ensures
            final(self).machine() == (Machine {
                stack: old(self).machine().stack.push(cell),
                ..old(self).machine()
            }),
            final(self).recorder_model() == R::absorb(
                old(self).recorder_model(),
                Event::Push { top: cell },
            ),
            final(self).wf() == old(self).wf(),
    {
        self.recorder.push(cell);
        self.stack.push(cell);
    }
}

} // verus!
