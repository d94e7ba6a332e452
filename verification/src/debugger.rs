//! The debugger controller: a tick-scheduled state machine that
//! drives the interpreter at a configurable rate, services
//! breakpoints, and owns the analysis and the virtual terminal.

use vstd::prelude::*;

use crate::analyze::{analyze_path, PathAnalysis};
use crate::cursor::Position;
use crate::interpreter::{step_rel, Interpreter, Status};
use crate::record::{apply_events, Record, Timeline};
use crate::space::{pos_key, spec_pos_key, Space, SpaceModel};
use crate::terminal::VirtualTerminal;

verus! {

broadcast use vstd::std_specs::hash::group_hash_axioms, crate::terminal::lemma_vt_views;

/// Whether the debugger is stepping, free-running, paused, or done.
#[derive(Debug, PartialEq, Eq, Structural, Clone, Copy)]
pub enum RunState {
    /// Nothing runs until the user asks.
    Paused,
    /// A bounded number of steps remain to take.
    Stepping {
        /// How many steps remain.
        steps: u16,
    },
    /// Steps keep coming at the configured rate.
    Running,
    /// The program terminated or failed; only inspection is left.
    Halted,
}

/// The scheduling decision one tick makes: the state it leaves behind
/// when a step is (or is not) taken, and whether one is due.
pub open spec fn next_run_state(s: RunState, due: bool) -> (RunState, bool) {
    match s {
        RunState::Paused => (RunState::Paused, false),
        RunState::Halted => (RunState::Halted, false),
        RunState::Stepping { steps } => (
            if due {
                if steps <= 1 {
                    RunState::Paused
                } else {
                    RunState::Stepping { steps: (steps - 1) as u16 }
                }
            } else {
                RunState::Stepping { steps }
            },
            due,
        ),
        RunState::Running => (RunState::Running, due),
    }
}

/// How a step's status moves the run state on: termination and errors
/// halt the debugger, everything else leaves it as scheduled.
pub open spec fn state_after_status(s: RunState, st: Status) -> RunState {
    match st {
        Status::Terminated => RunState::Halted,
        Status::Error(_) => RunState::Halted,
        _ => s,
    }
}

/// The debugger: the interpreter with its virtual terminal and
/// timeline, the load-time analysis, the breakpoint set, and the tick
/// scheduler's state.
pub struct Debugger {
    program: Vec<u8>,
    /// The load-time path analysis of the program.
    pub analysis: PathAnalysis,
    /// The interpreter being driven.
    pub interpreter: Interpreter<VirtualTerminal, Timeline>,
    breakpoints: std::collections::HashSet<u64>,
    state: RunState,
    ticks_per_step: u16,
    ticks_since_step: u16,
    initial: Ghost<(SpaceModel, Seq<u8>, bool)>,
}

impl Debugger {
    /// The current run state.
    pub closed spec fn spec_state(&self) -> RunState {
        self.state
    }

    /// The interpreter's observable state.
    pub closed spec fn spec_machine(&self) -> crate::interpreter::Machine {
        self.interpreter.machine()
    }

    /// The timeline's state.
    pub closed spec fn spec_timeline(&self) -> crate::record::TimelineModel {
        self.interpreter.recorder_model()
    }

    /// The virtual terminal, as a spec value.
    pub closed spec fn spec_terminal(&self) -> VirtualTerminal {
        self.interpreter.spec_io()
    }

    /// How many ticks must pass between steps.
    pub closed spec fn spec_ticks_per_step(&self) -> u16 {
        self.ticks_per_step
    }

    /// How many ticks passed since the last step.
    pub closed spec fn spec_ticks_since_step(&self) -> u16 {
        self.ticks_since_step
    }

    /// Whether a breakpoint stands on `p`.
    pub closed spec fn has_breakpoint(&self, p: Position) -> bool {
        self.breakpoints@.contains(spec_pos_key(p.x as int, p.y as int))
    }

    /// The program bytes the session was loaded with.
    pub closed spec fn spec_program(&self) -> Seq<u8> {
        self.program@
    }

    /// The space as it stood when the session was loaded: what a
    /// replay of the timeline starts from.
    pub closed spec fn spec_initial_space(&self) -> SpaceModel {
        self.initial@.0
    }

    /// The debugger is consistent: the interpreter and analysis are
    /// sound, no step is half-recorded, and replaying the timeline
    /// against the load-time space and an empty stack reproduces the
    /// interpreter's space, stack and mode.
    pub closed spec fn wf(&self) -> bool {
        &&& self.interpreter.wf()
        &&& self.analysis.cell_states.wf()
        &&& self.interpreter.recorder_model().pending.len() == 0
        &&& apply_events(
            self.initial@.0,
            self.initial@.1,
            self.initial@.2,
            self.interpreter.recorder_model().events,
        ) == (
            self.interpreter.machine().space,
            self.interpreter.machine().stack,
            self.interpreter.machine().cursor.mode is Quote,
        )
        &&& self.initial@.1 == Seq::<u8>::empty()
        &&& self.initial@.2 == false
    }

    /// A fresh session over a program: the space is loaded and
    /// analysed, the interpreter stands at the origin, and the
    /// debugger is paused at two ticks per step.
    pub fn new(program: Vec<u8>) -> (d: Debugger)
        requires
            program@.len() < 0x10000,
        ensures
            d.wf(),
            d.spec_state() == RunState::Paused,
            d.spec_ticks_per_step() == 2,
            d.spec_ticks_since_step() == 0,
            forall|p: Position| !(#[trigger] d.has_breakpoint(p)),
            d.spec_program() == program@,
            d.spec_initial_space() == d.spec_machine().space,
            d.spec_timeline() == crate::record::TimelineModel::empty(),
    {
        let space = Space::new(program.as_slice());
        let ghost initial_space = space@;
        let analysis = analyze_path(&space);
        let interpreter = Interpreter::new(space, VirtualTerminal::new(), Timeline::new());
        let d = Debugger {
            program,
            analysis,
            interpreter,
            breakpoints: std::collections::HashSet::new(),
            state: RunState::Paused,
            ticks_per_step: 2,
            ticks_since_step: 0,
            initial: Ghost((initial_space, Seq::empty(), false)),
        };
        d
    }

    /// One tick of the external clock: counts towards the next step,
    /// takes it when due and not standing on a breakpoint, and moves
    /// the run state as the step's status demands. Says whether the
    /// scheduler fired.
    pub fn tick(&mut self) -> (stepped: bool)
        requires
            old(self).wf(),
        ensures
            final(self).wf(),
            ({
                let tss1: u16 = if old(self).spec_ticks_since_step() < 0xFFFF {
                    (old(self).spec_ticks_since_step() + 1) as u16
                } else {
                    old(self).spec_ticks_since_step()
                };
                let due = tss1 > old(self).spec_ticks_per_step();
                let (s1, go) = next_run_state(old(self).spec_state(), due);
                &&& stepped == go
                &&& final(self).spec_ticks_per_step() == old(self).spec_ticks_per_step()
                &&& (forall|p: Position| #[trigger]
                    final(self).has_breakpoint(p) == old(self).has_breakpoint(p))
                &&& (!go ==> final(self).spec_state() == s1 && final(self).spec_ticks_since_step()
                    == tss1 && final(self).spec_machine() == old(self).spec_machine() && final(self).spec_timeline() == old(self).spec_timeline())
                &&& (go ==> final(self).spec_ticks_since_step() == 0)
                &&& (go && old(self).has_breakpoint(old(self).spec_machine().cursor.pos)
                    ==> final(self).spec_state() == RunState::Paused && final(self).spec_machine() == old(self).spec_machine() && final(self).spec_timeline() == old(self).spec_timeline())
                &&& (go && !old(self).has_breakpoint(old(self).spec_machine().cursor.pos)
                    ==> exists|rd: crate::cursor::Direction, st: Status| #[trigger] step_rel::<
                    Timeline,
                >(
                    old(self).spec_machine(),
                    old(self).spec_timeline(),
                    final(self).spec_machine(),
                    final(self).spec_timeline(),
                    st,
                    rd,
                ) && final(self).spec_state() == state_after_status(s1, st))
            }),
    {
        if self.ticks_since_step < 0xFFFF {
            self.ticks_since_step = self.ticks_since_step + 1;
        }
        let time_for_step = self.ticks_since_step > self.ticks_per_step;
        let step_now: bool = match self.state {
            RunState::Paused => false,
            RunState::Halted => false,
            RunState::Stepping { steps } => {
                if time_for_step {
                    self.state = if steps <= 1 {
                        RunState::Paused
                    } else {
                        RunState::Stepping { steps: steps - 1 }
                    };
                }
                time_for_step
            },
            RunState::Running => time_for_step,
        };
        if step_now {
            self.ticks_since_step = 0;
            let pos = self.interpreter.current_position();
            if self.breakpoints.contains(&pos_key(pos)) {
                self.state = RunState::Paused;
            } else {
                let ghost pre_m = self.interpreter.machine();
                let ghost pre_t = self.interpreter.recorder_model();
                let status = self.interpreter.step();
                match status {
                    Status::Completed => {},
                    Status::Waiting => {},
                    Status::Terminated => {
                        self.state = RunState::Halted;
                    },
                    Status::Error(_) => {
                        self.state = RunState::Halted;
                    },
                }
                proof {
                    let rd = choose|rd: crate::cursor::Direction|
                        #[trigger] step_rel::<Timeline>(
                            pre_m,
                            pre_t,
                            self.interpreter.machine(),
                            self.interpreter.recorder_model(),
                            status,
                            rd,
                        );
                    crate::interpreter::lemma_step_preserves_replay(
                        self.initial@.0,
                        self.initial@.1,
                        self.initial@.2,
                        pre_m,
                        pre_t,
                        self.interpreter.machine(),
                        self.interpreter.recorder_model(),
                        status,
                        rd,
                    );
                    assert(pre_m == old(self).spec_machine());
                    assert(pre_t == old(self).spec_timeline());
                    assert(step_rel::<Timeline>(
                        old(self).spec_machine(),
                        old(self).spec_timeline(),
                        self.spec_machine(),
                        self.spec_timeline(),
                        status,
                        rd,
                    ));
                }
            }
        }
        step_now
    }

    /// Queues more stepping budget; a halted session stays halted.
    pub fn add_steps(&mut self, steps: u16)
        requires
            old(self).wf(),
        ensures
            final(self).wf(),
            final(self).spec_state() == (match old(self).spec_state() {
                RunState::Halted => RunState::Halted,
                RunState::Stepping { steps: current } => RunState::Stepping {
                    steps: if current + steps <= 0xFFFF {
                        (current + steps) as u16
                    } else {
                        0xFFFFu16
                    },
                },
                _ => RunState::Stepping { steps },
            }),
            final(self).spec_machine() == old(self).spec_machine(),
            final(self).spec_timeline() == old(self).spec_timeline(),
            forall|p: Position| #[trigger]
                final(self).has_breakpoint(p) == old(self).has_breakpoint(p),
            final(self).spec_ticks_per_step() == old(self).spec_ticks_per_step(),
            final(self).spec_ticks_since_step() == old(self).spec_ticks_since_step(),
    {
        self.state = match self.state {
            RunState::Halted => RunState::Halted,
            RunState::Stepping { steps: current } => RunState::Stepping {
                steps: if current <= 0xFFFF - steps {
                    current + steps
                } else {
                    0xFFFF
                },
            },
            _ => RunState::Stepping { steps },
        };
    }

    /// Lets the program run freely; a halted session stays halted.
    pub fn start_running(&mut self)
        requires
            old(self).wf(),
        ensures
            final(self).wf(),
            final(self).spec_state() == (if old(self).spec_state() == RunState::Halted {
                RunState::Halted
            } else {
                RunState::Running
            }),
            final(self).spec_machine() == old(self).spec_machine(),
            final(self).spec_timeline() == old(self).spec_timeline(),
            forall|p: Position| #[trigger]
                final(self).has_breakpoint(p) == old(self).has_breakpoint(p),
    {
        if self.state == RunState::Halted {
            return ;
        }
        self.state = RunState::Running;
    }

    /// Pauses the program; a halted session stays halted.
    pub fn pause(&mut self)
        requires
            old(self).wf(),
        ensures
            final(self).wf(),
            final(self).spec_state() == (if old(self).spec_state() == RunState::Halted {
                RunState::Halted
            } else {
                RunState::Paused
            }),
            final(self).spec_machine() == old(self).spec_machine(),
            final(self).spec_timeline() == old(self).spec_timeline(),
            forall|p: Position| #[trigger]
                final(self).has_breakpoint(p) == old(self).has_breakpoint(p),
    {
        if self.state == RunState::Halted {
            return ;
        }
        self.state = RunState::Paused;
    }

    /// The interpreter's virtual terminal.
    pub fn io(&self) -> (r: &VirtualTerminal)
        ensures
            *r == self.spec_terminal(),
    {
        self.interpreter.io()
    }

    /// The interpreter's virtual terminal, for typing and reading; the
    /// rest of the debugger does not move.
    pub fn io_mut(&mut self) -> (r: &mut VirtualTerminal)
        requires
            old(self).wf(),
        ensures
            *r == old(self).spec_terminal(),
            final(self).spec_terminal() == *final(r),
            final(self).spec_machine() == (crate::interpreter::Machine {
                input: final(r).spec_input(),
                output: final(r).spec_display(),
                ..old(self).spec_machine()
            }),
            final(self).spec_timeline() == old(self).spec_timeline(),
            final(self).spec_state() == old(self).spec_state(),
            forall|p: Position| #[trigger]
                final(self).has_breakpoint(p) == old(self).has_breakpoint(p),
            final(self).wf(),
    {
        self.interpreter.io_mut()
    }

    /// Flips whether a breakpoint stands on a position.
    pub fn toggle_breakpoint(&mut self, pos: Position)
        requires
            old(self).wf(),
        ensures
            final(self).wf(),
            final(self).has_breakpoint(pos) == !old(self).has_breakpoint(pos),
            forall|p: Position|
                p != pos ==> #[trigger] final(self).has_breakpoint(p) == old(self).has_breakpoint(
                    p,
                ),
            final(self).spec_machine() == old(self).spec_machine(),
            final(self).spec_timeline() == old(self).spec_timeline(),
            final(self).spec_state() == old(self).spec_state(),
    {
        let k = pos_key(pos);
        if !self.breakpoints.remove(&k) {
            self.breakpoints.insert(k);
        }
        proof {
            assert forall|p: Position| p != pos implies #[trigger] final(self).has_breakpoint(p)
                == old(self).has_breakpoint(p) by {
                assert(spec_pos_key(p.x as int, p.y as int) != spec_pos_key(
                    pos.x as int,
                    pos.y as int,
                )) by (nonlinear_arith)
                    requires
                        0 <= p.x < 256 && 0 <= p.y < 256 && 0 <= pos.x < 256 && 0 <= pos.y < 256
                            && (p.x != pos.x || p.y != pos.y),
                ;
            }
        }
    }

    /// How many bytes stand on the stack, reduced to 16 bits.
    pub fn stack_height(&self) -> (h: u16)
        ensures
            h as int == self.spec_machine().stack.len() % 0x10000,
    {
        (self.interpreter.stack().len() % 0x10000) as u16
    }

    /// Where the cursor stands.
    pub fn current_position(&self) -> (p: Position)
        ensures
            p == self.spec_machine().cursor.pos,
    {
        self.interpreter.current_position()
    }
}

impl Debugger {
    /// The timeline invariant, spelled out: the recorded events,
    /// replayed against the load-time space and an empty stack in
    /// normal mode, land exactly on the interpreter's current space,
    /// stack and mode, and no step is half-recorded.
    pub proof fn lemma_replay_matches(&self)
        requires
            self.wf(),
        ensures
            self.spec_timeline().pending.len() == 0,
            apply_events(
                self.spec_initial_space(),
                Seq::<u8>::empty(),
                false,
                self.spec_timeline().events,
            ) == (
                self.spec_machine().space,
                self.spec_machine().stack,
                self.spec_machine().cursor.mode is Quote,
            ),
    {
    }
}

/// Toggling a breakpoint twice leaves the breakpoint set exactly as
/// it was: on the toggled position and on every other one.
pub proof fn lemma_toggle_breakpoint_twice(pre: Debugger, mid: Debugger, post: Debugger, pos: Position)
    requires
        mid.has_breakpoint(pos) == !pre.has_breakpoint(pos),
        forall|p: Position| p != pos ==> #[trigger] mid.has_breakpoint(p) == pre.has_breakpoint(p),
        post.has_breakpoint(pos) == !mid.has_breakpoint(pos),
        forall|p: Position| p != pos ==> #[trigger] post.has_breakpoint(p) == mid.has_breakpoint(p),
    ensures
        forall|p: Position| #[trigger] post.has_breakpoint(p) == pre.has_breakpoint(p),
{
}

} // verus!
