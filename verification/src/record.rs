//! Recording of interpreter mutations: a capability trait observed by
//! the interpreter, a no-op recorder, a composed pair for teeing, and
//! an append-only timeline suitable for replay.

use vstd::prelude::*;

use crate::cursor::Position;
use crate::space::SpaceModel;

verus! {

/// One observed mutation, or a step boundary.
///
/// Between a `StartStep` and the following `CommitStep` stand exactly
/// the mutations of that step; a `RollbackStep` withdraws the step
/// instead, leaving no trace of it.
#[derive(PartialEq, Eq, Structural, Clone, Copy, Debug)]
pub enum Event {
    /// A step began at `at`, on the instruction byte `instruction`.
    StartStep { at: Position, instruction: u8 },
    /// The step that began last is final.
    CommitStep,
    /// The step that began last is withdrawn.
    RollbackStep,
    /// The cell at `at` was rewritten from `before` to `after`.
    Replace { at: Position, before: u8, after: u8 },
    /// The byte `top` was popped from the stack.
    Pop { top: u8 },
    /// A pop found the stack empty and yielded zero.
    PopBottom,
    /// The byte `top` was pushed onto the stack.
    Push { top: u8 },
    /// The cursor entered quote mode.
    EnterQuote,
    /// The cursor left quote mode.
    ExitQuote,
}

/// A capability that observes the interpreter's mutations.
///
/// Each recorder distils its state into a mathematical model, and
/// each callback folds one event into that model, as the recorder's
/// own `absorb` describes; what a recorder keeps is its business.
pub trait Record: Sized {
    /// The mathematical state of this recorder.
    type Model;

    /// What this recorder's state currently is.
    spec fn model(&self) -> Self::Model;

    /// How one event changes this recorder's state.
    spec fn absorb(m: Self::Model, e: Event) -> Self::Model;

    /// Observes the start of a step.
    fn start_step(&mut self, at: Position, instruction: u8)
        ensures
            final(self).model() == Self::absorb(
                old(self).model(),
                Event::StartStep { at, instruction },
            );

    /// Observes that the started step is withdrawn.
    fn rollback_step(&mut self)
        ensures
            final(self).model() == Self::absorb(old(self).model(), Event::RollbackStep);

    /// Observes that the started step is final.
    fn commit_step(&mut self)
        ensures
            final(self).model() == Self::absorb(old(self).model(), Event::CommitStep);

    /// Observes a cell being rewritten.
    fn replace(&mut self, at: Position, before: u8, after: u8)
        ensures
            final(self).model() == Self::absorb(
                old(self).model(),
                Event::Replace { at, before, after },
            );

    /// Observes a pop.
    fn pop(&mut self, top: u8)
        ensures
            final(self).model() == Self::absorb(old(self).model(), Event::Pop { top });

    /// Observes a pop of the empty stack.
    fn pop_bottom(&mut self)
        ensures
            final(self).model() == Self::absorb(old(self).model(), Event::PopBottom);

    /// Observes a push.
    fn push(&mut self, top: u8)
        ensures
            final(self).model() == Self::absorb(old(self).model(), Event::Push { top });

    /// Observes the cursor entering quote mode.
    fn enter_quote(&mut self)
        ensures
            final(self).model() == Self::absorb(old(self).model(), Event::EnterQuote);

    /// Observes the cursor leaving quote mode.
    fn exit_quote(&mut self)
        ensures
            final(self).model() == Self::absorb(old(self).model(), Event::ExitQuote);
}

/// A recorder model folded over a whole run of events.
pub open spec fn absorb_all<R: Record>(m: R::Model, es: Seq<Event>) -> R::Model
    decreases es.len(),
{
    if es.len() == 0 {
        m
    } else {
        absorb_all::<R>(R::absorb(m, es[0]), es.drop_first())
    }
}

/// Folding one more event onto the back of a run.
pub proof fn lemma_absorb_all_push<R: Record>(m: R::Model, es: Seq<Event>, e: Event)
    ensures
        absorb_all::<R>(m, es.push(e)) == R::absorb(absorb_all::<R>(m, es), e),
    decreases es.len(),
{
    if es.len() == 0 {
        assert(es.push(e)[0] == e);
        assert(es.push(e).drop_first() =~= Seq::<Event>::empty());
        assert(absorb_all::<R>(m, es.push(e)) == absorb_all::<R>(
            R::absorb(m, e),
            Seq::<Event>::empty(),
        ));
        assert(absorb_all::<R>(R::absorb(m, e), Seq::<Event>::empty()) == R::absorb(m, e));
    } else {
        assert(es.push(e).drop_first() =~= es.drop_first().push(e));
        lemma_absorb_all_push::<R>(R::absorb(m, es[0]), es.drop_first(), e);
    }
}

/// Folding a single event.
pub proof fn lemma_absorb_all_one<R: Record>(m: R::Model, e: Event)
    ensures
        absorb_all::<R>(m, seq![e]) == R::absorb(m, e),
{
    let es = seq![e];
    assert(es[0] == e);
    assert(es.drop_first() =~= Seq::<Event>::empty());
    assert(absorb_all::<R>(m, es) == absorb_all::<R>(R::absorb(m, e), Seq::<Event>::empty()));
    assert(absorb_all::<R>(R::absorb(m, e), Seq::<Event>::empty()) == R::absorb(m, e));
}

/// Folding a concatenation is folding one run after the other.
pub proof fn lemma_absorb_all_concat<R: Record>(m: R::Model, es1: Seq<Event>, es2: Seq<Event>)
    ensures
        absorb_all::<R>(m, es1 + es2) == absorb_all::<R>(absorb_all::<R>(m, es1), es2),
    decreases es1.len(),
{
    if es1.len() == 0 {
        assert(es1 + es2 =~= es2);
    } else {
        assert((es1 + es2)[0] == es1[0]);
        assert((es1 + es2).drop_first() =~= es1.drop_first() + es2);
        lemma_absorb_all_concat::<R>(R::absorb(m, es1[0]), es1.drop_first(), es2);
    }
}

/// The no-op recorder: listening costs nothing when nobody listens.
impl Record for () {
    type Model = ();

    open spec fn model(&self) -> () {
        ()
    }

    open spec fn absorb(m: (), e: Event) -> () {
        ()
    }

    fn start_step(&mut self, at: Position, instruction: u8) {
    }

    fn rollback_step(&mut self) {
    }

    fn commit_step(&mut self) {
    }

    fn replace(&mut self, at: Position, before: u8, after: u8) {
    }

    fn pop(&mut self, top: u8) {
    }

    fn pop_bottom(&mut self) {
    }

    fn push(&mut self, top: u8) {
    }

    fn enter_quote(&mut self) {
    }

    fn exit_quote(&mut self) {
    }
}

/// A composed pair: both halves observe every event, first the left
/// one, then the right one.
impl<T1: Record, T2: Record> Record for (T1, T2) {
    type Model = (T1::Model, T2::Model);

    open spec fn model(&self) -> (T1::Model, T2::Model) {
        (self.0.model(), self.1.model())
    }

    open spec fn absorb(m: (T1::Model, T2::Model), e: Event) -> (T1::Model, T2::Model) {
        (T1::absorb(m.0, e), T2::absorb(m.1, e))
    }

    fn start_step(&mut self, at: Position, instruction: u8) {
        self.0.start_step(at, instruction);
        self.1.start_step(at, instruction);
    }

    fn rollback_step(&mut self) {
        self.0.rollback_step();
        self.1.rollback_step();
    }

    fn commit_step(&mut self) {
        self.0.commit_step();
        self.1.commit_step();
    }

    fn replace(&mut self, at: Position, before: u8, after: u8) {
        self.0.replace(at, before, after);
        self.1.replace(at, before, after);
    }

    fn pop(&mut self, top: u8) {
        self.0.pop(top);
        self.1.pop(top);
    }

    fn pop_bottom(&mut self) {
        self.0.pop_bottom();
        self.1.pop_bottom();
    }

    fn push(&mut self, top: u8) {
        self.0.push(top);
        self.1.push(top);
    }

    fn enter_quote(&mut self) {
        self.0.enter_quote();
        self.1.enter_quote();
    }

    fn exit_quote(&mut self) {
        self.0.exit_quote();
        self.1.exit_quote();
    }
}

/// One recorded step: where it ran, what instruction byte it found,
/// and how many mutation events it committed.
#[derive(PartialEq, Eq, Structural, Clone, Copy, Debug)]
pub struct Step {
    /// Where the step ran.
    pub at: Position,
    /// The instruction byte under the cursor when the step began.
    pub instruction: u8,
    /// How many committed mutation events belong to this step.
    pub events: usize,
}

/// The mathematical state of a [`Timeline`].
pub ghost struct TimelineModel {
    /// The steps committed or begun, oldest first.
    pub steps: Seq<Step>,
    /// The committed mutation events, oldest first.
    pub events: Seq<Event>,
    /// The mutation events of the step currently running.
    pub pending: Seq<Event>,
}

impl TimelineModel {
    /// The model of an empty timeline.
    pub open spec fn empty() -> TimelineModel {
        TimelineModel {
            steps: Seq::empty(),
            events: Seq::empty(),
            pending: Seq::empty(),
        }
    }

    /// How one event changes a timeline: mutations gather as pending,
    /// a commit seals them onto the log under the step that began
    /// last, a rollback discards the step with its mutations.
    pub open spec fn absorb(self, e: Event) -> TimelineModel {
        match e {
            Event::StartStep { at, instruction } => TimelineModel {
                steps: self.steps.push(Step { at, instruction, events: 0 }),
                ..self
            },
            Event::RollbackStep => TimelineModel {
                steps: if self.steps.len() > 0 {
                    self.steps.drop_last()
                } else {
                    self.steps
                },
                events: self.events,
                pending: Seq::empty(),
            },
            Event::CommitStep => TimelineModel {
                steps: if self.steps.len() > 0 {
                    self.steps.update(
                        self.steps.len() - 1,
                        Step {
                            at: self.steps.last().at,
                            instruction: self.steps.last().instruction,
                            events: self.pending.len() as usize,
                        },
                    )
                } else {
                    self.steps
                },
                events: self.events + self.pending,
                pending: Seq::empty(),
            },
            _ => TimelineModel { pending: self.pending.push(e), ..self },
        }
    }
}

/// An append-only log of committed steps and their mutation events.
///
/// Mutations gather in a pending buffer while a step runs; committing
/// moves them into the log, rolling back discards them, so no partial
/// step is ever visible.
pub struct Timeline {
    steps: Vec<Step>,
    events: Vec<Event>,
    pending: Vec<Event>,
}

impl Timeline {
    /// An empty timeline.
    pub fn new() -> (t: Timeline)
        ensures
            t.model() == TimelineModel::empty(),
    {
        Timeline { steps: Vec::new(), events: Vec::new(), pending: Vec::new() }
    }

    /// How many steps were committed or begun.
    pub fn num_steps(&self) -> (n: usize)
        ensures
            n == self.model().steps.len(),
    {
        self.steps.len()
    }

    /// The committed steps.
    pub fn steps(&self) -> (r: &Vec<Step>)
        ensures
            r@ == self.model().steps,
    {
        &self.steps
    }

    /// The committed mutation events.
    pub fn events(&self) -> (r: &Vec<Event>)
        ensures
            r@ == self.model().events,
    {
        &self.events
    }
}

impl Default for Timeline {
    /// An empty timeline.
    fn default() -> (t: Timeline)
        ensures
            t.model() == TimelineModel::empty(),
    {
        Timeline::new()
    }
}

impl Record for Timeline {
    type Model = TimelineModel;

    closed spec fn model(&self) -> TimelineModel {
        TimelineModel { steps: self.steps@, events: self.events@, pending: self.pending@ }
    }

    open spec fn absorb(m: TimelineModel, e: Event) -> TimelineModel {
        m.absorb(e)
    }

    fn start_step(&mut self, at: Position, instruction: u8) {
        self.steps.push(Step { at, instruction, events: 0 });
    }

    fn rollback_step(&mut self) {
        self.steps.pop();
        self.pending.clear();
        proof {
            if old(self).steps@.len() > 0 {
                assert(self.steps@ =~= old(self).steps@.drop_last());
            }
        }
    }

    fn commit_step(&mut self) {
        let n = self.steps.len();
        if n > 0 {
            let last = self.steps[n - 1];
            self.steps.set(
                n - 1,
                Step { at: last.at, instruction: last.instruction, events: self.pending.len() },
            );
        }
        let mut moved: Vec<Event> = Vec::new();
        std::mem::swap(&mut moved, &mut self.pending);
        self.events.append(&mut moved);
    }

    fn replace(&mut self, at: Position, before: u8, after: u8) {
        self.pending.push(Event::Replace { at, before, after });
    }

    fn pop(&mut self, top: u8) {
        self.pending.push(Event::Pop { top });
    }

    fn pop_bottom(&mut self) {
        self.pending.push(Event::PopBottom);
    }

    fn push(&mut self, top: u8) {
        self.pending.push(Event::Push { top });
    }

    fn enter_quote(&mut self) {
        self.pending.push(Event::EnterQuote);
    }

    fn exit_quote(&mut self) {
        self.pending.push(Event::ExitQuote);
    }
}

/// What replaying one committed mutation event does to a space, a
/// stack, and the quote flag.
pub open spec fn apply_event(
    space: SpaceModel,
    stack: Seq<u8>,
    quote: bool,
    e: Event,
) -> (SpaceModel, Seq<u8>, bool) {
    match e {
        Event::Replace { at, before, after } => (
            space.write(at.x as int, at.y as int, after),
            stack,
            quote,
        ),
        Event::Pop { top } => (
            space,
            if stack.len() > 0 {
                stack.drop_last()
            } else {
                stack
            },
            quote,
        ),
        Event::PopBottom => (space, stack, quote),
        Event::Push { top } => (space, stack.push(top), quote),
        Event::EnterQuote => (space, stack, true),
        Event::ExitQuote => (space, stack, false),
        _ => (space, stack, quote),
    }
}

/// Replaying a whole run of committed events, oldest first.
pub open spec fn apply_events(
    space: SpaceModel,
    stack: Seq<u8>,
    quote: bool,
    es: Seq<Event>,
) -> (SpaceModel, Seq<u8>, bool)
    decreases es.len(),
{
    if es.len() == 0 {
        (space, stack, quote)
    } else {
        let (s2, k2, q2) = apply_event(space, stack, quote, es[0]);
        apply_events(s2, k2, q2, es.drop_first())
    }
}

/// Replaying a single event.
pub proof fn lemma_apply_events_one(space: SpaceModel, stack: Seq<u8>, quote: bool, e: Event)
    ensures
        apply_events(space, stack, quote, seq![e]) == apply_event(space, stack, quote, e),
{
    let es = seq![e];
    assert(es[0] == e);
    assert(es.drop_first() =~= Seq::<Event>::empty());
    let (s2, k2, q2) = apply_event(space, stack, quote, e);
    assert(apply_events(space, stack, quote, es) == apply_events(s2, k2, q2, Seq::<Event>::empty()));
}

/// Replaying one more event onto the back of a run.
pub proof fn lemma_apply_events_push(
    space: SpaceModel,
    stack: Seq<u8>,
    quote: bool,
    es: Seq<Event>,
    e: Event,
)
    ensures
        apply_events(space, stack, quote, es.push(e)) == ({
            let (s2, k2, q2) = apply_events(space, stack, quote, es);
            apply_event(s2, k2, q2, e)
        }),
    decreases es.len(),
{
    if es.len() == 0 {
        assert(es.push(e)[0] == e);
        assert(es.push(e).drop_first() =~= Seq::<Event>::empty());
        let (s2, k2, q2) = apply_event(space, stack, quote, e);
        assert(apply_events(space, stack, quote, es.push(e)) == apply_events(s2, k2, q2, Seq::<
            Event,
        >::empty()));
    } else {
        assert(es.push(e)[0] == es[0]);
        assert(es.push(e).drop_first() =~= es.drop_first().push(e));
        let (s2, k2, q2) = apply_event(space, stack, quote, es[0]);
        lemma_apply_events_push(s2, k2, q2, es.drop_first(), e);
    }
}

/// Replaying a run and then some more events is replaying the
/// concatenation.
pub proof fn lemma_apply_events_concat(
    space: SpaceModel,
    stack: Seq<u8>,
    quote: bool,
    es1: Seq<Event>,
    es2: Seq<Event>,
)
    ensures
        apply_events(space, stack, quote, es1 + es2) == {
            let (s2, k2, q2) = apply_events(space, stack, quote, es1);
            apply_events(s2, k2, q2, es2)
        },
    decreases es1.len(),
{
    if es1.len() == 0 {
        assert(es1 + es2 =~= es2);
    } else {
        assert((es1 + es2).drop_first() =~= es1.drop_first() + es2);
        assert((es1 + es2)[0] == es1[0]);
        let (s2, k2, q2) = apply_event(space, stack, quote, es1[0]);
        lemma_apply_events_concat(s2, k2, q2, es1.drop_first(), es2);
    }
}

impl Timeline {
    /// Replays the committed events against a space, a stack, and a
    /// quote flag, mutating them exactly as the recorded run did.
    pub fn replay(&self, space: &mut crate::space::Space, stack: &mut Vec<u8>, quote: bool) -> (q:
        bool)
        requires
            old(space).wf(),
        ensures
            final(space).wf(),
            (final(space)@, final(stack)@, q) == apply_events(
                old(space)@,
                old(stack)@,
                quote,
                self.model().events,
            ),
    {
        let ghost es = self.model().events;
        proof {
            assert(es.skip(0) =~= es);
        }
        let mut q = quote;
        let mut i: usize = 0;
        while i < self.events.len()
            invariant
                0 <= i <= es.len(),
                es == self.events@,
                space.wf(),
                apply_events(old(space)@, old(stack)@, quote, es) == apply_events(
                    space@,
                    stack@,
                    q,
                    es.skip(i as int),
                ),
            decreases es.len() - i,
        {
            let ghost pre_space = space@;
            let ghost pre_stack = stack@;
            let ghost pre_q = q;
            let e = self.events[i];
            match e {
                Event::Replace { at, before: _, after } => {
                    space.set_cell(at, after);
                },
                Event::Pop { top: _ } => {
                    stack.pop();
                },
                Event::PopBottom => {},
                Event::Push { top } => {
                    stack.push(top);
                },
                Event::EnterQuote => {
                    q = true;
                },
                Event::ExitQuote => {
                    q = false;
                },
                _ => {},
            }
            proof {
                assert(es.skip(i as int)[0] == es[i as int]);
                assert(es.skip(i as int).drop_first() =~= es.skip(i + 1));
                assert((space@, stack@, q) == apply_event(pre_space, pre_stack, pre_q, es[i as int]));
            }
            i = i + 1;
        }
        proof {
            assert(es.skip(es.len() as int) =~= Seq::<Event>::empty());
        }
        q
    }
}

} // verus!
