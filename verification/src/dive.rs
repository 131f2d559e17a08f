//! The dive controller: which piece of work comes next in a dive of a given
//! number of zoom steps.
//!
//! A zoom step searches the preview for a target and then moves the camera
//! towards it in `SUB_STEPS` smaller moves. The dive ends with the final shot,
//! once every zoom step is done or as soon as a search finds no target. The
//! controller holds no picture and no camera: it is told what happened and
//! says what to do next.

use vstd::prelude::*;

verus! {

/// The number of moves that carry the camera to the target of a zoom step.
pub const SUB_STEPS: u32 = 10;

/// Where a dive stands.
#[derive(Debug, Copy, Clone, PartialEq, Eq, Structural)]
pub enum Phase {
    /// The next zoom step needs its target.
    Searching,
    /// The camera moves towards the target at `(x, y)`; `sub_step` moves of
    /// this zoom step are done.
    Zooming { x: u32, y: u32, sub_step: u32 },
    /// Nothing is left but the final shot. `early` tells that a search found
    /// no target.
    Finished { early: bool },
}

/// What the controller is told.
#[derive(Debug, Copy, Clone, PartialEq, Eq, Structural)]
pub enum Event {
    /// The search found the target at `(x, y)`.
    TargetFound { x: u32, y: u32 },
    /// The search found no target.
    NoTarget,
    /// The camera has made one move.
    Moved,
}

/// What the controller asks for.
#[derive(Debug, Copy, Clone, PartialEq, Eq, Structural)]
pub enum Action {
    /// Render the preview and search it for the target of zoom step `step`.
    Search { step: usize },
    /// Make move `sub_step`, counted from zero, of zoom step `step` towards
    /// the target at `(x, y)`.
    Move { step: usize, sub_step: u32, x: u32, y: u32 },
    /// Take the final shot.
    Shoot,
}

/// The state of a dive: its budget of zoom steps, the zoom steps carried out
/// in full, and the phase.
pub struct DiveState {
    pub budget: nat,
    pub completed: nat,
    pub phase: Phase,
}

/// The state in which a dive of `budget` zoom steps begins.
pub open spec fn initial(budget: nat) -> DiveState {
    DiveState {
        budget,
        completed: 0,
        phase: if budget == 0 {
            Phase::Finished { early: false }
        } else {
            Phase::Searching
        },
    }
}

/// Whether `event` is one that the state waits for.
pub open spec fn expected(state: DiveState, event: Event) -> bool {
    match (state.phase, event) {
        (Phase::Searching, Event::TargetFound { .. }) => true,
        (Phase::Searching, Event::NoTarget) => true,
        (Phase::Zooming { .. }, Event::Moved) => true,
        _ => false,
    }
}

/// The state after `event`. An event that the state does not wait for
/// leaves it as it is.
pub open spec fn next(state: DiveState, event: Event) -> DiveState {
    match (state.phase, event) {
        (Phase::Searching, Event::TargetFound { x, y }) => DiveState {
            phase: Phase::Zooming { x, y, sub_step: 0 },
            ..state
        },
        (Phase::Searching, Event::NoTarget) => DiveState {
            phase: Phase::Finished { early: true },
            ..state
        },
        (Phase::Zooming { x, y, sub_step }, Event::Moved) => if sub_step + 1 < SUB_STEPS {
            DiveState { phase: Phase::Zooming { x, y, sub_step: (sub_step + 1) as u32 }, ..state }
        } else if state.completed + 1 < state.budget {
            DiveState { completed: state.completed + 1, phase: Phase::Searching, ..state }
        } else {
            DiveState {
                completed: state.completed + 1,
                phase: Phase::Finished { early: false },
                ..state
            }
        },
        _ => state,
    }
}

/// What the state asks for.
pub open spec fn wanted(state: DiveState) -> Action {
    match state.phase {
        Phase::Searching => Action::Search { step: state.completed as usize },
        Phase::Zooming { x, y, sub_step } => Action::Move {
            step: state.completed as usize,
            sub_step,
            x,
            y,
        },
        Phase::Finished { .. } => Action::Shoot,
    }
}

/// The states that a dive can be in: while it searches or zooms a zoom
/// step of the budget is still open; once it has finished, it has carried out
/// the whole budget unless it stopped early.
pub open spec fn valid(state: DiveState) -> bool {
    match state.phase {
        Phase::Searching => state.completed < state.budget,
        Phase::Zooming { sub_step, .. } => state.completed < state.budget && sub_step < SUB_STEPS,
        Phase::Finished { early } => if early {
            state.completed < state.budget
        } else {
            state.completed == state.budget
        },
    }
}

/// The searches made so far: one for each zoom step carried out, one more
/// for the zoom step under way or for the search that found nothing.
pub open spec fn searches(state: DiveState) -> nat {
    match state.phase {
        Phase::Searching => state.completed,
        Phase::Zooming { .. } => state.completed + 1,
        Phase::Finished { early } => if early {
            state.completed + 1
        } else {
            state.completed
        },
    }
}

/// An upper bound on the events that the state still waits for.
pub open spec fn remaining(state: DiveState) -> nat {
    match state.phase {
        Phase::Searching => ((state.budget - state.completed) * (SUB_STEPS + 1)) as nat,
        Phase::Zooming { sub_step, .. } => ((state.budget - state.completed) * (SUB_STEPS + 1) - 1
            - sub_step) as nat,
        Phase::Finished { .. } => 0,
    }
}

/// The state after a run of events, taken in order.
pub open spec fn run(state: DiveState, events: Seq<Event>) -> DiveState
    decreases events.len(),
{
    if events.len() == 0 {
        state
    } else {
        next(run(state, events.drop_last()), events.last())
    }
}

/// A dive begins in a valid state, and every event keeps it valid.
pub proof fn lemma_valid_preserved(state: DiveState, event: Event)
    requires
        valid(state),
    ensures
        valid(next(state, event)),
        valid(initial(state.budget)),
        next(state, event).budget == state.budget,
{
}

/// In every valid state the searches made are at most the budget, and so are
/// the zoom steps carried out; after a search that found no target the zoom
/// steps carried out are fewer than the budget.
pub proof fn lemma_within_budget(state: DiveState)
    requires
        valid(state),
    ensures
        searches(state) <= state.budget,
        state.completed <= state.budget,
        state.phase == (Phase::Finished { early: true }) ==> state.completed < state.budget,
{
}

/// Every event that a state waits for brings the dive nearer to its end.
pub proof fn lemma_progress(state: DiveState, event: Event)
    requires
        valid(state),
        expected(state, event),
    ensures
        remaining(next(state, event)) < remaining(state),
{
    let budget = state.budget as int;
    let completed = state.completed as int;
    assert((budget - completed) * 11 >= 11) by (nonlinear_arith)
        requires
            budget - completed >= 1,
    ;
    assert((budget - (completed + 1)) * 11 == (budget - completed) * 11 - 11) by (nonlinear_arith);
}

/// A finished dive stays as it is, whatever it is told.
pub proof fn lemma_finished_stays(state: DiveState, events: Seq<Event>)
    requires
        state.phase is Finished,
    ensures
        run(state, events) == state,
    decreases events.len(),
{
    if events.len() > 0 {
        lemma_finished_stays(state, events.drop_last());
    }
}

/// Running a dive on a run of events keeps it valid.
pub proof fn lemma_run_valid(state: DiveState, events: Seq<Event>)
    requires
        valid(state),
    ensures
        valid(run(state, events)),
        run(state, events).budget == state.budget,
    decreases events.len(),
{
    if events.len() > 0 {
        lemma_run_valid(state, events.drop_last());
        lemma_valid_preserved(run(state, events.drop_last()), events.last());
    }
}

/// A run of events can be taken in two parts.
pub proof fn lemma_run_split(state: DiveState, events: Seq<Event>, at: int)
    requires
        0 <= at <= events.len(),
    ensures
        run(state, events) == run(
            run(state, events.subrange(0, at)),
            events.subrange(at, events.len() as int),
        ),
    decreases events.len(),
{
    let head = events.subrange(0, at);
    let tail = events.subrange(at, events.len() as int);
    if at == events.len() {
        assert(head =~= events);
    } else {
        lemma_run_split(state, events.drop_last(), at);
        assert(events.drop_last().subrange(0, at) =~= head);
        assert(events.drop_last().subrange(at, events.len() - 1) =~= tail.drop_last());
        assert(tail.last() == events.last());
    }
}

/// The dive terminates within its budget. Whatever the dive is told, from its
/// beginning on, it makes at most as many searches as its budget allows and
/// carries out at most as many zoom steps. If one of its searches is
/// answered with no target, it carries out fewer zoom steps than the budget,
/// however many events follow.
pub proof fn lemma_dive_within_budget(budget: nat, events: Seq<Event>)
    ensures
        searches(run(initial(budget), events)) <= budget,
        run(initial(budget), events).completed <= budget,
        forall|i: int|
            0 <= i < events.len() && events[i] == Event::NoTarget && (#[trigger] run(
                initial(budget),
                events.subrange(0, i),
            )).phase == Phase::Searching ==> run(initial(budget), events).completed < budget,
{
    let start = initial(budget);
    lemma_run_valid(start, events);
    lemma_within_budget(run(start, events));
    assert forall|i: int|
        0 <= i < events.len() && events[i] == Event::NoTarget && (#[trigger] run(
            start,
            events.subrange(0, i),
        )).phase == Phase::Searching implies run(start, events).completed < budget by {
        let before = run(start, events.subrange(0, i));
        let upto = events.subrange(0, i + 1);
        assert(upto.drop_last() =~= events.subrange(0, i));
        assert(upto.last() == events[i]);
        let stopped = run(start, upto);
        assert(stopped == next(before, Event::NoTarget));
        lemma_run_valid(start, upto);
        lemma_run_split(start, events, i + 1);
        lemma_finished_stays(stopped, events.subrange(i + 1, events.len() as int));
    }
}

/// The controller of one dive.
#[derive(Debug, Copy, Clone)]
pub struct Dive {
    budget: usize,
    completed: usize,
    phase: Phase,
}

impl View for Dive {
    type V = DiveState;

    closed spec fn view(&self) -> DiveState {
        DiveState { budget: self.budget as nat, completed: self.completed as nat, phase: self.phase }
    }
}

impl Dive {
    /// The invariant of the type.
    pub open spec fn wf(&self) -> bool {
        valid(self@) && self@.budget <= usize::MAX
    }

    /// A dive of `budget` zoom steps, at its beginning.
    pub fn new(budget: usize) -> (dive: Dive)
        ensures
            dive.wf(),
            dive@ == initial(budget as nat),
    {
        let phase: Phase = if budget == 0 {
            Phase::Finished { early: false }
        } else {
            Phase::Searching
        };
        Dive { budget, completed: 0, phase }
    }

    /// What to do next.
    pub fn action(&self) -> (action: Action)
        requires
            self.wf(),
        ensures
            action == wanted(self@),
    {
        match self.phase {
            Phase::Searching => Action::Search { step: self.completed },
            Phase::Zooming { x, y, sub_step } => Action::Move {
                step: self.completed,
                sub_step,
                x,
                y,
            },
            Phase::Finished { .. } => Action::Shoot,
        }
    }

    /// Tells the controller what happened. Returns whether the dive waited
    /// for this event; if it did not, the dive is as before.
    pub fn advance(&mut self, event: Event) -> (taken: bool)
        requires
            old(self).wf(),
        ensures
            final(self).wf(),
            final(self)@ == next(old(self)@, event),
            taken == expected(old(self)@, event),
            taken ==> remaining(final(self)@) < remaining(old(self)@),
    {
        proof {
            lemma_valid_preserved(self@, event);
            if expected(self@, event) {
                lemma_progress(self@, event);
            }
        }
        match (self.phase, event) {
            (Phase::Searching, Event::TargetFound { x, y }) => {
                self.phase = Phase::Zooming { x, y, sub_step: 0 };
                true
            },
            (Phase::Searching, Event::NoTarget) => {
                self.phase = Phase::Finished { early: true };
                true
            },
            (Phase::Zooming { x, y, sub_step }, Event::Moved) => {
                if sub_step + 1 < SUB_STEPS {
                    self.phase = Phase::Zooming { x, y, sub_step: sub_step + 1 };
                } else {
                    self.completed = self.completed + 1;
                    self.phase = if self.completed < self.budget {
                        Phase::Searching
                    } else {
                        Phase::Finished { early: false }
                    };
                }
                true
            },
            _ => false,
        }
    }

    /// Whether only the final shot is left.
    pub fn is_finished(&self) -> (finished: bool)
        ensures
            finished == (self@.phase is Finished),
    {
        match self.phase {
            Phase::Finished { .. } => true,
            _ => false,
        }
    }

    /// Whether the dive ended on a search that found no target.
    pub fn stopped_early(&self) -> (early: bool)
        ensures
            early == (self@.phase == (Phase::Finished { early: true })),
    {
        match self.phase {
            Phase::Finished { early } => early,
            _ => false,
        }
    }

    /// The zoom steps carried out in full.
    pub fn completed_steps(&self) -> (steps: usize)
        ensures
            steps == self@.completed,
    {
        self.completed
    }

    /// The budget of zoom steps.
    pub fn budget(&self) -> (budget: usize)
        ensures
            budget == self@.budget,
    {
        self.budget
    }
}

/// The event that the outcome of a search gives rise to.
pub open spec fn event_of(found: Option<(u32, u32)>) -> Event {
    match found {
        Some(p) => Event::TargetFound { x: p.0, y: p.1 },
        None => Event::NoTarget,
    }
}

/// The event that the outcome of a search gives rise to: the target found,
/// or that there is none.
#[verifier::when_used_as_spec(event_of)]
pub fn event_for(found: Option<(u32, u32)>) -> (event: Event)
    ensures
        event == event_of(found),
{
    match found {
        Some((x, y)) => Event::TargetFound { x, y },
        None => Event::NoTarget,
    }
}

/// One piece of work of a dive in `state`: what the state asks for was done
/// on the world `before`, with the arguments that the state gives, left the
/// world `after` and gave rise to `event`. A search was handed the number of
/// the zoom step, a move the zoom step, the move and the target.
pub open spec fn worked<T, S: Fn(T, usize) -> (T, Option<(u32, u32)>), M: Fn(
    T,
    usize,
    u32,
    u32,
    u32,
) -> T>(state: DiveState, before: T, event: Event, after: T, search: S, travel: M) -> bool {
    match wanted(state) {
        Action::Search { step } => exists|found: Option<(u32, u32)>|
            #[trigger] search.ensures((before, step), (after, found)) && event == event_of(found),
        Action::Move { step, sub_step, x, y } => travel.ensures(
            (before, step, sub_step, x, y),
            after,
        ) && event == Event::Moved,
        Action::Shoot => false,
    }
}

/// A dive carried out from `start`: `events` are the events in order and
/// `worlds` the worlds between them, the first before any work. Each event
/// came from the piece of work that the dive asked for at that point, done
/// on the world that the piece before it left.
pub open spec fn carried<T, S: Fn(T, usize) -> (T, Option<(u32, u32)>), M: Fn(
    T,
    usize,
    u32,
    u32,
    u32,
) -> T>(start: DiveState, worlds: Seq<T>, events: Seq<Event>, search: S, travel: M) -> bool {
    &&& worlds.len() == events.len() + 1
    &&& forall|i: int|
        0 <= i < events.len() ==> worked(
            run(start, events.subrange(0, i)),
            worlds[i],
            #[trigger] events[i],
            worlds[i + 1],
            search,
            travel,
        )
}

/// A dive carried out goes on by one piece of work.
proof fn lemma_carried_further<T, S: Fn(T, usize) -> (T, Option<(u32, u32)>), M: Fn(
    T,
    usize,
    u32,
    u32,
    u32,
) -> T>(start: DiveState, worlds: Seq<T>, events: Seq<Event>, event: Event, after: T, search: S, travel: M)
    requires
        carried(start, worlds, events, search, travel),
        worked(run(start, events), worlds.last(), event, after, search, travel),
    ensures
        carried(start, worlds.push(after), events.push(event), search, travel),
        run(start, events.push(event)) == next(run(start, events), event),
{
    let longer = events.push(event);
    let further = worlds.push(after);
    assert(longer.drop_last() =~= events);
    assert forall|i: int| 0 <= i < longer.len() implies worked(
        run(start, longer.subrange(0, i)),
        further[i],
        #[trigger] longer[i],
        further[i + 1],
        search,
        travel,
    ) by {
        assert(longer.subrange(0, i) =~= events.subrange(0, i));
        if i < events.len() {
            assert(longer[i] == events[i]);
            assert(further[i] == worlds[i]);
            assert(further[i + 1] == worlds[i + 1]);
        } else {
            assert(events.subrange(0, i) =~= events);
        }
    }
}

/// Carries out a dive from where it stands to its end. `search` looks for
/// the target of a zoom step and `travel` makes one move of the camera
/// towards a target; both take the world of the dive, whatever it holds, and
/// hand it back. The dive asks for a search at the start of each zoom step,
/// for `SUB_STEPS` moves after each search that found a target, and for
/// nothing more once a search found none or the budget is used up. Each
/// piece of work is done on the world that the piece before it left, the
/// first on `world`. What comes back is the dive at its end, reached from
/// `dive` by the events that `search` and `travel` gave rise to, and the
/// world as the last piece of work left it.
pub fn carry_out<T, S, M>(dive: Dive, world: T, search: &S, travel: &M) -> (end: (Dive, T)) where
    S: Fn(T, usize) -> (T, Option<(u32, u32)>),
    M: Fn(T, usize, u32, u32, u32) -> T,

    requires
        dive.wf(),
        forall|world: T, step: usize| #[trigger] search.requires((world, step)),
        forall|world: T, step: usize, sub_step: u32, x: u32, y: u32| #[trigger]
            travel.requires((world, step, sub_step, x, y)),
    ensures
        end.0.wf(),
        end.0@.phase is Finished,
        end.0@.budget == dive@.budget,
        end.0@.completed <= dive@.budget,
        end.0@.phase == (Phase::Finished { early: true }) ==> end.0@.completed < dive@.budget,
        exists|worlds: Seq<T>, events: Seq<Event>|
            {
                &&& #[trigger] carried(dive@, worlds, events, *search, *travel)
                &&& worlds[0] == world
                &&& worlds.last() == end.1
                &&& end.0@ == run(dive@, events)
            },
{
    let ghost mut events: Seq<Event> = Seq::empty();
    let ghost mut worlds: Seq<T> = seq![world];
    let mut current: Dive = dive;
    let mut now: T = world;
    loop
        invariant
            current.wf(),
            current@ == run(dive@, events),
            current@.budget == dive@.budget,
            carried(dive@, worlds, events, *search, *travel),
            worlds[0] == world,
            worlds.last() == now,
            forall|world: T, step: usize| #[trigger] search.requires((world, step)),
            forall|world: T, step: usize, sub_step: u32, x: u32, y: u32| #[trigger]
                travel.requires((world, step, sub_step, x, y)),
        decreases remaining(current@),
    {
        let ghost before = now;
        let event: Event = match current.action() {
            Action::Search { step } => {
                let (after, found) = search(now, step);
                now = after;
                event_for(found)
            },
            Action::Move { step, sub_step, x, y } => {
                now = travel(now, step, sub_step, x, y);
                Event::Moved
            },
            Action::Shoot => {
                proof {
                    lemma_within_budget(current@);
                }
                return (current, now);
            },
        };
        proof {
            assert(worked(current@, before, event, now, *search, *travel));
            lemma_carried_further(dive@, worlds, events, event, now, *search, *travel);
            events = events.push(event);
            worlds = worlds.push(now);
        }
        current.advance(event);
    }
}

} // verus!
