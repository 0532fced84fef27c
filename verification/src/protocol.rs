//! The pull protocol of the emitted machine: what one dispatch of the step
//! function does, and what a consumer sees when it polls repeatedly.

use crate::emit::{arm_views, arms_from, arms_of, span, Arm, ArmView, Generator};
use crate::walker::Step;
use vstd::prelude::*;

verus! {

/// How the body of an arm ends.
#[derive(Clone, Debug, PartialEq, Eq)]
pub enum Exit<E> {
    /// It returns the value of this expression.
    Give(E),
    /// It returns nothing: the sequence is exhausted.
    Finish,
    /// It runs off its end, and the step function dispatches again.
    Again,
}

/// What one dispatch does: the statements it runs, in order, how it ends,
/// and the state it leaves the machine in.
pub struct Turn<S, E> {
    pub ran: Seq<S>,
    pub exit: Exit<E>,
    pub state: usize,
}

/// Runs `steps` in order, starting in `state`, up to the first that returns.
pub open spec fn run<S, E>(steps: Seq<Step<S, E>>, state: usize) -> Turn<S, E>
    decreases steps.len(),
{
    if steps.len() == 0 {
        Turn { ran: Seq::empty(), exit: Exit::Again, state }
    } else {
        match steps[0] {
            Step::Copy(node) => {
                let rest = run(steps.drop_first(), state);
                Turn { ran: seq![node] + rest.ran, exit: rest.exit, state: rest.state }
            },
            Step::Enter(next) => run(steps.drop_first(), next),
            Step::Give(tokens) => Turn { ran: Seq::empty(), exit: Exit::Give(tokens), state },
            Step::Finish => Turn { ran: Seq::empty(), exit: Exit::Finish, state },
        }
    }
}

/// The first arm at or after `from` that `state` selects.
pub open spec fn arm_from<S, E>(arms: Seq<ArmView<S, E>>, state: usize, from: int) -> Option<int>
    decreases arms.len() - from,
{
    if from < 0 || from >= arms.len() {
        None
    } else if arms[from].states.contains(state) {
        Some(from)
    } else {
        arm_from(arms, state, from + 1)
    }
}

/// One dispatch of the step function in `state`: the arm that the state
/// selects is run. `None` when no arm lists the state.
pub open spec fn poll<S, E>(arms: Seq<ArmView<S, E>>, state: usize) -> Option<Turn<S, E>> {
    match arm_from(arms, state, 0) {
        Some(arm) => Some(run(arms[arm].body, state)),
        None => None,
    }
}

/// The statements that run when the machine is dispatched in `state`: the
/// body of the first state at or after it that has one.
pub open spec fn served<S, E>(bodies: Seq<Seq<Step<S, E>>>, state: int) -> Seq<Step<S, E>>
    decreases bodies.len() - state,
{
    if state < 0 || state >= bodies.len() {
        Seq::empty()
    } else if bodies[state].len() > 0 {
        bodies[state]
    } else {
        served(bodies, state + 1)
    }
}

/// States with empty bodies are served what the next state is served.
proof fn lemma_served_skips<S, E>(bodies: Seq<Seq<Step<S, E>>>, from: int, to: int)
    requires
        0 <= from <= to <= bodies.len(),
        forall|j: int| from <= j < to ==> (#[trigger] bodies[j]).len() == 0,
    ensures
        served(bodies, from) == served(bodies, to),
    decreases to - from,
{
    if from < to {
        lemma_served_skips(bodies, from + 1, to);
    }
}

/// Looking up a state behind one more arm finds the same arm, one further.
proof fn lemma_arm_shift<S, E>(
    first: ArmView<S, E>,
    rest: Seq<ArmView<S, E>>,
    state: usize,
    from: int,
)
    requires
        0 <= from <= rest.len(),
    ensures
        arm_from(seq![first] + rest, state, from + 1) == match arm_from(rest, state, from) {
            Some(arm) => Some(arm + 1),
            None => None,
        },
    decreases rest.len() - from,
{
    let all = seq![first] + rest;
    if from < rest.len() {
        assert(all[from + 1] == rest[from]);
        lemma_arm_shift(first, rest, state, from + 1);
    }
}

/// In the arms for the states from `low` on, every such state selects an
/// arm, and that arm holds what the state is served.
proof fn lemma_arms_serve<S, E>(bodies: Seq<Seq<Step<S, E>>>, low: int, at: int, state: int)
    requires
        0 <= low <= at <= bodies.len() <= usize::MAX,
        forall|j: int| low <= j < at ==> (#[trigger] bodies[j]).len() == 0,
        low <= state < bodies.len(),
    ensures
        arm_from(arms_from(bodies, low, at), state as usize, 0) matches Some(arm) && 0 <= arm
            < arms_from(bodies, low, at).len() && arms_from(bodies, low, at)[arm].body == served(
            bodies,
            state,
        ),
    decreases bodies.len() - at,
{
    let arms = arms_from(bodies, low, at);
    if at == bodies.len() {
        assert(span(low, at)[state - low] == state as usize);
        lemma_served_skips(bodies, state, at);
    } else if bodies[at].len() > 0 {
        let first = ArmView { states: span(low, at + 1), body: bodies[at] };
        let rest = arms_from(bodies, at + 1, at + 1);
        assert(arms == seq![first] + rest);
        if state <= at {
            assert(span(low, at + 1)[state - low] == state as usize);
            lemma_served_skips(bodies, state, at);
        } else {
            assert(!first.states.contains(state as usize));
            lemma_arms_serve(bodies, at + 1, at + 1, state);
            lemma_arm_shift(first, rest, state as usize, 0);
        }
    } else {
        lemma_arms_serve(bodies, low, at + 1, state);
    }
}

/// A dispatch in `state` runs what the state is served.
pub proof fn lemma_poll_serves<S, E>(bodies: Seq<Seq<Step<S, E>>>, state: int)
    requires
        0 <= state < bodies.len() <= usize::MAX,
    ensures
        poll(arms_of(bodies), state as usize) == Some(run(served(bodies, state), state as usize)),
{
    lemma_arms_serve(bodies, 0, 0, state);
}

/// What one dispatch did, with the statements and the expression borrowed
/// from the machine.
#[derive(Clone, Debug, PartialEq, Eq)]
pub struct Polled<'a, S, E> {
    pub ran: Vec<&'a S>,
    pub exit: Exit<&'a E>,
    pub state: usize,
}

impl<'a, S, E> View for Polled<'a, S, E> {
    type V = Turn<S, E>;

    open spec fn view(&self) -> Turn<S, E> {
        Turn {
            ran: Seq::new(self.ran@.len(), |i: int| *self.ran@[i]),
            exit: match self.exit {
                Exit::Give(tokens) => Exit::Give(*tokens),
                Exit::Finish => Exit::Finish,
                Exit::Again => Exit::Again,
            },
            state: self.state,
        }
    }
}

/// Whether `state` is among `states`.
fn lists(states: &Vec<usize>, state: usize) -> (found: bool)
    ensures
        found == states@.contains(state),
{
    let mut i: usize = 0;
    while i < states.len()
        invariant
            i <= states@.len(),
            forall|j: int| 0 <= j < i ==> states@[j] != state,
        decreases states@.len() - i,
    {
        if states[i] == state {
            return true;
        }
        i += 1;
    }
    false
}

/// The arm that `state` selects.
fn select<S, E>(arms: &Vec<Arm<S, E>>, state: usize) -> (found: Option<usize>)
    ensures
        match found {
            Some(arm) => arm < arms@.len() && arm_from(arm_views(arms@), state, 0) == Some(
                arm as int,
            ),
            None => arm_from(arm_views(arms@), state, 0) is None,
        },
{
    let mut i: usize = 0;
    while i < arms.len()
        invariant
            i <= arms@.len(),
            arm_from(arm_views(arms@), state, 0) == arm_from(arm_views(arms@), state, i as int),
        decreases arms@.len() - i,
    {
        if lists(&arms[i].states, state) {
            return Some(i);
        }
        i += 1;
    }
    None
}

/// Runs the statements of one arm.
fn run_arm<'a, S, E>(steps: &'a Vec<Step<S, E>>, state: usize) -> (polled: Polled<'a, S, E>)
    ensures
        polled@ == run(steps@, state),
{
    let mut ran: Vec<&'a S> = Vec::new();
    let mut current = state;
    let mut i: usize = 0;
    proof {
        assert(steps@.skip(0) =~= steps@);
        assert(Seq::new(ran@.len(), |j: int| *ran@[j]) + run(steps@, state).ran =~= run(
            steps@,
            state,
        ).ran);
    }
    while i < steps.len()
        invariant
            i <= steps@.len(),
            run(steps@, state) == (Turn {
                ran: Seq::new(ran@.len(), |j: int| *ran@[j]) + run(
                    steps@.skip(i as int),
                    current,
                ).ran,
                exit: run(steps@.skip(i as int), current).exit,
                state: run(steps@.skip(i as int), current).state,
            }),
        decreases steps@.len() - i,
    {
        let ghost before = Seq::new(ran@.len(), |j: int| *ran@[j]);
        let ghost rest = steps@.skip(i as int);
        proof {
            assert(rest.drop_first() =~= steps@.skip(i + 1));
            assert(rest[0] == steps@[i as int]);
        }
        match &steps[i] {
            Step::Copy(node) => {
                ran.push(node);
                proof {
                    let after = Seq::new(ran@.len(), |j: int| *ran@[j]);
                    assert(after =~= before.push(*node));
                    assert(after + run(rest.drop_first(), current).ran =~= before + (seq![*node]
                        + run(rest.drop_first(), current).ran));
                }
            },
            Step::Enter(next) => {
                current = *next;
            },
            Step::Give(tokens) => {
                let polled = Polled { ran, exit: Exit::Give(tokens), state: current };
                proof {
                    assert(polled@.ran =~= before + Seq::<S>::empty());
                }
                return polled;
            },
            Step::Finish => {
                let polled = Polled { ran, exit: Exit::Finish, state: current };
                proof {
                    assert(polled@.ran =~= before + Seq::<S>::empty());
                }
                return polled;
            },
        }
        i += 1;
    }
    let polled = Polled { ran, exit: Exit::Again, state: current };
    proof {
        assert(steps@.skip(i as int) =~= Seq::<Step<S, E>>::empty());
        assert(polled@.ran =~= polled@.ran + Seq::<S>::empty());
    }
    polled
}

impl<S, E, T> Generator<S, E, T> {
    /// Dispatches once in `state`, as the step function does: finds the arm
    /// that the state selects and runs its statements up to the first that
    /// returns. `None` when no arm lists the state.
    pub fn poll<'a>(&'a self, state: usize) -> (polled: Option<Polled<'a, S, E>>)
        ensures
            match polled {
                Some(p) => poll(arm_views(self.arms@), state) == Some(p@),
                None => poll(arm_views(self.arms@), state) is None,
            },
    {
        match select(&self.arms, state) {
            Some(arm) => Some(run_arm(&self.arms[arm].body, state)),
            None => None,
        }
    }
}

} // verus!
