//! The sequence that a lowered body produces: what a consumer that polls the
//! machine observes, held against the body as it was written.

use crate::declares;
use crate::emit::{arm_views, arms_of, ArmView, Generator};
use crate::sig::IterParams;
use crate::protocol::{lemma_poll_serves, poll, run, served, Exit, Turn};
use crate::walker::{closed, copies, gives, lemma_segments_len, lowered, segments, Step, Stmt};
use vstd::prelude::*;

verus! {

/// Something a consumer of the machine can observe.
pub enum Event<S, E> {
    /// A statement ran.
    Run(S),
    /// The value of an expression was produced.
    Give(E),
    /// Exhaustion was reported.
    End,
}

/// The events of running `nodes` in order.
pub open spec fn runs<S, E>(nodes: Seq<S>) -> Seq<Event<S, E>> {
    Seq::new(nodes.len(), |i: int| Event::Run(nodes[i]))
}

/// `count` reports of exhaustion.
pub open spec fn ends<S, E>(count: nat) -> Seq<Event<S, E>> {
    Seq::new(count, |i: int| Event::End)
}

/// The events of `body` as it is written: its statements from first to
/// last, where a yield point produces the value of its expression.
pub open spec fn events<S, E>(body: Seq<Stmt<S, E>>) -> Seq<Event<S, E>>
    decreases body.len(),
{
    if body.len() == 0 {
        Seq::empty()
    } else {
        events(body.drop_last()).push(
            match body.last().given() {
                Some(tokens) => Event::Give(tokens),
                None => Event::Run(body.last().node),
            },
        )
    }
}

/// The events of `body` up to and including its yield point number `count`,
/// counted from one.
pub open spec fn woven<S, E>(body: Seq<Stmt<S, E>>, count: nat) -> Seq<Event<S, E>>
    decreases count,
{
    if count == 0 {
        Seq::empty()
    } else {
        woven(body, (count - 1) as nat) + runs(segments(body)[count - 1]).push(
            Event::Give(gives(body)[count - 1]),
        )
    }
}

/// One call of the step function in `state`, as far as `dispatches` further
/// dispatches take it: the events it causes and the state it leaves. The
/// step function dispatches until an arm returns; an arm that runs off its
/// end leaves it to the arm that the state then selects. `None` when no arm
/// has returned after the first dispatch and `dispatches` more.
pub open spec fn call_within<S, E>(
    arms: Seq<ArmView<S, E>>,
    state: usize,
    dispatches: nat,
) -> Option<(Seq<Event<S, E>>, usize)>
    decreases dispatches,
{
    match poll(arms, state) {
        Some(turn) => match turn.exit {
            Exit::Give(tokens) => Some((runs(turn.ran).push(Event::Give(tokens)), turn.state)),
            Exit::Finish => Some((runs(turn.ran).push(Event::End), turn.state)),
            Exit::Again => if dispatches == 0 {
                None
            } else {
                match call_within(arms, turn.state, (dispatches - 1) as nat) {
                    Some((more, left)) => Some((runs(turn.ran) + more, left)),
                    None => None,
                }
            },
        },
        None => None,
    }
}

/// One call of the step function in `state`: the events it causes and the
/// state it leaves; `None` for a call that does not return, however often
/// it dispatches, and for one that comes to a state that no arm lists.
pub open spec fn call<S, E>(arms: Seq<ArmView<S, E>>, state: usize) -> Option<
    (Seq<Event<S, E>>, usize),
> {
    if exists|dispatches: nat| call_within(arms, state, dispatches) is Some {
        call_within(arms, state, choose|dispatches: nat| call_within(arms, state, dispatches) is Some)
    } else {
        None
    }
}

/// A call that has returned within some number of dispatches returns the
/// same within any greater number.
proof fn lemma_call_within_more<S, E>(
    arms: Seq<ArmView<S, E>>,
    state: usize,
    dispatches: nat,
    more: nat,
)
    requires
        call_within(arms, state, dispatches) is Some,
        dispatches <= more,
    ensures
        call_within(arms, state, more) == call_within(arms, state, dispatches),
    decreases dispatches,
{
    if dispatches > 0 {
        let turn = poll(arms, state).unwrap();
        if turn.exit is Again {
            lemma_call_within_more(arms, turn.state, (dispatches - 1) as nat, (more - 1) as nat);
        }
    }
}

/// What a call returns within some number of dispatches is what it returns.
pub proof fn lemma_call_returns<S, E>(arms: Seq<ArmView<S, E>>, state: usize, dispatches: nat)
    requires
        call_within(arms, state, dispatches) is Some,
    ensures
        call(arms, state) == call_within(arms, state, dispatches),
{
    let chosen = choose|d: nat| call_within(arms, state, d) is Some;
    if chosen <= dispatches {
        lemma_call_within_more(arms, state, chosen, dispatches);
    } else {
        lemma_call_within_more(arms, state, dispatches, chosen);
    }
}

/// `polls` calls of the step function in a row, the first of them in
/// `state`: the events they cause, in order, and the state they leave.
pub open spec fn drain<S, E>(arms: Seq<ArmView<S, E>>, state: usize, polls: nat) -> Option<
    (Seq<Event<S, E>>, usize),
>
    decreases polls,
{
    if polls == 0 {
        Some((Seq::empty(), state))
    } else {
        match drain(arms, state, (polls - 1) as nat) {
            Some((seen, reached)) => match call(arms, reached) {
                Some((more, left)) => Some((seen + more, left)),
                None => None,
            },
            None => None,
        }
    }
}

proof fn lemma_run_trailing<S, E>(nodes: Seq<S>, end: usize, state: usize)
    ensures
        run(copies::<S, E>(nodes).push(Step::Enter(end)), state) == (Turn::<S, E> {
            ran: nodes,
            exit: Exit::Again,
            state: end,
        }),
    decreases nodes.len(),
{
    let steps = copies::<S, E>(nodes).push(Step::Enter(end));
    if nodes.len() == 0 {
        let tail = steps.drop_first();
        assert(steps[0] == Step::<S, E>::Enter(end));
        assert(tail.len() == 0);
        assert(run(tail, end) == (Turn::<S, E> {
            ran: Seq::empty(),
            exit: Exit::Again,
            state: end,
        }));
        assert(run(steps, state).ran =~= nodes);
    } else {
        assert(steps[0] == Step::<S, E>::Copy(nodes[0]));
        assert(steps.drop_first() =~= copies::<S, E>(nodes.drop_first()).push(Step::Enter(end)));
        lemma_run_trailing::<S, E>(nodes.drop_first(), end, state);
        assert(seq![nodes[0]] + nodes.drop_first() =~= nodes);
    }
}

proof fn lemma_run_closed<S, E>(nodes: Seq<S>, next: usize, tokens: E, state: usize)
    ensures
        run(closed(nodes, next, tokens), state) == (Turn {
            ran: nodes,
            exit: Exit::Give(tokens),
            state: next,
        }),
    decreases nodes.len(),
{
    let steps = closed(nodes, next, tokens);
    if nodes.len() == 0 {
        let tail = steps.drop_first();
        assert(steps[0] == Step::<S, E>::Enter(next));
        assert(tail[0] == Step::<S, E>::Give(tokens));
        assert(run(tail, next) == (Turn {
            ran: Seq::<S>::empty(),
            exit: Exit::Give(tokens),
            state: next,
        }));
        assert(run(steps, state) == run(tail, next));
        assert(run(steps, state).ran =~= nodes);
    } else {
        assert(steps[0] == Step::<S, E>::Copy(nodes[0]));
        assert(steps.drop_first() =~= closed(nodes.drop_first(), next, tokens));
        lemma_run_closed(nodes.drop_first(), next, tokens, state);
        assert(seq![nodes[0]] + nodes.drop_first() =~= nodes);
    }
}

/// What stands before a yield point does not depend on what follows it.
proof fn lemma_woven_grows<S, E>(body: Seq<Stmt<S, E>>, count: nat)
    requires
        body.len() > 0,
        count <= gives(body.drop_last()).len(),
    ensures
        woven(body, count) == woven(body.drop_last(), count),
    decreases count,
{
    if count > 0 {
        lemma_woven_grows(body, (count - 1) as nat);
        lemma_segments_len(body.drop_last());
    }
}

/// The segments and the yield points of a body, taken in turn, are the body:
/// nothing is lost and nothing changes its place.
pub proof fn lemma_events_split<S, E>(body: Seq<Stmt<S, E>>)
    ensures
        segments(body).len() == gives(body).len() + 1,
        events(body) == woven(body, gives(body).len()) + runs(
            segments(body)[gives(body).len() as int],
        ),
    decreases body.len(),
{
    lemma_segments_len(body);
    let n = gives(body).len();
    if body.len() == 0 {
        assert(events(body) =~= woven(body, n) + runs(segments(body)[n as int]));
    } else {
        let before = body.drop_last();
        let m = gives(before).len();
        lemma_events_split(before);
        lemma_woven_grows(body, m);
        match body.last().given() {
            Some(tokens) => {
                assert(segments(body)[m as int] == segments(before)[m as int]);
                assert(woven(body, n) == woven(body, m) + runs(segments(body)[m as int]).push(
                    Event::Give(tokens),
                ));
                assert(events(body) =~= woven(body, n) + runs(segments(body)[n as int]));
            },
            None => {
                assert(runs::<S, E>(segments(body)[n as int]) =~= runs::<S, E>(
                    segments(before)[n as int],
                ).push(Event::Run(body.last().node)));
                assert(events(body) =~= woven(body, n) + runs(segments(body)[n as int]));
            },
        }
    }
}

/// What the machine of `body` does when it is dispatched in the state that
/// ends at yield point number `index`, counted from zero: it runs
/// the statements between the yield point before and this one, produces the
/// value of this one, and moves to the next state.
proof fn lemma_poll_gives<S, E>(body: Seq<Stmt<S, E>>, index: int)
    requires
        0 <= index < gives(body).len(),
        gives(body).len() + 2 <= usize::MAX,
    ensures
        poll(arms_of(lowered(body)), index as usize) == Some(
            Turn {
                ran: segments(body)[index],
                exit: Exit::Give(gives(body)[index]),
                state: (index + 1) as usize,
            },
        ),
{
    let bodies = lowered(body);
    lemma_poll_serves(bodies, index);
    let steps = closed(segments(body)[index], (index + 1) as usize, gives(body)[index]);
    assert(bodies[index] == steps);
    assert(steps.len() > 0);
    lemma_run_closed(
        segments(body)[index],
        (index + 1) as usize,
        gives(body)[index],
        index as usize,
    );
}

/// The state in which the machine of `body` rests once it is exhausted: the
/// state after the last yield point where nothing follows that yield point,
/// else the end state, to which the statements that follow hand over.
pub open spec fn resting<S, E>(body: Seq<Stmt<S, E>>) -> usize {
    if segments(body).last().len() == 0 {
        gives(body).len() as usize
    } else {
        (gives(body).len() + 1) as usize
    }
}

/// A dispatch in the end state runs nothing, reports exhaustion and stays.
proof fn lemma_poll_end<S, E>(body: Seq<Stmt<S, E>>)
    requires
        gives(body).len() + 2 <= usize::MAX,
    ensures
        poll(arms_of(lowered(body)), (gives(body).len() + 1) as usize) == Some(
            Turn::<S, E> {
                ran: Seq::empty(),
                exit: Exit::Finish,
                state: (gives(body).len() + 1) as usize,
            },
        ),
{
    let n = gives(body).len() as int;
    let bodies = lowered(body);
    lemma_poll_serves(bodies, n + 1);
    let last = seq![Step::<S, E>::Finish];
    assert(bodies[n + 1] == last);
    assert(served(bodies, n + 1) == last);
    assert(last[0] == Step::<S, E>::Finish);
}

/// The first call of the step function after the last value was produced
/// runs the statements that follow the last yield point, reports
/// exhaustion, and leaves the machine in the state in which it rests.
proof fn lemma_call_finishes<S, E>(body: Seq<Stmt<S, E>>)
    requires
        gives(body).len() + 2 <= usize::MAX,
    ensures
        call(arms_of(lowered(body)), gives(body).len() as usize) == Some(
            (runs::<S, E>(segments(body).last()).push(Event::End), resting(body)),
        ),
{
    let n = gives(body).len() as int;
    let bodies = lowered(body);
    let arms = arms_of(bodies);
    let run_last = segments(body).last();
    lemma_segments_len(body);
    lemma_poll_serves(bodies, n);
    lemma_poll_end(body);
    let last = seq![Step::<S, E>::Finish];
    assert(bodies[n + 1] == last);
    assert(served(bodies, n + 1) == last);
    assert(last[0] == Step::<S, E>::Finish);
    if run_last.len() == 0 {
        assert(bodies[n] =~= Seq::<Step<S, E>>::empty());
        assert(served(bodies, n) == last);
        lemma_call_returns(arms, n as usize, 0);
    } else {
        let steps = copies::<S, E>(run_last).push(Step::Enter((n + 1) as usize));
        assert(bodies[n] == steps);
        lemma_run_trailing::<S, E>(run_last, (n + 1) as usize, n as usize);
        assert(call_within(arms, (n + 1) as usize, 0) == Some(
            (runs::<S, E>(Seq::empty()).push(Event::End), (n + 1) as usize),
        ));
        assert(runs::<S, E>(run_last) + runs::<S, E>(Seq::empty()).push(Event::End)
            =~= runs::<S, E>(run_last).push(Event::End));
        lemma_call_returns(arms, n as usize, 1);
    }
}

/// Polling the machine of `body` as many times as `count`, from its start,
/// runs the statements and produces the values of `body` in the order in
/// which they are written, up to yield point number `count`, and leaves the
/// machine in the state after that yield point. This holds of every body
/// and every `count` up to the number of its yield points.
pub proof fn lemma_gives_in_order<S, E>(body: Seq<Stmt<S, E>>, count: nat)
    requires
        count <= gives(body).len(),
        gives(body).len() + 2 <= usize::MAX,
    ensures
        drain(arms_of(lowered(body)), 0, count) == Some((woven(body, count), count as usize)),
    decreases count,
{
    if count > 0 {
        lemma_gives_in_order(body, (count - 1) as nat);
        lemma_poll_gives(body, count - 1);
        lemma_call_returns(arms_of(lowered(body)), (count - 1) as usize, 0);
    }
}

/// Once the machine of `body` has reported exhaustion, every further poll
/// reports it again, runs nothing, and leaves the machine where it rests.
pub proof fn lemma_stays_exhausted<S, E>(body: Seq<Stmt<S, E>>, polls: nat)
    requires
        gives(body).len() + 2 <= usize::MAX,
    ensures
        drain(arms_of(lowered(body)), resting(body), polls) == Some(
            (ends::<S, E>(polls), resting(body)),
        ),
    decreases polls,
{
    let arms = arms_of(lowered(body));
    if polls == 0 {
        assert(ends::<S, E>(0) =~= Seq::empty());
    } else {
        lemma_stays_exhausted(body, (polls - 1) as nat);
        if segments(body).last().len() == 0 {
            lemma_call_finishes(body);
        } else {
            lemma_poll_end(body);
            lemma_call_returns(arms, resting(body), 0);
        }
        assert(runs::<S, E>(Seq::empty()).push(Event::End) =~= seq![Event::End]);
        assert(ends::<S, E>((polls - 1) as nat) + seq![Event::End] =~= ends::<S, E>(polls));
    }
}

/// Polling `more` times after `polls` continues where those left off.
proof fn lemma_drain_continues<S, E>(
    arms: Seq<ArmView<S, E>>,
    state: usize,
    polls: nat,
    more: nat,
    first: (Seq<Event<S, E>>, usize),
    second: (Seq<Event<S, E>>, usize),
)
    requires
        drain(arms, state, polls) == Some(first),
        drain(arms, first.1, more) == Some(second),
    ensures
        drain(arms, state, polls + more) == Some((first.0 + second.0, second.1)),
    decreases more,
{
    if more == 0 {
        assert(first.0 + second.0 =~= first.0);
    } else {
        let middle = drain(arms, first.1, (more - 1) as nat).unwrap();
        lemma_drain_continues(arms, state, polls, (more - 1) as nat, first, middle);
        let last = call(arms, middle.1).unwrap();
        assert((first.0 + middle.0) + last.0 =~= first.0 + (middle.0 + last.0));
    }
}

/// A consumer that polls the machine of `body` sees the body happen as it
/// is written, and then exhaustion for as long as it keeps polling: with `n`
/// yield points, `n + extra` polls from the start cause the events of the
/// body, in order, followed by `extra` reports of exhaustion. The statements
/// that follow the last yield point run on the poll that first reports
/// exhaustion, so `extra` is at least one; of fewer polls
/// `lemma_gives_in_order` speaks.
pub proof fn lemma_drains_as_written<S, E>(body: Seq<Stmt<S, E>>, extra: nat)
    requires
        gives(body).len() + 2 <= usize::MAX,
        extra >= 1,
    ensures
        drain(arms_of(lowered(body)), 0, gives(body).len() + extra) == Some(
            (events(body) + ends(extra), resting(body)),
        ),
{
    let n = gives(body).len();
    let arms = arms_of(lowered(body));
    let given = (woven(body, n), n as usize);
    let finish = (runs::<S, E>(segments(body).last()).push(Event::End), resting(body));
    let after = (ends::<S, E>((extra - 1) as nat), resting(body));
    lemma_gives_in_order(body, n);
    lemma_call_finishes(body);
    lemma_stays_exhausted(body, (extra - 1) as nat);
    assert(drain(arms, n as usize, 0) == Some((Seq::<Event<S, E>>::empty(), n as usize)));
    assert(drain(arms, n as usize, 1) == Some(finish)) by {
        assert(Seq::<Event<S, E>>::empty() + finish.0 =~= finish.0);
    }
    lemma_drain_continues(arms, 0, n, 1, given, finish);
    lemma_drain_continues(arms, 0, n + 1, (extra - 1) as nat, (given.0 + finish.0, finish.1), after);
    lemma_events_split(body);
    lemma_segments_len(body);
    assert(ends::<S, E>(extra) =~= seq![Event::End] + ends::<S, E>((extra - 1) as nat));
    assert((given.0 + finish.0) + after.0 =~= events(body) + ends(extra));
}

/// The same, said of the declarations that `giver` builds: polled from
/// the state that the constructor sets, the step function with these arms
/// causes the events of the body as it is written, then reports exhaustion
/// for as long as it is polled.
pub proof fn lemma_generator_drains_as_written<S, E, T>(
    generator: Generator<S, E, T>,
    name: Seq<char>,
    params: Seq<IterParams<T>>,
    item: T,
    body: Seq<Stmt<S, E>>,
    extra: nat,
)
    requires
        declares(generator, name, params, item, body),
        extra >= 1,
    ensures
        drain(arm_views(generator.arms@), generator.start, gives(body).len() + extra) == Some(
            (events(body) + ends(extra), resting(body)),
        ),
{
    assert(generator.variants.len() == generator.variants@.len());
    lemma_drains_as_written(body, extra);
}

/// Of the declarations that `giver` builds, too, the first polls produce the
/// values of the yield points in the order in which they are written: after
/// `count` polls, for any `count` up to the number of yield points, what has
/// happened is the body up to and including yield point number `count`.
pub proof fn lemma_generator_gives_in_order<S, E, T>(
    generator: Generator<S, E, T>,
    name: Seq<char>,
    params: Seq<IterParams<T>>,
    item: T,
    body: Seq<Stmt<S, E>>,
    count: nat,
)
    requires
        declares(generator, name, params, item, body),
        count <= gives(body).len(),
    ensures
        drain(arm_views(generator.arms@), generator.start, count) == Some(
            (woven(body, count), count as usize),
        ),
{
    assert(generator.variants.len() == generator.variants@.len());
    lemma_gives_in_order(body, count);
}

/// A body without yield points produces nothing, whatever statements it
/// holds: the first poll runs them, in order, and reports exhaustion, and
/// every later poll reports it again with nothing left to run.
pub proof fn lemma_nothing_to_give<S, E>(body: Seq<Stmt<S, E>>, polls: nat)
    requires
        gives(body).len() == 0,
        polls >= 1,
    ensures
        drain(arms_of(lowered(body)), 0, polls) == Some(
            (events(body) + ends(polls), resting(body)),
        ),
        forall|i: int| 0 <= i < events(body).len() ==> #[trigger] events(body)[i] is Run,
{
    lemma_drains_as_written(body, polls);
    lemma_events_split(body);
    assert(events(body) =~= runs::<S, E>(segments(body)[0]));
}

} // verus!
