//! Runs of the driver: what it hands out when a series of events is fed to
//! it, and what holds of every run.

use vstd::prelude::*;
use crate::epaper::{begin, end, transition, DriverView, MAX_DELAY_MS, POLLING_MS};
use crate::error::Error;
use crate::program::OpView;
use crate::protocol::{ActionView, Event, Level, StepView};

verus! {

/// The state after `events` were fed one by one, and the steps that were
/// handed out in answer, one for each event.
pub open spec fn run(state: DriverView, events: Seq<Event>) -> (DriverView, Seq<StepView>)
    decreases events.len(),
{
    if events.len() == 0 {
        (state, Seq::empty())
    } else {
        let (next, step) = transition(state, events[0]);
        let (last, steps) = run(next, events.drop_first());
        (last, seq![step] + steps)
    }
}

/// `count` times the end of an operation with `result`.
pub open spec fn finished(result: Result<(), Error>, count: nat) -> Seq<StepView> {
    Seq::new(count, |i: int| StepView::Finished(result))
}

/// The event with which hardware that works, and a panel that is idle at
/// the first look, answers a step.
pub open spec fn ready_event(op: OpView) -> Event {
    if op is WaitIdle {
        Event::Sampled(Level::High)
    } else {
        Event::Done
    }
}

/// The answers of such hardware to each step of a program.
pub open spec fn ready_events(ops: Seq<OpView>) -> Seq<Event> {
    ops.map_values(|op: OpView| ready_event(op))
}

/// One action for each step of a program: the step itself, or one look at
/// the busy line for a wait.
pub open spec fn actions(ops: Seq<OpView>) -> Seq<StepView> {
    ops.map_values(|op: OpView| StepView::Perform(op.action()))
}

/// The events of `rounds` rounds of a wait in which the panel is busy: a low
/// reading, then the end of the pause.
pub open spec fn busy_rounds(rounds: nat) -> Seq<Event>
    decreases rounds,
{
    if rounds == 0 {
        Seq::empty()
    } else {
        seq![Event::Sampled(Level::Low), Event::Done] + busy_rounds((rounds - 1) as nat)
    }
}

/// The steps of `rounds` rounds of a wait that goes on: a pause of
/// [`POLLING_MS`], then the next look at the busy line.
pub open spec fn poll_steps(rounds: nat) -> Seq<StepView>
    decreases rounds,
{
    if rounds == 0 {
        Seq::empty()
    } else {
        seq![
            StepView::Perform(ActionView::DelayMs(POLLING_MS)),
            StepView::Perform(ActionView::ReadBusy),
        ] + poll_steps((rounds - 1) as nat)
    }
}

/// A run over two series of events, one after the other, is the run over
/// the first followed by the run over the second from where the first ended.
pub proof fn lemma_run_concat(state: DriverView, first: Seq<Event>, second: Seq<Event>)
    ensures
        run(state, first + second).0 == run(run(state, first).0, second).0,
        run(state, first + second).1 == run(state, first).1 + run(run(state, first).0, second).1,
    decreases first.len(),
{
    if first.len() == 0 {
        assert(first + second =~= second);
        assert(run(state, first).1 + run(state, second).1 =~= run(state, second).1);
    } else {
        let next = transition(state, first[0]).0;
        let step = transition(state, first[0]).1;
        assert((first + second).drop_first() =~= first.drop_first() + second);
        lemma_run_concat(next, first.drop_first(), second);
        let middle = run(next, first.drop_first()).0;
        assert(seq![step] + (run(next, first.drop_first()).1 + run(middle, second).1) =~= (seq![
            step,
        ] + run(next, first.drop_first()).1) + run(middle, second).1);
    }
}

/// An idle driver hands out no action: whatever it is told, it stays idle
/// and repeats the result of its last operation.
pub proof fn lemma_idle_stays_idle(result: Result<(), Error>, events: Seq<Event>)
    ensures
        run(DriverView::Idle(result), events) == (
            DriverView::Idle(result),
            finished(result, events.len()),
        ),
    decreases events.len(),
{
    if events.len() == 0 {
        assert(finished(result, 0) =~= Seq::<StepView>::empty());
    } else {
        lemma_idle_stays_idle(result, events.drop_first());
        assert(seq![StepView::Finished(result)] + finished(
            result,
            events.drop_first().len(),
        ) =~= finished(result, events.len()));
    }
}

/// A fault ends the operation in progress at once. The result is the
/// platform's code, unchanged, and no action is handed out after it,
/// whatever events follow.
pub proof fn lemma_fault_ends_operation(state: DriverView, code: i32, later: Seq<Event>)
    requires
        !(state is Idle),
    ensures
        transition(state, Event::Failed(code)) == end(Err(Error::SpiError(code))),
        run(state, seq![Event::Failed(code)] + later) == (
            DriverView::Idle(Err(Error::SpiError(code))),
            finished(Err(Error::SpiError(code)), later.len() + 1),
        ),
{
    let result: Result<(), Error> = Err(Error::SpiError(code));
    let events = seq![Event::Failed(code)] + later;
    assert(events[0] == Event::Failed(code));
    assert(events.drop_first() =~= later);
    lemma_idle_stays_idle(result, later);
    assert(seq![StepView::Finished(result)] + finished(result, later.len()) =~= finished(
        result,
        later.len() + 1,
    ));
}

/// With hardware that works and a panel that is idle at every first look,
/// the driver hands out exactly one action for each step of the program, in
/// the program's order, then reports success and is idle.
pub proof fn lemma_ready_panel_runs_program(ops: Seq<OpView>)
    ensures
        run(begin(ops).0, ready_events(ops)).0 == DriverView::Idle(Ok(())),
        seq![begin(ops).1] + run(begin(ops).0, ready_events(ops)).1 == actions(ops) + seq![
            StepView::Finished(Ok(())),
        ],
    decreases ops.len(),
{
    if ops.len() == 0 {
        assert(ready_events(ops) =~= Seq::<Event>::empty());
        assert(seq![begin(ops).1] + run(begin(ops).0, ready_events(ops)).1 =~= actions(ops)
            + seq![StepView::Finished(Ok(()))]);
    } else {
        let rest = ops.drop_first();
        let events = ready_events(ops);
        assert(events[0] == ready_event(ops[0]));
        assert(events.drop_first() =~= ready_events(rest));
        assert(transition(begin(ops).0, events[0]) == begin(rest));
        lemma_ready_panel_runs_program(rest);
        assert(actions(ops) =~= seq![StepView::Perform(ops[0].action())] + actions(rest));
        assert(seq![begin(ops).1] + (seq![begin(rest).1] + run(begin(rest).0, ready_events(rest)).1)
            =~= actions(ops) + seq![StepView::Finished(Ok(()))]);
    }
}

/// A wait ends as soon as the panel is read idle, however long it has lasted:
/// the driver moves on to the steps that follow.
pub proof fn lemma_idle_reading_ends_wait(waited_ms: nat, rest: Seq<OpView>)
    ensures
        transition(DriverView::Sampling { waited_ms, rest }, Event::Sampled(Level::High)) == begin(
            rest,
        ),
{
}

/// While the panel is read busy, the driver looks at the busy line once
/// every [`POLLING_MS`]: after `rounds` rounds the time waited has grown by
/// `rounds` times the interval, as long as that stays under
/// [`MAX_DELAY_MS`].
pub proof fn lemma_busy_panel_is_polled(waited_ms: nat, rest: Seq<OpView>, rounds: nat)
    requires
        waited_ms + rounds * POLLING_MS < MAX_DELAY_MS,
    ensures
        run(DriverView::Sampling { waited_ms, rest }, busy_rounds(rounds)) == (
            DriverView::Sampling { waited_ms: (waited_ms + rounds * POLLING_MS) as nat, rest },
            poll_steps(rounds),
        ),
    decreases rounds,
{
    let state = DriverView::Sampling { waited_ms, rest };
    if rounds > 0 {
        reveal_with_fuel(run, 3);
        let events = busy_rounds(rounds);
        let paused = DriverView::Backoff { waited_ms, rest };
        let polled = DriverView::Sampling { waited_ms: waited_ms + POLLING_MS as nat, rest };
        assert(rounds * POLLING_MS == (rounds - 1) * POLLING_MS + POLLING_MS) by (nonlinear_arith);
        assert(events[0] == Event::Sampled(Level::Low));
        assert(events.drop_first()[0] == Event::Done);
        assert(events.drop_first().drop_first() =~= busy_rounds((rounds - 1) as nat));
        assert(transition(state, events[0]).0 == paused);
        assert(transition(paused, events.drop_first()[0]).0 == polled);
        lemma_busy_panel_is_polled(waited_ms + POLLING_MS as nat, rest, (rounds - 1) as nat);
        assert(run(state, events).1 =~= poll_steps(rounds));
    }
}

/// A wait succeeds as soon as the panel is read idle: after `rounds` busy
/// readings, each followed by one pause of [`POLLING_MS`], the first idle
/// reading takes the driver on to the steps that follow, without a further
/// pause.
pub proof fn lemma_wait_ends_when_idle(rest: Seq<OpView>, rounds: nat)
    requires
        rounds * POLLING_MS < MAX_DELAY_MS,
    ensures
        run(
            DriverView::Sampling { waited_ms: 0, rest },
            busy_rounds(rounds) + seq![Event::Sampled(Level::High)],
        ) == (begin(rest).0, poll_steps(rounds) + seq![begin(rest).1]),
{
    reveal_with_fuel(run, 2);
    let start = DriverView::Sampling { waited_ms: 0, rest };
    let late = DriverView::Sampling { waited_ms: (rounds * POLLING_MS) as nat, rest };
    let idle = seq![Event::Sampled(Level::High)];
    lemma_busy_panel_is_polled(0, rest, rounds);
    lemma_run_concat(start, busy_rounds(rounds), idle);
    assert(idle.drop_first() =~= Seq::<Event>::empty());
    assert(run(late, idle).1 =~= seq![begin(rest).1]);
}

/// The events of a run in which the hardware works and every wait ends in
/// time: in the wait that is step `i` the panel is read busy `rounds[i]`
/// times, then idle.
pub open spec fn patient_events(ops: Seq<OpView>, rounds: Seq<nat>) -> Seq<Event>
    decreases ops.len(),
{
    if ops.len() == 0 {
        Seq::empty()
    } else if ops[0] is WaitIdle {
        busy_rounds(rounds[0]) + seq![Event::Sampled(Level::High)] + patient_events(
            ops.drop_first(),
            rounds.drop_first(),
        )
    } else {
        seq![Event::Done] + patient_events(ops.drop_first(), rounds.drop_first())
    }
}

/// What is done in such a run: each step of the program in order, where a
/// wait is a look at the busy line, then a pause and another look for each
/// busy reading.
pub open spec fn patient_steps(ops: Seq<OpView>, rounds: Seq<nat>) -> Seq<StepView>
    decreases ops.len(),
{
    if ops.len() == 0 {
        Seq::empty()
    } else if ops[0] is WaitIdle {
        seq![StepView::Perform(ActionView::ReadBusy)] + poll_steps(rounds[0]) + patient_steps(
            ops.drop_first(),
            rounds.drop_first(),
        )
    } else {
        seq![StepView::Perform(ops[0].action())] + patient_steps(
            ops.drop_first(),
            rounds.drop_first(),
        )
    }
}

/// Tells whether `rounds` gives, for each wait of the program, a number of
/// busy readings that stays under the bound of the wait.
pub open spec fn in_time(ops: Seq<OpView>, rounds: Seq<nat>) -> bool {
    &&& rounds.len() == ops.len()
    &&& forall|i: int|
        0 <= i < ops.len() && ops[i] is WaitIdle ==> #[trigger] rounds[i] * POLLING_MS
            < MAX_DELAY_MS
}

/// With hardware that works and a panel that gets idle in time in every
/// wait, the driver carries the program out step by step, polls in each wait
/// as often as the panel is busy, then reports success and is idle.
pub proof fn lemma_patient_run_succeeds(ops: Seq<OpView>, rounds: Seq<nat>)
    requires
        in_time(ops, rounds),
    ensures
        run(begin(ops).0, patient_events(ops, rounds)).0 == DriverView::Idle(Ok(())),
        seq![begin(ops).1] + run(begin(ops).0, patient_events(ops, rounds)).1 == patient_steps(
            ops,
            rounds,
        ) + seq![StepView::Finished(Ok(()))],
    decreases ops.len(),
{
    let done = seq![StepView::Finished(Ok(()))];
    if ops.len() == 0 {
        let steps = run(begin(ops).0, patient_events(ops, rounds)).1;
        assert(seq![begin(ops).1] + steps =~= patient_steps(ops, rounds) + done);
    } else {
        let rest = ops.drop_first();
        let fewer = rounds.drop_first();
        let later = patient_events(rest, fewer);
        let after = run(begin(rest).0, later).1;
        assert(in_time(rest, fewer)) by {
            assert forall|i: int|
                0 <= i < rest.len() && rest[i] is WaitIdle implies #[trigger] fewer[i] * POLLING_MS
                < MAX_DELAY_MS by {
                assert(ops[i + 1] is WaitIdle);
                assert(rounds[i + 1] * POLLING_MS < MAX_DELAY_MS);
            }
        }
        lemma_patient_run_succeeds(rest, fewer);
        if ops[0] is WaitIdle {
            let wait = busy_rounds(rounds[0]) + seq![Event::Sampled(Level::High)];
            assert(rounds[0] * POLLING_MS < MAX_DELAY_MS);
            lemma_wait_ends_when_idle(rest, rounds[0]);
            lemma_run_concat(begin(ops).0, wait, later);
            assert(seq![begin(ops).1] + ((poll_steps(rounds[0]) + seq![begin(rest).1]) + after)
                =~= (seq![StepView::Perform(ActionView::ReadBusy)] + poll_steps(rounds[0]))
                + (seq![begin(rest).1] + after));
            assert((seq![StepView::Perform(ActionView::ReadBusy)] + poll_steps(rounds[0]))
                + (patient_steps(rest, fewer) + done) =~= patient_steps(ops, rounds) + done);
        } else {
            let events = patient_events(ops, rounds);
            assert(events[0] == Event::Done);
            assert(events.drop_first() =~= later);
            assert(seq![begin(ops).1] + (seq![begin(rest).1] + after) =~= seq![
                StepView::Perform(ops[0].action()),
            ] + (seq![begin(rest).1] + after));
            assert(seq![StepView::Perform(ops[0].action())] + (patient_steps(rest, fewer) + done)
                =~= patient_steps(ops, rounds) + done);
        }
    }
}

/// A panel that is read busy every time makes the wait give up: after
/// `MAX_DELAY_MS / POLLING_MS` looks at the busy line, each followed by a
/// pause of [`POLLING_MS`], the operation ends with a timeout, and the line
/// is not read again.
pub proof fn lemma_stuck_panel_times_out(rest: Seq<OpView>)
    ensures
        run(
            DriverView::Sampling { waited_ms: 0, rest },
            busy_rounds((MAX_DELAY_MS / POLLING_MS) as nat),
        ) == (
            DriverView::Idle(Err(Error::Timeout)),
            poll_steps((MAX_DELAY_MS / POLLING_MS - 1) as nat) + seq![
                StepView::Perform(ActionView::DelayMs(POLLING_MS)),
                StepView::Finished(Err(Error::Timeout)),
            ],
        ),
{
    reveal_with_fuel(run, 3);
    let rounds = (MAX_DELAY_MS / POLLING_MS - 1) as nat;
    let start = DriverView::Sampling { waited_ms: 0, rest };
    let last_round = seq![Event::Sampled(Level::Low), Event::Done];
    lemma_busy_rounds_split(rounds);
    lemma_busy_panel_is_polled(0, rest, rounds);
    lemma_run_concat(start, busy_rounds(rounds), last_round);
    let late = DriverView::Sampling { waited_ms: (rounds * POLLING_MS) as nat, rest };
    let paused = DriverView::Backoff { waited_ms: (rounds * POLLING_MS) as nat, rest };
    assert(run(start, busy_rounds(rounds)).0 == late);
    assert(last_round.drop_first() =~= seq![Event::Done]);
    assert(last_round.drop_first().drop_first() =~= Seq::<Event>::empty());
    assert(transition(late, last_round[0]) == (
        paused,
        StepView::Perform(ActionView::DelayMs(POLLING_MS)),
    ));
    assert(transition(paused, last_round.drop_first()[0]) == end(Err(Error::Timeout)));
    assert(run(late, last_round).1 =~= seq![
        StepView::Perform(ActionView::DelayMs(POLLING_MS)),
        StepView::Finished(Err(Error::Timeout)),
    ]);
}

/// The state `state` with `more` steps behind those that it still has to
/// do. An idle driver has no steps to do and stays as it is.
pub open spec fn followed_by(state: DriverView, more: Seq<OpView>) -> DriverView {
    match state {
        DriverView::Idle(_) => state,
        DriverView::Output { action, rest } => DriverView::Output { action, rest: rest + more },
        DriverView::Sampling { waited_ms, rest } => DriverView::Sampling {
            waited_ms,
            rest: rest + more,
        },
        DriverView::Backoff { waited_ms, rest } => DriverView::Backoff {
            waited_ms,
            rest: rest + more,
        },
    }
}

/// Tells whether an operation is in progress when each of `events` arrives.
pub open spec fn in_progress_at_each(state: DriverView, events: Seq<Event>) -> bool
    decreases events.len(),
{
    events.len() > 0 ==> {
        &&& !(state is Idle)
        &&& in_progress_at_each(transition(state, events[0]).0, events.drop_first())
    }
}

/// Steps that are added behind a program change nothing until the program
/// is through. On one event the driver does what it would do without them,
/// except that where the program would end in success the first of the
/// added steps begins. Where it ends in an error none of them begins.
pub proof fn lemma_step_followed_by(state: DriverView, more: Seq<OpView>, event: Event)
    requires
        !(state is Idle),
    ensures
        transition(followed_by(state, more), event) == if transition(state, event).0
            == DriverView::Idle(Ok(())) {
            begin(more)
        } else {
            (followed_by(transition(state, event).0, more), transition(state, event).1)
        },
{
    let rest = match state {
        DriverView::Output { rest, .. } => rest,
        DriverView::Sampling { rest, .. } => rest,
        DriverView::Backoff { rest, .. } => rest,
        DriverView::Idle(_) => Seq::empty(),
    };
    if rest.len() == 0 {
        assert(rest + more =~= more);
    } else {
        assert((rest + more)[0] == rest[0]);
        assert((rest + more).drop_first() =~= rest.drop_first() + more);
    }
}

/// A program of two parts runs its first part as that part runs alone. If
/// the first part fails, the second never begins and the run ends as that of
/// the first part alone. If the first part succeeds, the second begins in
/// place of the report of success.
pub proof fn lemma_run_followed_by(state: DriverView, more: Seq<OpView>, events: Seq<Event>)
    requires
        !(state is Idle),
        in_progress_at_each(state, events),
    ensures
        run(followed_by(state, more), events) == if run(state, events).0 == DriverView::Idle(
            Ok(()),
        ) {
            (begin(more).0, run(state, events).1.drop_last().push(begin(more).1))
        } else {
            (followed_by(run(state, events).0, more), run(state, events).1)
        },
    decreases events.len(),
{
    if events.len() > 0 {
        let next = transition(state, events[0]).0;
        let step = transition(state, events[0]).1;
        let later = events.drop_first();
        lemma_step_followed_by(state, more, events[0]);
        if next is Idle {
            reveal_with_fuel(in_progress_at_each, 2);
            assert(later.len() == 0);
            assert(run(next, later).1 =~= Seq::<StepView>::empty());
            assert(run(begin(more).0, later).1 =~= Seq::<StepView>::empty());
            assert(run(state, events).1 =~= seq![step]);
            assert(seq![step].drop_last().push(begin(more).1) =~= seq![begin(more).1]);
            assert(seq![begin(more).1] + Seq::<StepView>::empty() =~= seq![begin(more).1]);
        } else {
            lemma_run_followed_by(next, more, later);
            let alone = run(next, later).1;
            if run(next, later).0 == DriverView::Idle(Ok(())) {
                assert(later.len() > 0);
                lemma_run_len(next, later);
                assert(seq![step] + alone.drop_last().push(begin(more).1) =~= (seq![step]
                    + alone).drop_last().push(begin(more).1));
            }
        }
    }
}

/// The driver hands out one step for each event.
pub proof fn lemma_run_len(state: DriverView, events: Seq<Event>)
    ensures
        run(state, events).1.len() == events.len(),
    decreases events.len(),
{
    if events.len() > 0 {
        lemma_run_len(transition(state, events[0]).0, events.drop_first());
    }
}

/// To begin a program of two parts is to begin its first part, with the
/// second behind it.
pub proof fn lemma_begin_followed_by(first: Seq<OpView>, second: Seq<OpView>)
    requires
        first.len() > 0,
    ensures
        begin(first + second) == (followed_by(begin(first).0, second), begin(first).1),
{
    assert((first + second)[0] == first[0]);
    assert((first + second).drop_first() =~= first.drop_first() + second);
}

/// Busy rounds may be counted from either end.
proof fn lemma_busy_rounds_split(rounds: nat)
    ensures
        busy_rounds(rounds + 1) == busy_rounds(rounds) + seq![
            Event::Sampled(Level::Low),
            Event::Done,
        ],
    decreases rounds,
{
    let round = seq![Event::Sampled(Level::Low), Event::Done];
    if rounds == 0 {
        assert(busy_rounds(1) =~= round + busy_rounds(0));
        assert(busy_rounds(1) =~= busy_rounds(0) + round);
    } else {
        lemma_busy_rounds_split((rounds - 1) as nat);
        assert(busy_rounds(rounds + 1) =~= round + busy_rounds(rounds));
        assert(round + (busy_rounds((rounds - 1) as nat) + round) =~= (round + busy_rounds(
            (rounds - 1) as nat,
        )) + round);
    }
}

} // verus!
