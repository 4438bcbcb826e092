//! How a period of audio is cut up around the commands that are due in it.

use std::collections::VecDeque;

use vstd::prelude::*;

use crate::trigger::Trigger;

verus! {

/// A step in the processing of a period.
#[derive(Debug, PartialEq, Eq)]
pub enum Step {
    /// Let the loopers play and record the frames from `start` up to `end` of
    /// the period; `time` is the time of the first of them.
    Io { time: i64, start: usize, end: usize },
    /// Carry out a command whose moment has come.
    Run(Trigger),
}

/// Whether a trigger's time has passed. Time 0 means without waiting, and is
/// never late.
pub open spec fn late(t: Trigger, now: int) -> bool {
    t.triggered_at.0 != 0 && t.triggered_at.0 < now
}

/// The loopers' turn from one time to another, in a period that begins at
/// `origin`.
pub open spec fn io(origin: int, from: int, to: int) -> Step {
    Step::Io { time: from as i64, start: (from - origin) as usize, end: (to - origin) as usize }
}

/// The steps from `now` to `end`, in a period that begins at `origin`. Triggers
/// are taken from the front of the queue as long as they are due before the end.
/// One that is late is dropped. The loopers are brought up to the time of each
/// other one before it runs.
pub open spec fn steps(triggers: Seq<Trigger>, origin: int, now: int, end: int) -> Seq<Step>
    decreases triggers.len(),
{
    if now >= end {
        Seq::empty()
    } else if triggers.len() > 0 && triggers[0].triggered_at.0 < end {
        let t = triggers[0];
        let rest = triggers.drop_first();
        if late(t, now) {
            steps(rest, origin, now, end)
        } else if t.triggered_at.0 > now {
            seq![io(origin, now, t.triggered_at.0 as int), Step::Run(t)] + steps(
                rest,
                origin,
                t.triggered_at.0 as int,
                end,
            )
        } else {
            seq![Step::Run(t)] + steps(rest, origin, now, end)
        }
    } else {
        seq![io(origin, now, end)]
    }
}

/// The triggers that are still waiting after those steps.
pub open spec fn left_over(triggers: Seq<Trigger>, now: int, end: int) -> Seq<Trigger>
    decreases triggers.len(),
{
    if now >= end {
        triggers
    } else if triggers.len() > 0 && triggers[0].triggered_at.0 < end {
        let t = triggers[0];
        let rest = triggers.drop_first();
        if late(t, now) || t.triggered_at.0 <= now {
            left_over(rest, now, end)
        } else {
            left_over(rest, t.triggered_at.0 as int, end)
        }
    } else {
        triggers
    }
}

/// When the loopers begin in a period: not before time 0.
pub open spec fn first_frame(origin: int) -> int {
    if origin < 0 {
        0
    } else {
        origin
    }
}

/// The steps of a period.
pub open spec fn period_steps(triggers: Seq<Trigger>, origin: int, frames: int) -> Seq<Step> {
    steps(triggers, origin, first_frame(origin), origin + frames)
}

/// The triggers that are still waiting after a period.
pub open spec fn period_left_over(triggers: Seq<Trigger>, origin: int, frames: int) -> Seq<
    Trigger,
> {
    left_over(triggers, first_frame(origin), origin + frames)
}

/// Cuts up a period of `frames` frames that begins at `origin`, and takes the
/// triggers that are due in it out of the queue.
pub fn plan_period(triggers: &mut VecDeque<Trigger>, origin: i64, frames: u64) -> (r: Vec<Step>)
    requires
        frames <= i64::MAX,
        frames <= usize::MAX,
        origin + frames <= i64::MAX,
    ensures
        r@ == period_steps(old(triggers)@, origin as int, frames as int),
        final(triggers)@ == period_left_over(old(triggers)@, origin as int, frames as int),
{
    let ghost all_steps = period_steps(triggers@, origin as int, frames as int);
    let ghost all_left = period_left_over(triggers@, origin as int, frames as int);
    let mut r: Vec<Step> = Vec::new();
    let end: i64 = origin + frames as i64;
    let mut now: i64 = if origin < 0 {
        0
    } else {
        origin
    };
    assert(r@ + all_steps =~= all_steps);
    while now < end
        invariant
            end == origin + frames,
            frames <= i64::MAX,
            frames <= usize::MAX,
            origin <= now,
            r@ + steps(triggers@, origin as int, now as int, end as int) == all_steps,
            left_over(triggers@, now as int, end as int) == all_left,
        decreases triggers@.len(), end - now,
    {
        let ghost queue = triggers@;
        let ghost done = r@;
        let due = if triggers.len() > 0 {
            triggers[0].triggered_at.0 < end
        } else {
            false
        };
        let taken = if due {
            triggers.pop_front()
        } else {
            None
        };
        match taken {
            Some(t) => {
                proof {
                    assert(triggers@ =~= queue.drop_first());
                }
                let at: i64 = t.triggered_at.0;
                if at != 0 && at < now {
                    continue;
                }
                if at > now {
                    r.push(
                        Step::Io {
                            time: now,
                            start: (now - origin) as usize,
                            end: (at - origin) as usize,
                        },
                    );
                    now = at;
                }
                r.push(Step::Run(t));
                proof {
                    assert(r@ + steps(triggers@, origin as int, now as int, end as int) =~= all_steps);
                }
            },
            None => {
                r.push(
                    Step::Io { time: now, start: (now - origin) as usize, end: frames as usize },
                );
                proof {
                    assert(steps(queue, origin as int, now as int, end as int) =~= seq![
                        io(origin as int, now as int, end as int),
                    ]);
                    assert(r@ =~= all_steps);
                    assert(r@ + Seq::<Step>::empty() =~= r@);
                }
                now = end;
            },
        }
    }
    assert(r@ + Seq::<Step>::empty() =~= r@);
    r
}

/// Whether the loopers' turns in some steps cover the frames from `from` up to
/// `to` of a period without a gap and without an overlap, in order, each at its
/// proper time.
pub open spec fn covers(plan: Seq<Step>, origin: int, from: int, to: int) -> bool
    decreases plan.len(),
{
    if plan.len() == 0 {
        from == to
    } else {
        match plan[0] {
            Step::Io { time, start, end } => {
                &&& time == origin + from
                &&& start == from
                &&& start < end
                &&& covers(plan.drop_first(), origin, end as int, to)
            },
            Step::Run(_) => covers(plan.drop_first(), origin, from, to),
        }
    }
}

/// Whether every command in some steps runs at its own time, with the loopers
/// brought up to just that time, or without waiting.
pub open spec fn on_time(plan: Seq<Step>, now: int) -> bool
    decreases plan.len(),
{
    if plan.len() == 0 {
        true
    } else {
        match plan[0] {
            Step::Io { time, start, end } => {
                &&& time == now
                &&& on_time(plan.drop_first(), now + (end - start))
            },
            Step::Run(t) => {
                &&& t.triggered_at.0 == 0 || t.triggered_at.0 == now
                &&& on_time(plan.drop_first(), now)
            },
        }
    }
}

/// The triggers that run in some steps, in order.
pub open spec fn runs(plan: Seq<Step>) -> Seq<Trigger>
    decreases plan.len(),
{
    if plan.len() == 0 {
        Seq::empty()
    } else {
        match plan[0] {
            Step::Io { .. } => runs(plan.drop_first()),
            Step::Run(t) => seq![t] + runs(plan.drop_first()),
        }
    }
}

/// In a turn of the loopers, nothing runs.
proof fn lemma_turn_runs_nothing(turn: Step)
    requires
        turn is Io,
    ensures
        runs(seq![turn]) == Seq::<Trigger>::empty(),
{
    let rest = seq![turn].drop_first();
    assert(rest =~= Seq::<Step>::empty());
    assert(runs(rest) == Seq::<Trigger>::empty());
}

/// A command runs before those after it, also behind a turn of the loopers.
proof fn lemma_command_runs_first(turn: Step, t: Trigger, more: Seq<Step>)
    requires
        turn is Io,
    ensures
        runs(seq![Step::Run(t)] + more) == seq![t] + runs(more),
        runs(seq![turn, Step::Run(t)] + more) == seq![t] + runs(more),
{
    let one = seq![Step::Run(t)] + more;
    let two = seq![turn, Step::Run(t)] + more;
    assert(one[0] == Step::Run(t));
    assert(one.drop_first() =~= more);
    assert(two[0] == turn);
    assert(two.drop_first() =~= one);
    assert(runs(one) == seq![t] + runs(more));
    assert(runs(two) == runs(one));
}

/// The steps from `now` to `end` cover exactly the frames between them, and
/// every command among them runs on time.
proof fn lemma_steps(triggers: Seq<Trigger>, origin: int, now: int, end: int)
    requires
        origin <= now <= end,
        i64::MIN <= origin,
        end <= i64::MAX,
        end - origin <= usize::MAX,
        0 <= now,
    ensures
        covers(steps(triggers, origin, now, end), origin, now - origin, end - origin),
        on_time(steps(triggers, origin, now, end), now),
    decreases triggers.len(),
{
    let plan = steps(triggers, origin, now, end);
    reveal_with_fuel(covers, 3);
    reveal_with_fuel(on_time, 3);
    if now < end {
        if triggers.len() > 0 && triggers[0].triggered_at.0 < end {
            let t = triggers[0];
            let rest = triggers.drop_first();
            if late(t, now) {
                lemma_steps(rest, origin, now, end);
            } else if t.triggered_at.0 > now {
                let at = t.triggered_at.0 as int;
                lemma_steps(rest, origin, at, end);
                assert(plan.drop_first() =~= seq![Step::Run(t)] + steps(rest, origin, at, end));
                assert(plan.drop_first().drop_first() =~= steps(rest, origin, at, end));
            } else {
                lemma_steps(rest, origin, now, end);
                assert(plan.drop_first() =~= steps(rest, origin, now, end));
            }
        } else {
            assert(plan.drop_first() =~= Seq::<Step>::empty());
        }
    }
}

/// However the triggers stand, the loopers get every frame of a period once, in
/// order and at its proper time; only what lies before time 0 is left out.
pub proof fn law_period_covered(triggers: Seq<Trigger>, origin: int, frames: int)
    requires
        i64::MIN <= origin,
        0 <= frames <= usize::MAX,
        origin + frames <= i64::MAX,
    ensures
        origin + frames >= 0 ==> covers(
            period_steps(triggers, origin, frames),
            origin,
            first_frame(origin) - origin,
            frames,
        ),
        origin + frames < 0 ==> period_steps(triggers, origin, frames).len() == 0,
{
    if origin + frames >= 0 {
        lemma_steps(triggers, origin, first_frame(origin), origin + frames);
    }
}

/// Every command that runs in a period runs at the time of its trigger, or
/// without waiting where the trigger has time 0.
pub proof fn law_commands_on_time(triggers: Seq<Trigger>, origin: int, frames: int)
    requires
        i64::MIN <= origin,
        0 <= frames <= usize::MAX,
        origin + frames <= i64::MAX,
    ensures
        on_time(period_steps(triggers, origin, frames), first_frame(origin)),
{
    if origin + frames >= 0 {
        lemma_steps(triggers, origin, first_frame(origin), origin + frames);
    }
}

/// The same in plain numbers: the loopers begin at the time of the period, or at
/// time 0.
pub proof fn lemma_period_on_time(triggers: Seq<Trigger>, origin: int, frames: int)
    requires
        i64::MIN <= origin,
        0 <= frames <= usize::MAX,
        origin + frames <= i64::MAX,
    ensures
        on_time(
            period_steps(triggers, origin, frames),
            if origin > 0 {
                origin
            } else {
                0
            },
        ),
{
    law_commands_on_time(triggers, origin, frames);
}

/// How many triggers of a queue, from its front, are due before `end`.
pub open spec fn due_count(triggers: Seq<Trigger>, end: int) -> int
    decreases triggers.len(),
{
    if triggers.len() > 0 && triggers[0].triggered_at.0 < end {
        1 + due_count(triggers.drop_first(), end)
    } else {
        0
    }
}

/// A queue whose times do not go back, and of which nothing is late at `now`.
pub open spec fn in_time_order(triggers: Seq<Trigger>, now: int) -> bool {
    &&& forall|i: int| 0 <= i < triggers.len() ==> (#[trigger] triggers[i]).triggered_at.0 >= now
    &&& forall|i: int, j: int|
        0 <= i < j < triggers.len() ==> (#[trigger] triggers[i]).triggered_at.0 <= (
        #[trigger] triggers[j]).triggered_at.0
}

/// Behind its first trigger, a queue in time order is in time order.
proof fn lemma_rest_in_order(triggers: Seq<Trigger>, now: int)
    requires
        in_time_order(triggers, now),
        triggers.len() > 0,
    ensures
        in_time_order(triggers.drop_first(), triggers[0].triggered_at.0 as int),
{
    let rest = triggers.drop_first();
    assert forall|i: int| 0 <= i < rest.len() implies (#[trigger] rest[i]).triggered_at.0
        >= triggers[0].triggered_at.0 by {
        assert(rest[i] == triggers[i + 1]);
    }
}

/// In a queue in time order, those that are due stand before those that are not.
proof fn lemma_due_first(triggers: Seq<Trigger>, now: int, end: int)
    requires
        in_time_order(triggers, now),
    ensures
        0 <= due_count(triggers, end) <= triggers.len(),
        forall|i: int|
            0 <= i < triggers.len() ==> ((#[trigger] triggers[i]).triggered_at.0 < end <==> i
                < due_count(triggers, end)),
    decreases triggers.len(),
{
    if triggers.len() > 0 && triggers[0].triggered_at.0 < end {
        let rest = triggers.drop_first();
        lemma_rest_in_order(triggers, now);
        lemma_due_first(rest, triggers[0].triggered_at.0 as int, end);
        assert forall|i: int| 0 <= i < triggers.len() implies ((
        #[trigger] triggers[i]).triggered_at.0 < end <==> i < due_count(triggers, end)) by {
            if i > 0 {
                assert(rest[i - 1] == triggers[i]);
            }
        }
    }
}

/// From a queue in time order, those that are due all run, in order.
proof fn lemma_due_run(triggers: Seq<Trigger>, origin: int, now: int, end: int)
    requires
        in_time_order(triggers, now),
        0 <= now < end,
    ensures
        runs(steps(triggers, origin, now, end)) == triggers.take(due_count(triggers, end)),
    decreases triggers.len(),
{
    let n = due_count(triggers, end);
    lemma_due_first(triggers, now, end);
    if n > 0 {
        let t = triggers[0];
        let at = t.triggered_at.0 as int;
        let rest = triggers.drop_first();
        lemma_rest_in_order(triggers, now);
        lemma_due_run(rest, origin, at, end);
        lemma_command_runs_first(io(origin, now, at), t, steps(rest, origin, at, end));
        assert(triggers.take(n) =~= seq![t] + rest.take(n - 1));
    } else {
        lemma_turn_runs_nothing(io(origin, now, end));
        assert(triggers.take(0) =~= Seq::<Trigger>::empty());
    }
}

/// From a queue in time order, exactly those that are not due stay.
proof fn lemma_others_stay(triggers: Seq<Trigger>, now: int, end: int)
    requires
        in_time_order(triggers, now),
        0 <= now < end,
    ensures
        left_over(triggers, now, end) == triggers.skip(due_count(triggers, end)),
    decreases triggers.len(),
{
    let n = due_count(triggers, end);
    lemma_due_first(triggers, now, end);
    if n > 0 {
        lemma_rest_in_order(triggers, now);
        lemma_others_stay(triggers.drop_first(), triggers[0].triggered_at.0 as int, end);
        assert(triggers.drop_first().skip(n - 1) =~= triggers.skip(n));
    } else {
        assert(triggers.skip(0) =~= triggers);
    }
}

/// Where the queue is in time order and nothing in it is late, no command is
/// missed: those due before the end of the period all run, in order, and exactly
/// the others stay.
pub proof fn law_no_command_missed(triggers: Seq<Trigger>, origin: int, frames: int)
    requires
        in_time_order(triggers, first_frame(origin)),
        first_frame(origin) < origin + frames,
    ensures
        0 <= due_count(triggers, origin + frames) <= triggers.len(),
        runs(period_steps(triggers, origin, frames)) == triggers.take(
            due_count(triggers, origin + frames),
        ),
        period_left_over(triggers, origin, frames) == triggers.skip(
            due_count(triggers, origin + frames),
        ),
        forall|i: int|
            0 <= i < triggers.len() ==> ((#[trigger] triggers[i]).triggered_at.0 < origin + frames
                <==> i < due_count(triggers, origin + frames)),
{
    lemma_due_first(triggers, first_frame(origin), origin + frames);
    lemma_due_run(triggers, origin, first_frame(origin), origin + frames);
    lemma_others_stay(triggers, first_frame(origin), origin + frames);
}

/// Whether every turn of the loopers in some steps, but the last, ends just where
/// a command is to run, and the last step is a turn.
pub open spec fn turns_end_at_commands(plan: Seq<Step>) -> bool {
    &&& plan.len() > 0 ==> plan.last() is Io
    &&& forall|k: int|
        0 <= k < plan.len() - 1 && (#[trigger] plan[k]) is Io ==> {
            &&& plan[k + 1] is Run
            &&& plan[k + 1]->Run_0.triggered_at.0 == plan[k]->time + (plan[k]->end
                - plan[k]->start)
        }
}

/// The loopers only stop playing for a command that is to run at that very time,
/// and for the end of the period. So a command that does not wait runs before
/// they play on.
pub proof fn law_turns_end_at_commands(triggers: Seq<Trigger>, origin: int, now: int, end: int)
    requires
        origin <= now,
        0 <= now,
        i64::MIN <= origin,
        end <= i64::MAX,
        end - origin <= usize::MAX,
    ensures
        turns_end_at_commands(steps(triggers, origin, now, end)),
        now < end ==> steps(triggers, origin, now, end).len() > 0,
    decreases triggers.len(),
{
    let plan = steps(triggers, origin, now, end);
    if now < end && triggers.len() > 0 && triggers[0].triggered_at.0 < end {
        let t = triggers[0];
        let at = t.triggered_at.0 as int;
        let rest = triggers.drop_first();
        let then = if !late(t, now) && at > now {
            at
        } else {
            now
        };
        let more = steps(rest, origin, then, end);
        law_turns_end_at_commands(rest, origin, then, end);
        if !late(t, now) {
            let n = plan.len() - more.len();
            assert(forall|k: int| n <= k < plan.len() ==> plan[k] == more[k - n]);
            assert(plan.last() == more.last());
            assert forall|k: int| 0 <= k < plan.len() - 1 && (#[trigger] plan[k]) is Io implies {
                &&& plan[k + 1] is Run
                &&& plan[k + 1]->Run_0.triggered_at.0 == plan[k]->time + (plan[k]->end
                    - plan[k]->start)
            } by {
                if k >= n {
                    assert(more[k - n] is Io);
                    assert(plan[k + 1] == more[k - n + 1]);
                }
            }
        }
    }
}

/// Triggers leave the queue from its front, exactly as far as they are due before
/// the end; where there is no time to spend, none leaves.
pub proof fn law_due_commands_leave(triggers: Seq<Trigger>, now: int, end: int)
    ensures
        ({
            let left = left_over(triggers, now, end);
            let n = triggers.len() - left.len();
            &&& 0 <= n
            &&& left == triggers.skip(n)
            &&& now >= end ==> n == 0
            &&& forall|i: int| 0 <= i < n ==> (#[trigger] triggers[i]).triggered_at.0 < end
            &&& now < end && left.len() > 0 ==> left[0].triggered_at.0 >= end
        }),
    decreases triggers.len(),
{
    let left = left_over(triggers, now, end);
    let n = triggers.len() - left.len();
    if now < end && triggers.len() > 0 && triggers[0].triggered_at.0 < end {
        let t = triggers[0];
        let rest = triggers.drop_first();
        let then = if late(t, now) || t.triggered_at.0 <= now {
            now
        } else {
            t.triggered_at.0 as int
        };
        law_due_commands_leave(rest, then, end);
        assert(rest.skip(n - 1) =~= triggers.skip(n));
        assert forall|i: int| 0 <= i < n implies (#[trigger] triggers[i]).triggered_at.0 < end by {
            if i > 0 {
                assert(rest[i - 1] == triggers[i]);
            }
        }
    } else {
        assert(triggers.skip(0) =~= triggers);
    }
}

/// Whether some triggers stand at some places in a queue, in order, and none of
/// them among its last.
pub open spec fn stand_in(
    some: Seq<Trigger>,
    queue: Seq<Trigger>,
    places: Seq<int>,
    last: nat,
) -> bool {
    &&& places.len() == some.len()
    &&& forall|i: int|
        0 <= i < places.len() ==> 0 <= #[trigger] places[i] < queue.len() - last
            && queue[places[i]] == some[i]
    &&& forall|i: int, j: int| 0 <= i < j < places.len() ==> places[i] < places[j]
}

/// Only commands that leave the queue run, in the order of the queue, and each of
/// them once.
pub proof fn law_commands_run_in_order(triggers: Seq<Trigger>, origin: int, now: int, end: int)
    ensures
        exists|places: Seq<int>|
            stand_in(
                runs(steps(triggers, origin, now, end)),
                triggers,
                places,
                left_over(triggers, now, end).len(),
            ),
    decreases triggers.len(),
{
    let plan = steps(triggers, origin, now, end);
    let n = triggers.len() - left_over(triggers, now, end).len();
    law_due_commands_leave(triggers, now, end);
    if now < end && triggers.len() > 0 && triggers[0].triggered_at.0 < end {
        let t = triggers[0];
        let at = t.triggered_at.0 as int;
        let rest = triggers.drop_first();
        let then = if !late(t, now) && at > now {
            at
        } else {
            now
        };
        let more = steps(rest, origin, then, end);
        law_commands_run_in_order(rest, origin, then, end);
        lemma_command_runs_first(io(origin, now, at), t, more);
        let last = left_over(triggers, now, end).len();
        let before = choose|places: Seq<int>| stand_in(runs(more), rest, places, last);
        let moved = before.map_values(|p: int| p + 1);
        let places = if late(t, now) {
            moved
        } else {
            seq![0int] + moved
        };
        let shift = if late(t, now) {
            0int
        } else {
            1int
        };
        assert forall|i: int| 0 <= i < places.len() implies 0 <= #[trigger] places[i] < n
            && triggers[places[i]] == runs(plan)[i] by {
            if i >= shift {
                assert(places[i] == before[i - shift] + 1);
                assert(rest[before[i - shift]] == runs(more)[i - shift]);
            }
        }
        assert forall|i: int, j: int| 0 <= i < j < places.len() implies places[i] < places[j] by {
            if i >= shift {
                assert(before[i - shift] < before[j - shift]);
            } else {
                assert(places[j] == before[j - shift] + 1);
                assert(0 <= before[j - shift]);
            }
        }
        assert(stand_in(runs(plan), triggers, places, last));
    } else {
        if now < end {
            lemma_turn_runs_nothing(io(origin, now, end));
        }
        assert(runs(plan) =~= Seq::<Trigger>::empty());
        assert(stand_in(runs(plan), triggers, Seq::empty(), left_over(triggers, now, end).len()));
    }
}

/// Whether a trigger is behind `now` or behind one that was queued before it.
pub open spec fn overtaken(triggers: Seq<Trigger>, i: int, now: int) -> bool {
    &&& triggers[i].triggered_at.0 != 0
    &&& triggers[i].triggered_at.0 < now || exists|j: int|
        0 <= j < i && triggers[i].triggered_at.0 < (#[trigger] triggers[j]).triggered_at.0
}

/// Triggers leave the queue from its front, and each of them runs, unless it is
/// behind the beginning of the period or behind one that was queued before it.
pub proof fn law_only_overtaken_commands_are_dropped(
    triggers: Seq<Trigger>,
    origin: int,
    now: int,
    end: int,
)
    ensures
        left_over(triggers, now, end).len() <= triggers.len(),
        left_over(triggers, now, end) == triggers.skip(
            triggers.len() - left_over(triggers, now, end).len(),
        ),
        forall|i: int|
            0 <= i < triggers.len() - left_over(triggers, now, end).len() ==> runs(
                steps(triggers, origin, now, end),
            ).contains(#[trigger] triggers[i]) || overtaken(triggers, i, now),
    decreases triggers.len(),
{
    let left = left_over(triggers, now, end);
    let k = triggers.len() - left.len();
    if now < end && triggers.len() > 0 && triggers[0].triggered_at.0 < end {
        let t = triggers[0];
        let at = t.triggered_at.0 as int;
        let rest = triggers.drop_first();
        let then = if !late(t, now) && at > now {
            at
        } else {
            now
        };
        law_only_overtaken_commands_are_dropped(rest, origin, then, end);
        let plan = steps(triggers, origin, now, end);
        let more = steps(rest, origin, then, end);
        lemma_command_runs_first(io(origin, now, at), t, more);
        if late(t, now) {
            assert(plan == more);
        } else {
            assert(runs(plan) == seq![t] + runs(more));
        }
        assert(left == rest.skip(k - 1));
        assert(rest.skip(k - 1) =~= triggers.skip(k));
        assert forall|i: int| 0 <= i < k implies runs(plan).contains(#[trigger] triggers[i])
            || overtaken(triggers, i, now) by {
            if i == 0 {
                if !late(t, now) {
                    assert(runs(plan)[0] == t);
                }
            } else {
                assert(rest[i - 1] == triggers[i]);
                if runs(more).contains(rest[i - 1]) {
                    let j = runs(more).index_of(rest[i - 1]);
                    if late(t, now) {
                        assert(runs(plan)[j] == triggers[i]);
                    } else {
                        assert(runs(plan)[j + 1] == triggers[i]);
                    }
                } else {
                    assert(overtaken(rest, i - 1, then));
                    if triggers[i].triggered_at.0 >= now && triggers[i].triggered_at.0 >= at {
                        let j = choose|j: int|
                            0 <= j < i - 1 && rest[i - 1].triggered_at.0 < (
                            #[trigger] rest[j]).triggered_at.0;
                        assert(triggers[j + 1] == rest[j]);
                    }
                }
            }
        }
    } else {
        assert(triggers.skip(0) =~= triggers);
    }
}

} // verus!
