//! Proportional share: two units that contend for the processor without
//! end are dispatched in proportion to their priorities.
use crate::config::MIN_PRIORITY;
use crate::task::control_block::TaskControlBlock;
use crate::task::manager::queue_strides;
use crate::task::stride::{advanced, distance, lemma_pass_bounded, pass_of, pick, stride_before};
use vstd::prelude::*;

verus! {

/// Two units, 0 and 1, that are always ready: who stands at the head of
/// the ready queue, their strides, and how often each was dispatched.
pub struct Race {
    /// The unit at the head of the ready queue: 0 or 1.
    pub front: int,
    /// The stride of unit 0.
    pub stride0: u64,
    /// The stride of unit 1.
    pub stride1: u64,
    /// How often unit 0 was dispatched.
    pub count0: nat,
    /// How often unit 1 was dispatched.
    pub count1: nat,
}

/// The strides of the two units in queue order.
pub open spec fn queued_strides(race: Race) -> Seq<u64> {
    if race.front == 0 {
        seq![race.stride0, race.stride1]
    } else {
        seq![race.stride1, race.stride0]
    }
}

/// The unit that the next fetch takes out of the queue.
pub open spec fn next_unit(race: Race) -> int {
    if pick(queued_strides(race)) == 0 {
        race.front
    } else {
        1 - race.front
    }
}

/// One round: the ready queue's fetch takes the unit that is due first and
/// advances its stride, the unit runs, yields, and is added to the back of
/// the queue, so that the other unit stands at the head.
pub open spec fn race_round(race: Race, priority0: u64, priority1: u64) -> Race {
    if next_unit(race) == 0 {
        Race {
            front: 1,
            stride0: advanced(race.stride0, priority0),
            count0: race.count0 + 1,
            ..race
        }
    } else {
        Race {
            front: 0,
            stride1: advanced(race.stride1, priority1),
            count1: race.count1 + 1,
            ..race
        }
    }
}

/// The state after `rounds` rounds, where both units start with the stride
/// `start` and unit 0 at the head of the queue.
pub open spec fn race_after(start: u64, priority0: u64, priority1: u64, rounds: nat) -> Race
    decreases rounds,
{
    if rounds == 0 {
        Race { front: 0, stride0: start, stride1: start, count0: 0, count1: 0 }
    } else {
        race_round(race_after(start, priority0, priority1, (rounds - 1) as nat), priority0, priority1)
    }
}

/// A round of the race is what the ready queue does with two units: where
/// the queue holds units 0 and 1 of `tasks` as the race has them, `fetch`
/// takes the unit that the race dispatches and advances its stride as the
/// race does, and after `add` of that unit the queue stands as in the race.
pub proof fn lemma_round_is_fetch_and_add(
    queue: Seq<usize>,
    tasks: Seq<TaskControlBlock>,
    race: Race,
)
    requires
        tasks.len() >= 2,
        race.front == 0 || race.front == 1,
        queue == seq![race.front as usize, (1 - race.front) as usize],
        race.stride0 == tasks[0].stride,
        race.stride1 == tasks[1].stride,
    ensures
        ({
            let at = pick(queue_strides(queue, tasks));
            let unit = queue[at];
            let next = race_round(race, tasks[0].priority, tasks[1].priority);
            &&& 0 <= at < 2
            &&& unit == next_unit(race)
            &&& queue.remove(at).push(unit) == seq![next.front as usize, (1 - next.front) as usize]
            &&& next.stride0 == (if unit == 0 {
                advanced(tasks[0].stride, tasks[0].priority)
            } else {
                tasks[0].stride
            })
            &&& next.stride1 == (if unit == 1 {
                advanced(tasks[1].stride, tasks[1].priority)
            } else {
                tasks[1].stride
            })
        }),
{
    let strides = queue_strides(queue, tasks);
    assert(strides =~= queued_strides(race));
    assert(strides.drop_last().len() == 1);
    assert(pick(strides.drop_last()) == 0);
    let at = pick(strides);
    let unit = queue[at];
    let next = race_round(race, tasks[0].priority, tasks[1].priority);
    assert(queue.remove(at).push(unit) =~= seq![next.front as usize, (1 - next.front) as usize]);
}

/// How far unit 1 is ahead of unit 0 in stride that was ever added, and how
/// the wrapped strides show it: the unit that is behind lies behind on the
/// circle by just that amount.
pub open spec fn gap_shown(race: Race, gap: int) -> bool {
    &&& gap >= 0 ==> distance(race.stride0, race.stride1) == gap
    &&& gap <= 0 ==> distance(race.stride1, race.stride0) == -gap
}

/// One round keeps the gap between the two units within one pass of each,
/// and adds the dispatched unit's pass to its side.
proof fn lemma_race_round(race: Race, priority0: u64, priority1: u64, gap: int)
    requires
        priority0 >= MIN_PRIORITY,
        priority1 >= MIN_PRIORITY,
        race.front == 0 || race.front == 1,
        -pass_of(priority0) <= gap <= pass_of(priority1),
        gap_shown(race, gap),
    ensures
        next_unit(race) == 0 || next_unit(race) == 1,
        next_unit(race) == 0 ==> gap >= 0 && gap_shown(
            race_round(race, priority0, priority1),
            gap - pass_of(priority0),
        ),
        next_unit(race) == 1 ==> gap <= 0 && gap_shown(
            race_round(race, priority0, priority1),
            gap + pass_of(priority1),
        ),
{
    lemma_pass_bounded(priority0);
    lemma_pass_bounded(priority1);
    let strides = queued_strides(race);
    assert(strides.drop_last().len() == 1);
    assert(pick(strides.drop_last()) == 0);
    assert(pick(strides) == (if stride_before(strides[1], strides[0]) {
        1int
    } else {
        0int
    }));
    assert(distance(race.stride0, advanced(race.stride0, priority0)) == pass_of(priority0));
    assert(distance(race.stride1, advanced(race.stride1, priority1)) == pass_of(priority1));
}

/// Stride fairness. After any number of rounds between two units of
/// priorities `priority0` and `priority1`, the dispatches of each, weighted
/// with its pass, differ by no more than one pass: unit 0 is ahead by at
/// most its own pass and behind by at most the pass of unit 1. The
/// dispatch counts therefore stand as `priority0` to `priority1`, up to
/// one dispatch and the rounding of the passes, however long the race
/// goes on and however often the strides wrap.
pub proof fn lemma_stride_fairness(start: u64, priority0: u64, priority1: u64, rounds: nat)
    requires
        priority0 >= MIN_PRIORITY,
        priority1 >= MIN_PRIORITY,
    ensures
        ({
            let race = race_after(start, priority0, priority1, rounds);
            &&& race.count0 + race.count1 == rounds
            &&& race.count0 * pass_of(priority0) - race.count1 * pass_of(priority1) <= pass_of(
                priority0,
            )
            &&& race.count1 * pass_of(priority1) - race.count0 * pass_of(priority0) <= pass_of(
                priority1,
            )
        }),
{
    lemma_race_invariant(start, priority0, priority1, rounds);
}

/// The invariant of the race: the gap between the weighted counts stays
/// within one pass of each unit and is shown by the wrapped strides.
proof fn lemma_race_invariant(start: u64, priority0: u64, priority1: u64, rounds: nat)
    requires
        priority0 >= MIN_PRIORITY,
        priority1 >= MIN_PRIORITY,
    ensures
        ({
            let race = race_after(start, priority0, priority1, rounds);
            let gap = race.count1 * pass_of(priority1) - race.count0 * pass_of(priority0);
            &&& race.front == 0 || race.front == 1
            &&& race.count0 + race.count1 == rounds
            &&& -pass_of(priority0) <= gap <= pass_of(priority1)
            &&& gap_shown(race, gap)
        }),
    decreases rounds,
{
    let pass0 = pass_of(priority0) as int;
    let pass1 = pass_of(priority1) as int;
    if rounds > 0 {
        let before = race_after(start, priority0, priority1, (rounds - 1) as nat);
        let gap = before.count1 * pass1 - before.count0 * pass0;
        lemma_race_invariant(start, priority0, priority1, (rounds - 1) as nat);
        lemma_race_round(before, priority0, priority1, gap);
        assert((before.count0 + 1) * pass0 == before.count0 * pass0 + pass0) by (nonlinear_arith);
        assert((before.count1 + 1) * pass1 == before.count1 * pass1 + pass1) by (nonlinear_arith);
    }
}

} // verus!
