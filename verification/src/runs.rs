//! Whole runs: what a sequence of ticks makes of an engine, and what holds
//! of every run under each policy.

use crate::capture::{step, EngineModel, LoopState, StopReason, TerminationPolicy};
use crate::sensors::{cpu_reading, lemma_cpu_reading, Reading};
use crate::session::{
    feed, lemma_feed_conserves, record_line, record_lines, recorded_line, trailer_lines,
};
use crate::text::starts_with;
use vstd::prelude::*;

verus! {

/// What one poll of the sensors gave: the snapshot, and the seconds since
/// the run began.
pub struct Poll {
    pub snapshot: Seq<Reading>,
    pub elapsed_secs: u64,
}

/// Where a run stands after some ticks: the engine, every line written so
/// far, and how many times the log was closed.
pub struct Run {
    pub engine: EngineModel,
    pub log: Seq<Seq<char>>,
    pub closings: nat,
}

/// The run that the ticks on `polls` make, one after the other, of the
/// engine `start`. The log is closed in the tick that ends the run.
pub open spec fn run(start: EngineModel, polls: Seq<Poll>) -> Run
    decreases polls.len(),
{
    if polls.len() == 0 {
        Run { engine: start, log: Seq::empty(), closings: 0 }
    } else {
        let before = run(start, polls.drop_last());
        let last = step(before.engine, polls.last().snapshot, polls.last().elapsed_secs);
        Run {
            engine: last.engine,
            log: before.log + last.written,
            closings: if before.engine.state is Running && last.engine.state is Terminated {
                before.closings + 1
            } else {
                before.closings
            },
        }
    }
}

/// The lines that the snapshot of a poll adds to a log, as a function of
/// the poll.
pub open spec fn poll_lines(record_unknown: bool) -> spec_fn(Poll) -> Seq<Seq<char>> {
    |p: Poll| record_lines(p.snapshot, record_unknown)
}

/// The data lines of a sequence of polls: those of the first snapshot,
/// then those of the second, and so on.
pub open spec fn data_lines(polls: Seq<Poll>, record_unknown: bool) -> Seq<Seq<char>> {
    polls.flat_map(poll_lines(record_unknown))
}

/// The processor temperature that a snapshot counts as: zero where it
/// holds none.
pub open spec fn cpu_or_zero(snapshot: Seq<Reading>) -> u32 {
    match cpu_reading(snapshot) {
        Some(temp) => temp,
        None => 0u32,
    }
}

/// Whether a snapshot holds a processor reading that is not above `upper`.
pub open spec fn in_range(snapshot: Seq<Reading>, upper: u32) -> bool {
    cpu_reading(snapshot) is Some && cpu_reading(snapshot)->0 <= upper
}

/// The count of ticks after `ticks` more.
pub open spec fn count_after(countdown: u64, ticks: nat) -> u64 {
    if countdown + ticks <= u64::MAX {
        (countdown + ticks) as u64
    } else {
        u64::MAX
    }
}

/// The run on one poll more is the run so far followed by one tick.
pub proof fn lemma_run_next(start: EngineModel, polls: Seq<Poll>, k: int)
    requires
        0 <= k < polls.len(),
    ensures
        run(start, polls.take(k + 1)).engine == step(
            run(start, polls.take(k)).engine,
            polls[k].snapshot,
            polls[k].elapsed_secs,
        ).engine,
        run(start, polls.take(k + 1)).log == run(start, polls.take(k)).log + step(
            run(start, polls.take(k)).engine,
            polls[k].snapshot,
            polls[k].elapsed_secs,
        ).written,
{
    assert(polls.take(k + 1).drop_last() =~= polls.take(k));
    assert(polls.take(k + 1).last() == polls[k]);
}

/// A run never changes its session, its policy, its threshold, or what it
/// records.
pub proof fn lemma_run_keeps_settings(start: EngineModel, polls: Seq<Poll>)
    ensures
        run(start, polls).engine.id == start.id,
        run(start, polls).engine.policy == start.policy,
        run(start, polls).engine.flush_interval == start.flush_interval,
        run(start, polls).engine.record_unknown == start.record_unknown,
    decreases polls.len(),
{
    if polls.len() > 0 {
        lemma_run_keeps_settings(start, polls.drop_last());
    }
}

/// A run that has ended stays ended: further polls change neither the
/// engine nor the log.
pub proof fn lemma_terminated_stays(start: EngineModel, polls: Seq<Poll>, k: int)
    requires
        0 <= k <= polls.len(),
        run(start, polls.take(k)).engine.state is Terminated,
    ensures
        run(start, polls).engine == run(start, polls.take(k)).engine,
        run(start, polls).log == run(start, polls.take(k)).log,
        run(start, polls).closings == run(start, polls.take(k)).closings,
    decreases polls.len() - k,
{
    if k == polls.len() {
        assert(polls.take(k) =~= polls);
    } else {
        let shorter = polls.drop_last();
        assert(shorter.take(k) =~= polls.take(k));
        lemma_terminated_stays(start, shorter, k);
        assert(run(start, polls).log =~= run(start, shorter).log);
    }
}

/// The log of a run is closed at most once: exactly once where the run has
/// ended, whatever ended it, and not at all while it goes on. Once it is
/// closed the buffer is empty.
pub proof fn lemma_run_closes_once(start: EngineModel, polls: Seq<Poll>)
    requires
        start.state is Running,
    ensures
        run(start, polls).closings <= 1,
        run(start, polls).closings == 1 <==> run(start, polls).engine.state is Terminated,
        run(start, polls).engine.state is Terminated ==> run(start, polls).engine.buffer.len() == 0,
    decreases polls.len(),
{
    if polls.len() > 0 {
        lemma_run_closes_once(start, polls.drop_last());
    }
}

/// While a run goes on nothing is lost and the order is kept: the log
/// followed by the buffer is the buffer at the start followed by the data
/// lines of all polls. Every tick so far was counted.
pub proof fn lemma_running_log(start: EngineModel, polls: Seq<Poll>)
    requires
        start.state is Running,
        run(start, polls).engine.state is Running,
    ensures
        run(start, polls).log + run(start, polls).engine.buffer == start.buffer + data_lines(
            polls,
            start.record_unknown,
        ),
        run(start, polls).engine.countdown == count_after(start.countdown, polls.len()),
    decreases polls.len(),
{
    let record_unknown = start.record_unknown;
    if polls.len() == 0 {
        assert(data_lines(polls, record_unknown) =~= Seq::<Seq<char>>::empty());
        assert(run(start, polls).log + start.buffer =~= start.buffer + Seq::<Seq<char>>::empty());
    } else {
        let shorter = polls.drop_last();
        let last = polls.last();
        let before = run(start, shorter);
        lemma_run_keeps_settings(start, shorter);
        lemma_running_log(start, shorter);
        let lines = record_lines(last.snapshot, record_unknown);
        let fed = feed(before.engine.buffer, lines, before.engine.flush_interval as nat);
        lemma_feed_conserves(before.engine.buffer, lines, before.engine.flush_interval as nat);
        shorter.lemma_flat_map_push(poll_lines(record_unknown), last);
        assert(shorter.push(last) =~= polls);
        assert(data_lines(polls, record_unknown) == data_lines(shorter, record_unknown) + lines);
        assert(run(start, polls).log + run(start, polls).engine.buffer =~= before.log + (fed.1
            + fed.0));
        assert(before.log + (before.engine.buffer + lines) =~= (before.log + before.engine.buffer)
            + lines);
        assert((start.buffer + data_lines(shorter, record_unknown)) + lines =~= start.buffer + (
        data_lines(shorter, record_unknown) + lines));
    }
}

/// The log of a run that its last poll has ended. Where the policy ended
/// it, the log is the buffer at the start, the data lines of all polls, the
/// seconds that the run took and the processor temperature of the last
/// snapshot. Where the last snapshot held no processor reading under a
/// temperature trigger, that snapshot is not recorded and no temperature
/// closes the log.
pub proof fn lemma_closing_log(start: EngineModel, polls: Seq<Poll>)
    requires
        start.state is Running,
        polls.len() > 0,
        run(start, polls.drop_last()).engine.state is Running,
        run(start, polls).engine.state is Terminated,
    ensures
        run(start, polls).engine.state != LoopState::Terminated(StopReason::SensorUnavailable)
            ==> run(start, polls).log == start.buffer + data_lines(polls, start.record_unknown)
            + trailer_lines(polls.last().elapsed_secs, Some(cpu_or_zero(polls.last().snapshot))),
        run(start, polls).engine.state == LoopState::Terminated(StopReason::SensorUnavailable)
            ==> run(start, polls).log == start.buffer + data_lines(
            polls.drop_last(),
            start.record_unknown,
        ) + trailer_lines(polls.last().elapsed_secs, None),
{
    let record_unknown = start.record_unknown;
    let shorter = polls.drop_last();
    let last = polls.last();
    let before = run(start, shorter);
    lemma_run_keeps_settings(start, shorter);
    lemma_running_log(start, shorter);
    let lines = record_lines(last.snapshot, record_unknown);
    let fed = feed(before.engine.buffer, lines, before.engine.flush_interval as nat);
    lemma_feed_conserves(before.engine.buffer, lines, before.engine.flush_interval as nat);
    shorter.lemma_flat_map_push(poll_lines(record_unknown), last);
    assert(shorter.push(last) =~= polls);
    if run(start, polls).engine.state == LoopState::Terminated(StopReason::SensorUnavailable) {
        let closing = trailer_lines(last.elapsed_secs, None);
        assert(run(start, polls).log =~= before.log + (before.engine.buffer + closing));
        assert(before.log + (before.engine.buffer + closing) =~= (before.log
            + before.engine.buffer) + closing);
    } else {
        let closing = trailer_lines(last.elapsed_secs, Some(cpu_or_zero(last.snapshot)));
        assert(run(start, polls).log =~= before.log + (fed.1 + fed.0 + closing));
        assert(before.log + (fed.1 + fed.0 + closing) =~= (before.log + (fed.1 + fed.0))
            + closing);
        assert(before.log + (before.engine.buffer + lines) =~= (before.log + before.engine.buffer)
            + lines);
        assert((start.buffer + data_lines(shorter, record_unknown)) + lines =~= start.buffer + (
        data_lines(shorter, record_unknown) + lines));
    }
}

/// A run under a capture limit goes on for exactly as many ticks as the
/// target, where the target is not zero: it is running after any smaller
/// number of ticks, and the tick that reaches the target ends it. Its log
/// holds the data lines of that many snapshots, followed by the closing
/// lines.
pub proof fn lemma_capture_limit_run(start: EngineModel, polls: Seq<Poll>, target: u64)
    requires
        start.policy == (TerminationPolicy::CaptureLimit { target }),
        start.state is Running,
        start.countdown == 0,
        target >= 1,
        polls.len() == target,
    ensures
        forall|k: int|
            0 <= k < target ==> (#[trigger] run(start, polls.take(k))).engine.state is Running,
        run(start, polls).engine.state == LoopState::Terminated(StopReason::TargetReached),
        run(start, polls).closings == 1,
        run(start, polls).log == start.buffer + data_lines(polls, start.record_unknown)
            + trailer_lines(polls.last().elapsed_secs, Some(cpu_or_zero(polls.last().snapshot))),
{
    assert forall|k: int| 0 <= k < target implies (#[trigger] run(
        start,
        polls.take(k),
    )).engine.state is Running by {
        lemma_capture_limit_running(start, polls, target, k);
    }
    let shorter = polls.drop_last();
    assert(polls.take(target - 1) =~= shorter);
    lemma_capture_limit_running(start, polls, target, target - 1);
    lemma_run_keeps_settings(start, shorter);
    lemma_running_log(start, shorter);
    lemma_run_closes_once(start, polls);
    lemma_closing_log(start, polls);
}

/// Under a capture limit a run is still going after fewer ticks than the
/// target.
proof fn lemma_capture_limit_running(start: EngineModel, polls: Seq<Poll>, target: u64, k: int)
    requires
        start.policy == (TerminationPolicy::CaptureLimit { target }),
        start.state is Running,
        start.countdown == 0,
        0 <= k < target,
        k <= polls.len(),
    ensures
        run(start, polls.take(k)).engine.state is Running,
    decreases k,
{
    if k > 0 {
        lemma_capture_limit_running(start, polls, target, k - 1);
        lemma_run_next(start, polls, k - 1);
        lemma_run_keeps_settings(start, polls.take(k - 1));
        lemma_running_log(start, polls.take(k - 1));
    }
}

/// Under a temperature trigger a run ends in the first tick whose snapshot
/// is out of range, and in no other: it goes on exactly as long as every
/// snapshot holds a processor reading that is not above the upper bound.
/// A reading at the upper bound itself ends nothing, nor does the lower
/// bound. Where the run has ended, the processor was hotter than the upper
/// bound in that tick, or there was no processor reading.
pub proof fn lemma_trigger_run(start: EngineModel, polls: Seq<Poll>, lower: u32, upper: u32)
    requires
        start.policy == (TerminationPolicy::TemperatureTrigger {
            lower_bound: lower,
            upper_bound: upper,
        }),
        start.state is Running,
    ensures
        run(start, polls).engine.state is Running <==> forall|i: int|
            0 <= i < polls.len() ==> in_range((#[trigger] polls[i]).snapshot, upper),
        run(start, polls).engine.state == LoopState::Terminated(StopReason::LimitExceeded)
            <==> exists|k: int|
            0 <= k < polls.len() && first_out_of_range(polls, upper, k) && cpu_reading(
                polls[k].snapshot,
            ) is Some,
        run(start, polls).engine.state == LoopState::Terminated(StopReason::SensorUnavailable)
            <==> exists|k: int|
            0 <= k < polls.len() && first_out_of_range(polls, upper, k) && cpu_reading(
                polls[k].snapshot,
            ) is None,
        run(start, polls).engine.state != LoopState::Terminated(StopReason::TargetReached),
    decreases polls.len(),
{
    if polls.len() > 0 {
        let shorter = polls.drop_last();
        let last = polls.last();
        lemma_trigger_run(start, shorter, lower, upper);
        lemma_run_keeps_settings(start, shorter);
        let before = run(start, shorter);
        assert forall|i: int| 0 <= i < shorter.len() implies shorter[i] == polls[i] by {}
        if before.engine.state is Running {
            assert forall|i: int| 0 <= i < shorter.len() implies in_range(
                (#[trigger] polls[i]).snapshot,
                upper,
            ) by {
                assert(shorter[i] == polls[i]);
            }
            if !in_range(last.snapshot, upper) {
                assert(first_out_of_range(polls, upper, polls.len() - 1));
            }
            lemma_first_out_of_range_unique(polls, upper);
        } else {
            let k = choose|k: int| 0 <= k < shorter.len() && first_out_of_range(shorter, upper, k);
            assert(first_out_of_range(polls, upper, k)) by {
                assert(shorter[k] == polls[k]);
                assert forall|i: int| 0 <= i < k implies in_range(
                    (#[trigger] polls[i]).snapshot,
                    upper,
                ) by {
                    assert(shorter[i] == polls[i]);
                }
            }
            assert(!in_range(polls[k].snapshot, upper));
            lemma_first_out_of_range_unique(polls, upper);
        }
    }
}

/// Whether the snapshot of poll `k` is the first that is out of range.
pub open spec fn first_out_of_range(polls: Seq<Poll>, upper: u32, k: int) -> bool {
    &&& 0 <= k < polls.len()
    &&& !in_range(polls[k].snapshot, upper)
    &&& forall|i: int| 0 <= i < k ==> in_range((#[trigger] polls[i]).snapshot, upper)
}

/// There is one first snapshot out of range at most.
pub proof fn lemma_first_out_of_range_unique(polls: Seq<Poll>, upper: u32)
    ensures
        forall|a: int, b: int|
            first_out_of_range(polls, upper, a) && first_out_of_range(polls, upper, b) ==> a == b,
{
    assert forall|a: int, b: int|
        first_out_of_range(polls, upper, a) && first_out_of_range(polls, upper, b) implies a
        == b by {
        if a < b {
            assert(in_range(polls[a].snapshot, upper));
        }
        if b < a {
            assert(in_range(polls[b].snapshot, upper));
        }
    }
}

/// Whether a line is a data line of the processor.
pub open spec fn is_cpu_line(line: Seq<char>) -> bool {
    starts_with(line, "CPU,"@)
}

/// `is_cpu_line` as a function value.
pub open spec fn cpu_line_test() -> spec_fn(Seq<char>) -> bool {
    |line: Seq<char>| is_cpu_line(line)
}

/// How many of `lines` are data lines of the processor.
pub open spec fn cpu_lines(lines: Seq<Seq<char>>) -> nat {
    lines.filter(cpu_line_test()).len()
}

/// The test for a processor reading.
pub open spec fn cpu_test() -> spec_fn(Reading) -> bool {
    |r: Reading| r.is_cpu
}

/// How many readings of a snapshot are processor readings.
pub open spec fn cpu_count(snapshot: Seq<Reading>) -> nat {
    snapshot.filter(cpu_test()).len()
}

/// The line of a reading is a data line of the processor exactly where the
/// reading is a processor reading.
pub proof fn lemma_record_line_cpu(r: Reading)
    ensures
        is_cpu_line(record_line(r)) <==> r.is_cpu,
{
    reveal_strlit("CPU,");
    reveal_strlit("CPU");
    reveal_strlit("GPU");
    reveal_strlit("NVMe");
    reveal_strlit("Unknown");
    let line = record_line(r);
    let head = "CPU,"@;
    if r.is_cpu {
        assert(line.take(4) =~= head);
    } else {
        if starts_with(line, head) {
            assert(line.take(4)[0] == head[0]);
            assert(line[0] != 'C');
        }
    }
}

/// A snapshot adds as many data lines of the processor as it holds
/// processor readings.
pub proof fn lemma_cpu_lines_of_snapshot(snapshot: Seq<Reading>, record_unknown: bool)
    ensures
        cpu_lines(record_lines(snapshot, record_unknown)) == cpu_count(snapshot),
    decreases snapshot.len(),
{
    reveal(Seq::filter);
    if snapshot.len() == 0 {
        assert(record_lines(snapshot, record_unknown) =~= Seq::<Seq<char>>::empty());
    } else {
        let rest = snapshot.drop_last();
        let r = snapshot.last();
        lemma_cpu_lines_of_snapshot(rest, record_unknown);
        lemma_record_line_cpu(r);
        let before = record_lines(rest, record_unknown);
        match recorded_line(r, record_unknown) {
            Some(line) => {
                assert(record_lines(snapshot, record_unknown) == before + seq![line]);
                assert(before + seq![line] =~= before.push(line));
                before.lemma_filter_push(line, cpu_line_test());
            },
            None => {
                assert(record_lines(snapshot, record_unknown) == before);
            },
        }
    }
}

/// Where every snapshot holds exactly one processor reading, the data
/// lines of a run hold exactly one data line of the processor for each
/// poll.
pub proof fn lemma_one_cpu_line_per_poll(polls: Seq<Poll>, record_unknown: bool)
    requires
        forall|i: int| 0 <= i < polls.len() ==> cpu_count((#[trigger] polls[i]).snapshot) == 1,
    ensures
        cpu_lines(data_lines(polls, record_unknown)) == polls.len(),
    decreases polls.len(),
{
    if polls.len() == 0 {
        assert(data_lines(polls, record_unknown) =~= Seq::<Seq<char>>::empty());
        assert(Seq::<Seq<char>>::empty().filter(cpu_line_test()).len() == 0) by {
            reveal(Seq::filter);
        }
    } else {
        let shorter = polls.drop_last();
        let last = polls.last();
        assert forall|i: int| 0 <= i < shorter.len() implies cpu_count(
            (#[trigger] shorter[i]).snapshot,
        ) == 1 by {
            assert(shorter[i] == polls[i]);
        }
        lemma_one_cpu_line_per_poll(shorter, record_unknown);
        lemma_cpu_lines_of_snapshot(last.snapshot, record_unknown);
        shorter.lemma_flat_map_push(poll_lines(record_unknown), last);
        assert(shorter.push(last) =~= polls);
        Seq::filter_distributes_over_add(
            data_lines(shorter, record_unknown),
            record_lines(last.snapshot, record_unknown),
            cpu_line_test(),
        );
    }
}

/// A snapshot with a processor reading at two places holds two processor
/// readings at least.
proof fn lemma_cpu_count_two(snapshot: Seq<Reading>, a: int, b: int)
    requires
        0 <= a < b < snapshot.len(),
        snapshot[a].is_cpu,
        snapshot[b].is_cpu,
    ensures
        cpu_count(snapshot) >= 2,
    decreases snapshot.len(),
{
    reveal(Seq::filter);
    let rest = snapshot.drop_last();
    if b == snapshot.len() - 1 {
        lemma_cpu_count_one(rest, a);
    } else {
        lemma_cpu_count_two(rest, a, b);
    }
}

/// A snapshot with a processor reading holds one processor reading at
/// least.
proof fn lemma_cpu_count_one(snapshot: Seq<Reading>, a: int)
    requires
        0 <= a < snapshot.len(),
        snapshot[a].is_cpu,
    ensures
        cpu_count(snapshot) >= 1,
    decreases snapshot.len(),
{
    reveal(Seq::filter);
    let rest = snapshot.drop_last();
    if a < snapshot.len() - 1 {
        lemma_cpu_count_one(rest, a);
    }
}

/// While a run under a temperature trigger goes on, no processor reading
/// that it has recorded is above the upper bound, where every snapshot
/// holds exactly one processor reading.
pub proof fn lemma_running_cpu_in_range(
    start: EngineModel,
    polls: Seq<Poll>,
    lower: u32,
    upper: u32,
)
    requires
        start.policy == (TerminationPolicy::TemperatureTrigger {
            lower_bound: lower,
            upper_bound: upper,
        }),
        start.state is Running,
        run(start, polls).engine.state is Running,
        forall|i: int| 0 <= i < polls.len() ==> cpu_count((#[trigger] polls[i]).snapshot) == 1,
    ensures
        forall|i: int, j: int|
            0 <= i < polls.len() && 0 <= j < polls[i].snapshot.len() && (
            #[trigger] polls[i].snapshot[j]).is_cpu ==> polls[i].snapshot[j].temp <= upper,
{
    lemma_trigger_run(start, polls, lower, upper);
    assert forall|i: int, j: int|
        0 <= i < polls.len() && 0 <= j < polls[i].snapshot.len() && (
        #[trigger] polls[i].snapshot[j]).is_cpu implies polls[i].snapshot[j].temp <= upper by {
        let snapshot = polls[i].snapshot;
        assert(in_range(polls[i].snapshot, upper));
        assert(cpu_count(polls[i].snapshot) == 1);
        lemma_cpu_reading(snapshot);
        let a = choose|a: int|
            0 <= a < snapshot.len() && (#[trigger] snapshot[a]).is_cpu && snapshot[a].temp
                == cpu_reading(snapshot)->0 && forall|b: int|
                0 <= b < a ==> !(#[trigger] snapshot[b]).is_cpu;
        if a < j {
            lemma_cpu_count_two(snapshot, a, j);
        }
        if j < a {
            lemma_cpu_count_two(snapshot, j, a);
        }
    }
}

} // verus!
