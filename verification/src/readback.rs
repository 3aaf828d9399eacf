//! What a run writes, read back: the series that the reader finds in the
//! log of a run are the temperatures that the run recorded.

use crate::plot::{
    chosen_label, lemma_frame_lines_read_back, lemma_record_line_reads_back, lemma_series_push,
    lemma_tags_differ, line_reader, record_of, records, series, Record,
};
use crate::capture::{EngineModel, TerminationPolicy};
use crate::runs::{
    cpu_count, cpu_or_zero, cpu_test, data_lines, lemma_capture_limit_run, poll_lines, run, Poll,
};
use crate::sensors::{class_tag, DeviceClass, Reading};
use crate::session::{
    delay_line, exit_line, header_line, record_line, record_lines, recorded_line, total_line,
    trailer_lines,
};
use crate::text::{decimal, is_digit, lemma_decimal_digits, lemma_find_is, lines, strip_cr};
use vstd::prelude::*;

verus! {

/// The text of a log: every line followed by a line feed.
pub open spec fn log_text(log: Seq<Seq<char>>) -> Seq<char>
    decreases log.len(),
{
    if log.len() == 0 {
        Seq::empty()
    } else {
        log[0] + seq!['\n'] + log_text(log.skip(1))
    }
}

/// Whether a line comes back whole from a text: it holds no line feed and
/// does not end in a carriage return.
pub open spec fn unbroken(line: Seq<char>) -> bool {
    !line.contains('\n') && (line.len() == 0 || line.last() != '\r')
}

/// Whether a label can stand in a log: it holds no comma and no line feed.
pub open spec fn plain(label: Seq<char>) -> bool {
    !label.contains(',') && !label.contains('\n')
}

/// Whether every label of a snapshot can stand in a log.
pub open spec fn plain_labels(snapshot: Seq<Reading>) -> bool {
    forall|j: int| 0 <= j < snapshot.len() ==> plain((#[trigger] snapshot[j]).label)
}

/// Whether every reading of `class` in a snapshot carries `label`.
pub open spec fn labelled(snapshot: Seq<Reading>, class: DeviceClass, label: Seq<char>) -> bool {
    forall|j: int|
        0 <= j < snapshot.len() && (#[trigger] snapshot[j]).class() == class ==> snapshot[j].label
            == label
}

/// The test for a reading of `class`.
pub open spec fn class_test(class: DeviceClass) -> spec_fn(Reading) -> bool {
    |r: Reading| r.class() == class
}

/// The temperature of a reading as a sample, as a function value.
pub open spec fn sample_of() -> spec_fn(Reading) -> i64 {
    |r: Reading| r.temp as i64
}

/// The temperatures of the readings of `class` in a snapshot, in order.
pub open spec fn class_temps(snapshot: Seq<Reading>, class: DeviceClass) -> Seq<i64> {
    snapshot.filter(class_test(class)).map_values(sample_of())
}

/// `class_temps` as a function of the poll.
pub open spec fn poll_temps(class: DeviceClass) -> spec_fn(Poll) -> Seq<i64> {
    |p: Poll| class_temps(p.snapshot, class)
}

/// The temperatures of the readings of `class` in a run, poll after poll.
pub open spec fn class_series(polls: Seq<Poll>, class: DeviceClass) -> Seq<i64> {
    polls.flat_map(poll_temps(class))
}

/// The records that a sequence of lines holds.
pub open spec fn read(log: Seq<Seq<char>>) -> Seq<Record> {
    log.filter_map(line_reader())
}

/// The record of a reading.
pub open spec fn record_from(r: Reading) -> Record {
    Record { tag: class_tag(r.class()), label: r.label, temp: r.temp as i64 }
}

/// The lines of the text of a log are the lines of the log, where each of
/// them is unbroken.
pub proof fn lemma_lines_of_log_text(log: Seq<Seq<char>>)
    requires
        forall|i: int| 0 <= i < log.len() ==> unbroken(#[trigger] log[i]),
    ensures
        lines(log_text(log)) == log,
    decreases log.len(),
{
    if log.len() > 0 {
        let first = log[0];
        let rest = log.skip(1);
        let text = log_text(log);
        assert forall|i: int| 0 <= i < rest.len() implies unbroken(#[trigger] rest[i]) by {
            assert(rest[i] == log[i + 1]);
        }
        lemma_lines_of_log_text(rest);
        assert forall|j: int| 0 <= j < first.len() implies text[j] != '\n' by {
            assert(text[j] == first[j]);
            assert(first.contains(first[j]));
        }
        assert(text[first.len() as int] == '\n');
        lemma_find_is(text, '\n', first.len() as int);
        assert(text.take(first.len() as int) =~= first);
        assert(text.skip(first.len() as int + 1) =~= log_text(rest));
        assert(strip_cr(first) == first);
        assert(seq![first] + rest =~= log);
    } else {
        assert(log =~= Seq::<Seq<char>>::empty());
    }
}

/// One more line adds its record, if it holds one.
pub proof fn lemma_read_push(log: Seq<Seq<char>>, line: Seq<char>)
    ensures
        read(log.push(line)) == match record_of(line) {
            Some(r) => read(log).push(r),
            None => read(log),
        },
{
    let longer = log.push(line);
    assert(longer.drop_last() =~= log);
    assert(longer.last() == line);
    match record_of(line) {
        Some(r) => {
            assert(read(log) + seq![r] =~= read(log).push(r));
        },
        None => {},
    }
}

/// A sequence that holds `c` in one of two parts holds it in their sum,
/// and in no other case.
proof fn lemma_contains_add(a: Seq<char>, b: Seq<char>, c: char)
    ensures
        (a + b).contains(c) <==> a.contains(c) || b.contains(c),
{
    if (a + b).contains(c) {
        let i = choose|i: int| 0 <= i < (a + b).len() && (a + b)[i] == c;
        if i < a.len() {
            assert(a[i] == c);
        } else {
            assert(b[i - a.len()] == c);
        }
    }
    if a.contains(c) {
        let i = choose|i: int| 0 <= i < a.len() && a[i] == c;
        assert((a + b)[i] == c);
    }
    if b.contains(c) {
        let i = choose|i: int| 0 <= i < b.len() && b[i] == c;
        assert((a + b)[a.len() + i] == c);
    }
}

/// A decimal numeral holds no line feed and ends in a digit.
proof fn lemma_decimal_unbroken(n: nat)
    ensures
        !decimal(n).contains('\n'),
        decimal(n).len() > 0,
        is_digit(decimal(n).last()),
{
    lemma_decimal_digits(n);
    if decimal(n).contains('\n') {
        let i = choose|i: int| 0 <= i < decimal(n).len() && decimal(n)[i] == '\n';
        assert(is_digit(decimal(n)[i]));
    }
}

/// A text that ends in a decimal numeral is unbroken where what stands
/// before the numeral holds no line feed.
proof fn lemma_numbered_unbroken(head: Seq<char>, n: nat)
    requires
        !head.contains('\n'),
    ensures
        unbroken(head + decimal(n)),
{
    lemma_decimal_unbroken(n);
    lemma_contains_add(head, decimal(n), '\n');
    assert((head + decimal(n)).last() == decimal(n).last());
}

/// The line of a reading is unbroken where its label holds no line feed.
pub proof fn lemma_record_line_unbroken(r: Reading)
    requires
        !r.label.contains('\n'),
    ensures
        unbroken(record_line(r)),
{
    reveal_strlit("CPU");
    reveal_strlit("GPU");
    reveal_strlit("NVMe");
    reveal_strlit("Unknown");
    let tag = class_tag(r.class());
    assert(!tag.contains('\n')) by {
        if tag.contains('\n') {
            let i = choose|i: int| 0 <= i < tag.len() && tag[i] == '\n';
            assert(tag[i] != '\n');
        }
    }
    let comma = seq![','];
    assert(!comma.contains('\n')) by {
        if comma.contains('\n') {
            let i = choose|i: int| 0 <= i < comma.len() && comma[i] == '\n';
            assert(comma[i] == ',');
        }
    }
    lemma_contains_add(tag, comma, '\n');
    lemma_contains_add(tag + comma, r.label, '\n');
    lemma_contains_add(tag + comma + r.label, comma, '\n');
    lemma_numbered_unbroken(tag + comma + r.label + comma, r.temp as nat);
}

/// The lines that open and close a log are unbroken.
pub proof fn lemma_frame_lines_unbroken(ms_delay: u64, elapsed_secs: u64, cpu_temp: u32)
    ensures
        unbroken(delay_line(ms_delay)),
        unbroken(header_line()),
        unbroken(total_line(elapsed_secs)),
        unbroken(exit_line(cpu_temp)),
{
    reveal_strlit("# Delay:");
    reveal_strlit("Type,Label,Temp");
    reveal_strlit("#Total: ");
    reveal_strlit("CPU,Exit,");
    let a = "# Delay:"@;
    assert(!a.contains('\n')) by {
        if a.contains('\n') {
            let i = choose|i: int| 0 <= i < a.len() && a[i] == '\n';
            assert(a[i] != '\n');
        }
    }
    lemma_numbered_unbroken(a, ms_delay as nat);
    let b = "Type,Label,Temp"@;
    assert(!b.contains('\n')) by {
        if b.contains('\n') {
            let i = choose|i: int| 0 <= i < b.len() && b[i] == '\n';
            assert(b[i] != '\n');
        }
    }
    assert(b.last() == 'p');
    let c = "#Total: "@;
    assert(!c.contains('\n')) by {
        if c.contains('\n') {
            let i = choose|i: int| 0 <= i < c.len() && c[i] == '\n';
            assert(c[i] != '\n');
        }
    }
    lemma_numbered_unbroken(c, elapsed_secs as nat);
    let d = "CPU,Exit,"@;
    assert(!d.contains('\n')) by {
        if d.contains('\n') {
            let i = choose|i: int| 0 <= i < d.len() && d[i] == '\n';
            assert(d[i] != '\n');
        }
    }
    lemma_numbered_unbroken(d, cpu_temp as nat);
}

/// What the lines of one snapshot add to what was read before: to the
/// series of `class` the temperatures of its readings of that class, in
/// order, where those readings carry the label that was chosen before or,
/// where none was chosen, one label; and that label is chosen from then on.
pub proof fn lemma_snapshot_reads_back(
    log: Seq<Seq<char>>,
    snapshot: Seq<Reading>,
    record_unknown: bool,
    class: DeviceClass,
    label: Seq<char>,
)
    requires
        class != DeviceClass::Unknown,
        plain_labels(snapshot),
        labelled(snapshot, class, label),
        chosen_label(read(log), class) is None || chosen_label(read(log), class) == Some(label),
    ensures
        series(read(log + record_lines(snapshot, record_unknown)), class) == series(
            read(log),
            class,
        ) + class_temps(snapshot, class),
        chosen_label(read(log + record_lines(snapshot, record_unknown)), class) == (if class_temps(
            snapshot,
            class,
        ).len() > 0 {
            Some(label)
        } else {
            chosen_label(read(log), class)
        }),
    decreases snapshot.len(),
{
    reveal(Seq::filter);
    if snapshot.len() == 0 {
        assert(record_lines(snapshot, record_unknown) =~= Seq::<Seq<char>>::empty());
        assert(log + Seq::<Seq<char>>::empty() =~= log);
        assert(class_temps(snapshot, class) =~= Seq::<i64>::empty());
        assert(series(read(log), class) + Seq::<i64>::empty() =~= series(read(log), class));
    } else {
        let rest = snapshot.drop_last();
        let r = snapshot.last();
        assert forall|j: int| 0 <= j < rest.len() implies plain((#[trigger] rest[j]).label) by {
            assert(rest[j] == snapshot[j]);
        }
        assert forall|j: int| 0 <= j < rest.len() && (#[trigger] rest[j]).class()
            == class implies rest[j].label == label by {
            assert(rest[j] == snapshot[j]);
        }
        lemma_snapshot_reads_back(log, rest, record_unknown, class, label);
        let before = log + record_lines(rest, record_unknown);
        let temps_before = class_temps(rest, class);
        lemma_tags_differ();
        assert(plain(r.label));
        if r.class() == class {
            assert(r.label == label);
            assert(snapshot.filter(class_test(class)) == rest.filter(class_test(class)).push(r));
            assert(class_temps(snapshot, class) =~= temps_before.push(r.temp as i64));
        } else {
            assert(class_temps(snapshot, class) == temps_before);
        }
        match recorded_line(r, record_unknown) {
            Some(line) => {
                assert(record_lines(snapshot, record_unknown) == record_lines(rest, record_unknown)
                    + seq![line]);
                assert(log + (record_lines(rest, record_unknown) + seq![line]) =~= before.push(line));
                lemma_record_line_reads_back(r);
                lemma_read_push(before, line);
                lemma_series_push(read(before), record_from(r), class);
                if r.class() == class {
                    assert(series(read(log), class) + temps_before.push(r.temp as i64) =~= (series(
                        read(log),
                        class,
                    ) + temps_before).push(r.temp as i64));
                }
            },
            None => {
                assert(record_lines(snapshot, record_unknown) == record_lines(rest, record_unknown));
            },
        }
    }
}

/// What the data lines of a run add to what was read before: to the series
/// of `class` the temperatures of all readings of that class, poll after
/// poll, where those readings carry one label.
pub proof fn lemma_polls_read_back(
    log: Seq<Seq<char>>,
    polls: Seq<Poll>,
    record_unknown: bool,
    class: DeviceClass,
    label: Seq<char>,
)
    requires
        class != DeviceClass::Unknown,
        forall|i: int| 0 <= i < polls.len() ==> plain_labels((#[trigger] polls[i]).snapshot),
        forall|i: int| 0 <= i < polls.len() ==> labelled((#[trigger] polls[i]).snapshot, class, label),
        chosen_label(read(log), class) is None || chosen_label(read(log), class) == Some(label),
    ensures
        series(read(log + data_lines(polls, record_unknown)), class) == series(read(log), class)
            + class_series(polls, class),
        chosen_label(read(log + data_lines(polls, record_unknown)), class) == (if class_series(
            polls,
            class,
        ).len() > 0 {
            Some(label)
        } else {
            chosen_label(read(log), class)
        }),
    decreases polls.len(),
{
    if polls.len() == 0 {
        assert(data_lines(polls, record_unknown) =~= Seq::<Seq<char>>::empty());
        assert(log + Seq::<Seq<char>>::empty() =~= log);
        assert(class_series(polls, class) =~= Seq::<i64>::empty());
        assert(series(read(log), class) + Seq::<i64>::empty() =~= series(read(log), class));
    } else {
        let shorter = polls.drop_last();
        let last = polls.last();
        assert forall|i: int| 0 <= i < shorter.len() implies plain_labels(
            (#[trigger] shorter[i]).snapshot,
        ) by {
            assert(shorter[i] == polls[i]);
        }
        assert forall|i: int| 0 <= i < shorter.len() implies labelled(
            (#[trigger] shorter[i]).snapshot,
            class,
            label,
        ) by {
            assert(shorter[i] == polls[i]);
        }
        lemma_polls_read_back(log, shorter, record_unknown, class, label);
        let before = log + data_lines(shorter, record_unknown);
        assert(plain_labels(polls[polls.len() - 1].snapshot));
        assert(labelled(polls[polls.len() - 1].snapshot, class, label));
        lemma_snapshot_reads_back(before, last.snapshot, record_unknown, class, label);
        shorter.lemma_flat_map_push(poll_lines(record_unknown), last);
        shorter.lemma_flat_map_push(poll_temps(class), last);
        assert(shorter.push(last) =~= polls);
        assert(before + record_lines(last.snapshot, record_unknown) =~= log + data_lines(
            polls,
            record_unknown,
        ));
        assert(series(read(log), class) + (class_series(shorter, class) + class_temps(
            last.snapshot,
            class,
        )) =~= (series(read(log), class) + class_series(shorter, class)) + class_temps(
            last.snapshot,
            class,
        ));
    }
}

/// The whole log of a run that the policy ended, as it stands in the
/// file: the delay, the heading, the data lines and the closing lines.
pub open spec fn whole_log(
    ms_delay: u64,
    polls: Seq<Poll>,
    record_unknown: bool,
    elapsed_secs: u64,
    exit_temp: u32,
) -> Seq<Seq<char>> {
    seq![delay_line(ms_delay), header_line()] + data_lines(polls, record_unknown) + trailer_lines(
        elapsed_secs,
        Some(exit_temp),
    )
}

/// Every line of a whole log is unbroken, where no label holds a line
/// feed.
pub proof fn lemma_whole_log_unbroken(
    ms_delay: u64,
    polls: Seq<Poll>,
    record_unknown: bool,
    elapsed_secs: u64,
    exit_temp: u32,
)
    requires
        forall|i: int| 0 <= i < polls.len() ==> plain_labels((#[trigger] polls[i]).snapshot),
    ensures
        forall|i: int|
            0 <= i < whole_log(ms_delay, polls, record_unknown, elapsed_secs, exit_temp).len()
                ==> unbroken(
                #[trigger] whole_log(ms_delay, polls, record_unknown, elapsed_secs, exit_temp)[i],
            ),
{
    lemma_frame_lines_unbroken(ms_delay, elapsed_secs, exit_temp);
    lemma_data_lines_unbroken(polls, record_unknown);
}

/// Every data line of a run is unbroken, where no label holds a line feed.
proof fn lemma_data_lines_unbroken(polls: Seq<Poll>, record_unknown: bool)
    requires
        forall|i: int| 0 <= i < polls.len() ==> plain_labels((#[trigger] polls[i]).snapshot),
    ensures
        forall|i: int|
            0 <= i < data_lines(polls, record_unknown).len() ==> unbroken(
                #[trigger] data_lines(polls, record_unknown)[i],
            ),
    decreases polls.len(),
{
    if polls.len() == 0 {
        assert(data_lines(polls, record_unknown) =~= Seq::<Seq<char>>::empty());
    } else {
        let shorter = polls.drop_last();
        let last = polls.last();
        assert forall|i: int| 0 <= i < shorter.len() implies plain_labels(
            (#[trigger] shorter[i]).snapshot,
        ) by {
            assert(shorter[i] == polls[i]);
        }
        lemma_data_lines_unbroken(shorter, record_unknown);
        assert(plain_labels(polls[polls.len() - 1].snapshot));
        lemma_record_lines_unbroken(last.snapshot, record_unknown);
        shorter.lemma_flat_map_push(poll_lines(record_unknown), last);
        assert(shorter.push(last) =~= polls);
        let before = data_lines(shorter, record_unknown);
        let added = record_lines(last.snapshot, record_unknown);
        let all = data_lines(polls, record_unknown);
        assert(all == before + added);
        assert forall|i: int| 0 <= i < all.len() implies unbroken(#[trigger] all[i]) by {
            if i < before.len() {
                assert(all[i] == before[i]);
            } else {
                assert(all[i] == added[i - before.len()]);
            }
        }
    }
}

/// Every line of a snapshot is unbroken, where no label holds a line feed.
proof fn lemma_record_lines_unbroken(snapshot: Seq<Reading>, record_unknown: bool)
    requires
        plain_labels(snapshot),
    ensures
        forall|i: int|
            0 <= i < record_lines(snapshot, record_unknown).len() ==> unbroken(
                #[trigger] record_lines(snapshot, record_unknown)[i],
            ),
    decreases snapshot.len(),
{
    if snapshot.len() == 0 {
        assert(record_lines(snapshot, record_unknown) =~= Seq::<Seq<char>>::empty());
    } else {
        let rest = snapshot.drop_last();
        let r = snapshot.last();
        assert forall|j: int| 0 <= j < rest.len() implies plain((#[trigger] rest[j]).label) by {
            assert(rest[j] == snapshot[j]);
        }
        lemma_record_lines_unbroken(rest, record_unknown);
        assert(plain(snapshot[snapshot.len() - 1].label));
        lemma_record_line_unbroken(r);
        let before = record_lines(rest, record_unknown);
        let all = record_lines(snapshot, record_unknown);
        match recorded_line(r, record_unknown) {
            Some(line) => {
                assert(all == before + seq![line]);
                assert forall|i: int| 0 <= i < all.len() implies unbroken(#[trigger] all[i]) by {
                    if i < before.len() {
                        assert(all[i] == before[i]);
                    } else {
                        assert(all[i] == line);
                    }
                }
            },
            None => {
                assert(all == before);
            },
        }
    }
}

/// What is written is what is read: in the text of the whole log of a run
/// the reader finds, for each class of device, the temperatures of the
/// readings of that class, poll after poll. This holds where no label
/// holds a comma or a line feed and all readings of the class carry one
/// label; for the processor, where that label is not `Exit` and the run
/// has recorded a processor reading, so that the exit line is left out.
pub proof fn lemma_log_reads_back(
    ms_delay: u64,
    polls: Seq<Poll>,
    record_unknown: bool,
    elapsed_secs: u64,
    exit_temp: u32,
    class: DeviceClass,
    label: Seq<char>,
)
    requires
        class != DeviceClass::Unknown,
        forall|i: int| 0 <= i < polls.len() ==> plain_labels((#[trigger] polls[i]).snapshot),
        forall|i: int| 0 <= i < polls.len() ==> labelled((#[trigger] polls[i]).snapshot, class, label),
        class == DeviceClass::Cpu ==> label != "Exit"@ && class_series(polls, class).len() > 0,
    ensures
        series(
            records(log_text(whole_log(ms_delay, polls, record_unknown, elapsed_secs, exit_temp))),
            class,
        ) == class_series(polls, class),
{
    let log = whole_log(ms_delay, polls, record_unknown, elapsed_secs, exit_temp);
    lemma_whole_log_unbroken(ms_delay, polls, record_unknown, elapsed_secs, exit_temp);
    lemma_lines_of_log_text(log);
    assert(records(log_text(log)) == read(log));
    lemma_frame_lines_read_back(ms_delay, elapsed_secs, exit_temp);
    lemma_tags_differ();
    let none = Seq::<Seq<char>>::empty();
    let opening = seq![delay_line(ms_delay), header_line()];
    assert(read(none) =~= Seq::<Record>::empty());
    lemma_read_push(none, delay_line(ms_delay));
    lemma_read_push(none.push(delay_line(ms_delay)), header_line());
    assert(none.push(delay_line(ms_delay)).push(header_line()) =~= opening);
    assert(read(opening) =~= Seq::<Record>::empty());
    assert(chosen_label(read(opening), class) is None) by {
        reveal(Seq::filter);
    }
    assert(series(read(opening), class) =~= Seq::<i64>::empty());
    lemma_polls_read_back(opening, polls, record_unknown, class, label);
    let body = opening + data_lines(polls, record_unknown);
    assert(series(read(body), class) =~= class_series(polls, class));
    lemma_read_push(body, total_line(elapsed_secs));
    let closing = body.push(total_line(elapsed_secs));
    lemma_read_push(closing, exit_line(exit_temp));
    assert(closing.push(exit_line(exit_temp)) =~= log);
    let exit = Record { tag: class_tag(DeviceClass::Cpu), label: "Exit"@, temp: exit_temp as i64 };
    lemma_series_push(read(body), exit, class);
}

/// A run of snapshots with one processor reading each has recorded as
/// many processor temperatures as it has polls.
pub proof fn lemma_one_cpu_sample_per_poll(polls: Seq<Poll>)
    requires
        forall|i: int| 0 <= i < polls.len() ==> cpu_count((#[trigger] polls[i]).snapshot) == 1,
    ensures
        class_series(polls, DeviceClass::Cpu).len() == polls.len(),
    decreases polls.len(),
{
    let class = DeviceClass::Cpu;
    if polls.len() == 0 {
        assert(class_series(polls, class) =~= Seq::<i64>::empty());
    } else {
        let shorter = polls.drop_last();
        let last = polls.last();
        assert forall|i: int| 0 <= i < shorter.len() implies cpu_count(
            (#[trigger] shorter[i]).snapshot,
        ) == 1 by {
            assert(shorter[i] == polls[i]);
        }
        lemma_one_cpu_sample_per_poll(shorter);
        shorter.lemma_flat_map_push(poll_temps(class), last);
        assert(shorter.push(last) =~= polls);
        assert(cpu_count(polls[polls.len() - 1].snapshot) == 1);
        assert(class_test(class) =~= cpu_test());
    }
}

/// The log of a run under a capture limit, read back: after the delay and
/// the heading the log holds what the run wrote, and in its text the
/// reader finds one processor sample for each tick, as many as the target,
/// where every snapshot holds one processor reading, all under one label
/// that is not `Exit`, and no label holds a comma or a line feed.
pub proof fn lemma_capture_limit_reads_back(
    start: EngineModel,
    polls: Seq<Poll>,
    target: u64,
    ms_delay: u64,
    label: Seq<char>,
)
    requires
        start.policy == (TerminationPolicy::CaptureLimit { target }),
        start.state is Running,
        start.countdown == 0,
        start.buffer.len() == 0,
        target >= 1,
        polls.len() == target,
        label != "Exit"@,
        forall|i: int| 0 <= i < polls.len() ==> plain_labels((#[trigger] polls[i]).snapshot),
        forall|i: int|
            0 <= i < polls.len() ==> labelled((#[trigger] polls[i]).snapshot, DeviceClass::Cpu, label),
        forall|i: int| 0 <= i < polls.len() ==> cpu_count((#[trigger] polls[i]).snapshot) == 1,
    ensures
        seq![delay_line(ms_delay), header_line()] + run(start, polls).log == whole_log(
            ms_delay,
            polls,
            start.record_unknown,
            polls.last().elapsed_secs,
            cpu_or_zero(polls.last().snapshot),
        ),
        series(
            records(log_text(seq![delay_line(ms_delay), header_line()] + run(start, polls).log)),
            DeviceClass::Cpu,
        ) == class_series(polls, DeviceClass::Cpu),
        class_series(polls, DeviceClass::Cpu).len() == target,
{
    let opening = seq![delay_line(ms_delay), header_line()];
    let closing = trailer_lines(polls.last().elapsed_secs, Some(cpu_or_zero(polls.last().snapshot)));
    let data = data_lines(polls, start.record_unknown);
    lemma_capture_limit_run(start, polls, target);
    assert(start.buffer =~= Seq::<Seq<char>>::empty());
    assert(opening + (start.buffer + data + closing) =~= opening + data + closing);
    lemma_one_cpu_sample_per_poll(polls);
    lemma_log_reads_back(
        ms_delay,
        polls,
        start.record_unknown,
        polls.last().elapsed_secs,
        cpu_or_zero(polls.last().snapshot),
        DeviceClass::Cpu,
        label,
    );
}

} // verus!
