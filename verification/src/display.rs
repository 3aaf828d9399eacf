//! What a tick shows on the terminal. Nothing here is written to a log.

use crate::capture::{LoopState, StopReason, TerminationPolicy, TickReport};
use crate::sensors::{class_tag, device_type, readings, DeviceClass, Reading, SensorLabel};
use crate::text::{chars_of, decimal, push_all, push_decimal, string_of};
use vstd::prelude::*;

verus! {

/// The line that shows one reading.
pub open spec fn status_entry(r: Reading) -> Seq<char> {
    "\n ["@ + class_tag(r.class()) + "] "@ + r.label + ": "@ + decimal(r.temp as nat)
        + "\u{b0}C"@
}

/// The line that shows a reading, for the readings that are shown: those
/// of a known class.
pub open spec fn shown(r: Reading) -> Option<Seq<char>> {
    if r.class() != DeviceClass::Unknown {
        Some(status_entry(r))
    } else {
        None
    }
}

/// `shown` as a function value.
pub open spec fn shower() -> spec_fn(Reading) -> Option<Seq<char>> {
    |r: Reading| shown(r)
}

/// What a tick shows of a snapshot: the heading, one line for each reading
/// of a known class, and the sequence that clears the rest of the screen.
pub open spec fn frame_text_of(header: Seq<char>, snapshot: Seq<Reading>) -> Seq<char> {
    header + snapshot.filter_map(shower()).flatten() + "\u{1b}[J"@
}

/// The heading of a tick: under a temperature trigger its two bounds,
/// under a capture limit the count of ticks and the target.
pub open spec fn status_header_of(policy: TerminationPolicy, countdown: u64) -> Seq<char> {
    match policy {
        TerminationPolicy::TemperatureTrigger { lower_bound, upper_bound } =>
            "--- Trigger Monitor ---\nRange: [Start: "@ + decimal(lower_bound as nat)
                + "\u{b0}C, End: "@ + decimal(upper_bound as nat) + "\u{b0}C]"@,
        TerminationPolicy::CaptureLimit { target } => "--- Trigger Monitor ---\nCurrent: ["@
            + decimal(countdown as nat) + "] Target: ["@ + decimal(target as nat) + "]\n"@,
    }
}

/// The last line of a tick: under a capture limit, that the target was
/// reached, once it was; under a temperature trigger, whether the trigger
/// is armed, and that the limit was reached, once it was.
pub open spec fn status_text_of(
    policy: TerminationPolicy,
    state: LoopState,
    cpu_temp: Option<u32>,
    armed: bool,
) -> Seq<char> {
    let cpu: nat = match cpu_temp {
        Some(temp) => temp as nat,
        None => 0,
    };
    match policy {
        TerminationPolicy::CaptureLimit { target } => if state == LoopState::Terminated(
            StopReason::TargetReached,
        ) {
            "\n\u{1b}[31mTarget reached: ["@ + decimal(target as nat) + "]\u{1b}[0m"@
        } else {
            Seq::empty()
        },
        TerminationPolicy::TemperatureTrigger { lower_bound, upper_bound } => {
            let first = if armed {
                "\nStatus:\n\u{1b}[33m Trigger Active: "@ + decimal(cpu) + "\u{b0}C >= "@
                    + decimal(lower_bound as nat) + "\u{b0}C\u{1b}[0m"@
            } else {
                "\nStatus:\nBelow Target"@
            };
            if state == LoopState::Terminated(StopReason::LimitExceeded) {
                first + "\n\u{1b}[31m Limit reached ("@ + decimal(cpu) + "\u{b0}C).\u{1b}[0m"@
            } else {
                first
            }
        },
    }
}

/// What a tick shows of a snapshot.
pub fn frame_text(header_msg: &str, sensors: &Vec<SensorLabel>) -> (text: String)
    ensures
        text@ == frame_text_of(header_msg@, readings(sensors@)),
{
    let ghost snapshot = readings(sensors@);
    let mut out: Vec<char> = chars_of(header_msg);
    let mut i: usize = 0;
    proof {
        assert(snapshot.take(0) =~= Seq::<Reading>::empty());
        assert(snapshot.take(0).filter_map(shower()) =~= Seq::<Seq<char>>::empty());
        assert(Seq::<Seq<char>>::empty().flatten() =~= Seq::<char>::empty());
        assert(out@ =~= header_msg@ + snapshot.take(0).filter_map(shower()).flatten());
    }
    while i < sensors.len()
        invariant
            i <= sensors.len(),
            snapshot == readings(sensors@),
            out@ == header_msg@ + snapshot.take(i as int).filter_map(shower()).flatten(),
        decreases sensors.len() - i,
    {
        let ghost before = out@;
        let ghost entries = snapshot.take(i as int).filter_map(shower());
        proof {
            snapshot.lemma_filter_map_take_succ(shower(), i as int);
            assert(snapshot[i as int] == sensors@[i as int]@);
        }
        let sensor: &SensorLabel = &sensors[i];
        let known: bool = match sensor.device_class() {
            DeviceClass::Unknown => false,
            _ => true,
        };
        if known {
            push_all(&mut out, &chars_of("\n ["));
            push_all(&mut out, &chars_of(device_type(sensor)));
            push_all(&mut out, &chars_of("] "));
            push_all(&mut out, &chars_of(sensor.label.as_str()));
            push_all(&mut out, &chars_of(": "));
            push_decimal(&mut out, sensor.temp as u64);
            push_all(&mut out, &chars_of("\u{b0}C"));
            proof {
                let entry = status_entry(sensor@);
                assert(out@ =~= before + entry);
                assert(entries + seq![entry] =~= entries.push(entry));
                entries.lemma_flatten_push(entry);
                assert(header_msg@ + (entries.flatten() + entry) =~= header_msg@
                    + entries.flatten() + entry);
            }
        } else {
            proof {
                assert(entries + Seq::<Seq<char>>::empty() =~= entries);
            }
        }
        i += 1;
    }
    assert(snapshot.take(snapshot.len() as int) =~= snapshot);
    push_all(&mut out, &chars_of("\u{1b}[J"));
    string_of(&out)
}

/// The heading of a tick.
pub fn status_header(policy: TerminationPolicy, countdown: u64) -> (text: String)
    ensures
        text@ == status_header_of(policy, countdown),
{
    match policy {
        TerminationPolicy::TemperatureTrigger { lower_bound, upper_bound } => {
            let mut out: Vec<char> = chars_of("--- Trigger Monitor ---\nRange: [Start: ");
            push_decimal(&mut out, lower_bound as u64);
            push_all(&mut out, &chars_of("\u{b0}C, End: "));
            push_decimal(&mut out, upper_bound as u64);
            push_all(&mut out, &chars_of("\u{b0}C]"));
            string_of(&out)
        },
        TerminationPolicy::CaptureLimit { target } => {
            let mut out: Vec<char> = chars_of("--- Trigger Monitor ---\nCurrent: [");
            push_decimal(&mut out, countdown);
            push_all(&mut out, &chars_of("] Target: ["));
            push_decimal(&mut out, target);
            push_all(&mut out, &chars_of("]\n"));
            string_of(&out)
        },
    }
}

/// The last line of a tick.
pub fn status_text(policy: TerminationPolicy, report: &TickReport) -> (text: String)
    ensures
        text@ == status_text_of(policy, report.state, report.cpu_temp, report.armed),
{
    let cpu: u64 = match report.cpu_temp {
        Some(temp) => temp as u64,
        None => 0,
    };
    let mut out: Vec<char> = Vec::new();
    match policy {
        TerminationPolicy::CaptureLimit { target } => {
            let reached: bool = match report.state {
                LoopState::Terminated(StopReason::TargetReached) => true,
                _ => false,
            };
            if reached {
                push_all(&mut out, &chars_of("\n\u{1b}[31mTarget reached: ["));
                push_decimal(&mut out, target);
                push_all(&mut out, &chars_of("]\u{1b}[0m"));
                assert(out@ =~= status_text_of(
                    policy,
                    report.state,
                    report.cpu_temp,
                    report.armed,
                ));
            }
        },
        TerminationPolicy::TemperatureTrigger { lower_bound, upper_bound } => {
            if report.armed {
                push_all(&mut out, &chars_of("\nStatus:\n\u{1b}[33m Trigger Active: "));
                push_decimal(&mut out, cpu);
                push_all(&mut out, &chars_of("\u{b0}C >= "));
                push_decimal(&mut out, lower_bound as u64);
                push_all(&mut out, &chars_of("\u{b0}C\u{1b}[0m"));
            } else {
                push_all(&mut out, &chars_of("\nStatus:\nBelow Target"));
            }
            let exceeded: bool = match report.state {
                LoopState::Terminated(StopReason::LimitExceeded) => true,
                _ => false,
            };
            if exceeded {
                push_all(&mut out, &chars_of("\n\u{1b}[31m Limit reached ("));
                push_decimal(&mut out, cpu);
                push_all(&mut out, &chars_of("\u{b0}C).\u{1b}[0m"));
            }
            assert(out@ =~= status_text_of(policy, report.state, report.cpu_temp, report.armed));
        },
    }
    string_of(&out)
}

} // verus!
