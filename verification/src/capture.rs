//! The capture loop as a state machine: one tick takes a snapshot of the
//! sensors, records it, and decides whether the run goes on.
//!
//! The machine does no waiting and no writing. Whoever drives it polls the
//! sensors, hands each snapshot to `CaptureEngine::tick`, writes the lines
//! that come back, and stops once the state is `Terminated`.

use crate::cli::ArgumentPassers;
use crate::sensors::{cpu_reading, cpu_temperature, readings, Reading, SensorLabel};
use crate::session::{
    feed, record_frame, record_lines, texts, trailer, trailer_lines, SessionFile,
};
use vstd::prelude::*;

verus! {

/// When a run ends.
#[derive(Clone, Copy, Debug, PartialEq, Eq, Structural)]
pub enum TerminationPolicy {
    /// After `target` ticks.
    CaptureLimit { target: u64 },
    /// Once the processor is hotter than `upper_bound`. From `lower_bound`
    /// on the trigger shows as armed, which ends nothing.
    TemperatureTrigger { lower_bound: u32, upper_bound: u32 },
}

/// Why a run ended.
#[derive(Clone, Copy, Debug, PartialEq, Eq, Structural)]
pub enum StopReason {
    /// The count of ticks reached the target.
    TargetReached,
    /// The processor was hotter than the upper bound.
    LimitExceeded,
    /// A snapshot held no processor reading, which the temperature trigger
    /// cannot do without.
    SensorUnavailable,
}

/// Where a run stands.
#[derive(Clone, Copy, Debug, PartialEq, Eq, Structural)]
pub enum LoopState {
    Running,
    Terminated(StopReason),
}

/// Why a policy was refused.
#[derive(Clone, Copy, Debug, PartialEq, Eq, Structural)]
pub enum ConfigError {
    /// The upper bound of a temperature trigger is not above its lower
    /// bound.
    BoundsNotOrdered,
}

impl TerminationPolicy {
    /// Whether the bounds of a temperature trigger are in order.
    pub open spec fn wf(&self) -> bool {
        match *self {
            TerminationPolicy::CaptureLimit { .. } => true,
            TerminationPolicy::TemperatureTrigger { lower_bound, upper_bound } => upper_bound
                > lower_bound,
        }
    }

    /// The policy that ends a run after `target` ticks.
    pub fn capture_limit(target: u64) -> (policy: TerminationPolicy)
        ensures
            policy == (TerminationPolicy::CaptureLimit { target }),
            policy.wf(),
    {
        TerminationPolicy::CaptureLimit { target }
    }

    /// The policy that ends a run once the processor is hotter than
    /// `upper_bound`; refused unless `upper_bound` is above `lower_bound`.
    pub fn temperature_trigger(lower_bound: u32, upper_bound: u32) -> (policy: Result<
        TerminationPolicy,
        ConfigError,
    >)
        ensures
            upper_bound > lower_bound ==> policy == Ok::<TerminationPolicy, ConfigError>(
                TerminationPolicy::TemperatureTrigger { lower_bound, upper_bound },
            ),
            upper_bound <= lower_bound ==> policy == Err::<TerminationPolicy, ConfigError>(
                ConfigError::BoundsNotOrdered,
            ),
    {
        if upper_bound > lower_bound {
            Ok(TerminationPolicy::TemperatureTrigger { lower_bound, upper_bound })
        } else {
            Err(ConfigError::BoundsNotOrdered)
        }
    }
}

/// The reason for which a tick ends the run, if it does: under a capture
/// limit, that the count of ticks has reached the target; under a
/// temperature trigger, that the processor is hotter than the upper bound.
pub open spec fn stop_reason(policy: TerminationPolicy, countdown: u64, cpu_temp: u32) -> Option<
    StopReason,
> {
    match policy {
        TerminationPolicy::CaptureLimit { target } => if countdown >= target {
            Some(StopReason::TargetReached)
        } else {
            None
        },
        TerminationPolicy::TemperatureTrigger { lower_bound, upper_bound } => if cpu_temp
            > upper_bound {
            Some(StopReason::LimitExceeded)
        } else {
            None
        },
    }
}

/// Whether the trigger shows as armed: under a temperature trigger, the
/// processor is at the lower bound or above it.
pub open spec fn is_armed(policy: TerminationPolicy, cpu: Option<u32>) -> bool {
    match policy {
        TerminationPolicy::CaptureLimit { .. } => false,
        TerminationPolicy::TemperatureTrigger { lower_bound, upper_bound } => cpu is Some && cpu->0
            >= lower_bound,
    }
}

/// The count of ticks after one more; it stays at the highest number of 64
/// bits once it is there.
pub open spec fn next_count(countdown: u64) -> u64 {
    if countdown < u64::MAX {
        (countdown + 1) as u64
    } else {
        countdown
    }
}

/// The model of a capture engine.
pub struct EngineModel {
    pub id: u32,
    pub policy: TerminationPolicy,
    pub state: LoopState,
    pub countdown: u64,
    pub buffer: Seq<Seq<char>>,
    pub flush_interval: usize,
    pub record_unknown: bool,
}

impl EngineModel {
    /// Whether the engine is in order: the bounds of its policy are, and
    /// nothing waits in the buffer once the run has ended.
    pub open spec fn wf(self) -> bool {
        &&& self.policy.wf()
        &&& self.state is Terminated ==> self.buffer.len() == 0
    }
}

/// What one tick makes of an engine: the engine afterwards, and the lines
/// to write.
pub struct Step {
    pub engine: EngineModel,
    pub written: Seq<Seq<char>>,
}

/// One tick.
///
/// A run that has ended stays as it is and writes nothing. Otherwise the
/// tick is counted. Under a temperature trigger a snapshot without a
/// processor reading ends the run at once: what the buffer holds is
/// written, with the seconds that the run took. In every other case the
/// snapshot is recorded, and the policy is asked; under a capture limit a
/// missing processor reading counts as zero degrees. Where the run ends,
/// the buffer is written out whole, followed by the closing lines.
pub open spec fn step(m: EngineModel, snapshot: Seq<Reading>, elapsed_secs: u64) -> Step {
    let cpu = cpu_reading(snapshot);
    let countdown = next_count(m.countdown);
    if m.state is Terminated {
        Step { engine: m, written: Seq::empty() }
    } else if m.policy is TemperatureTrigger && cpu is None {
        Step {
            engine: EngineModel {
                state: LoopState::Terminated(StopReason::SensorUnavailable),
                countdown,
                buffer: Seq::empty(),
                ..m
            },
            written: m.buffer + trailer_lines(elapsed_secs, None),
        }
    } else {
        let fed = feed(m.buffer, record_lines(snapshot, m.record_unknown), m.flush_interval as nat);
        let cpu_temp = match cpu {
            Some(temp) => temp,
            None => 0u32,
        };
        match stop_reason(m.policy, countdown, cpu_temp) {
            Some(reason) => Step {
                engine: EngineModel {
                    state: LoopState::Terminated(reason),
                    countdown,
                    buffer: Seq::empty(),
                    ..m
                },
                written: fed.1 + fed.0 + trailer_lines(elapsed_secs, Some(cpu_temp)),
            },
            None => Step {
                engine: EngineModel { countdown, buffer: fed.0, ..m },
                written: fed.1,
            },
        }
    }
}

/// What a poll that failed makes of an engine: what a snapshot without
/// any reading makes of it. Under a temperature trigger the run ends, and
/// what the buffer holds is written; under a capture limit the tick counts
/// and records nothing.
pub open spec fn failed_step(m: EngineModel, elapsed_secs: u64) -> Step {
    step(m, Seq::empty(), elapsed_secs)
}

/// What a tick tells the one who drives the loop.
#[derive(Debug)]
pub struct TickReport {
    /// The lines to write to the log now, in order; often none.
    pub written: Vec<String>,
    /// Where the run stands after the tick.
    pub state: LoopState,
    /// The processor temperature of the snapshot, if it held one.
    pub cpu_temp: Option<u32>,
    /// Whether the trigger shows as armed.
    pub armed: bool,
    /// The count of ticks so far.
    pub countdown: u64,
}

/// A capture run: its policy, its session, and where it stands.
#[derive(Debug)]
pub struct CaptureEngine {
    policy: TerminationPolicy,
    state: LoopState,
    countdown: u64,
    session: SessionFile,
    record_unknown: bool,
}

impl View for CaptureEngine {
    type V = EngineModel;

    closed spec fn view(&self) -> EngineModel {
        EngineModel {
            id: self.session.id,
            policy: self.policy,
            state: self.state,
            countdown: self.countdown,
            buffer: texts(self.session.buffer@),
            flush_interval: self.session.flush_interval,
            record_unknown: self.record_unknown,
        }
    }
}

impl CaptureEngine {
    /// An engine at the start of a run; refused where the bounds of the
    /// policy are not in order. Readings of unknown class are recorded
    /// only where `record_unknown` asks for it.
    pub fn new(policy: TerminationPolicy, session: SessionFile, record_unknown: bool) -> (engine:
        Result<CaptureEngine, ConfigError>)
        ensures
            match engine {
                Ok(e) => {
                    &&& policy.wf()
                    &&& e@ == (EngineModel {
                        id: session.id,
                        policy,
                        state: LoopState::Running,
                        countdown: 0,
                        buffer: texts(session.buffer@),
                        flush_interval: session.flush_interval,
                        record_unknown,
                    })
                    &&& e@.wf()
                },
                Err(e) => e == ConfigError::BoundsNotOrdered && !policy.wf(),
            },
    {
        let in_order: bool = match policy {
            TerminationPolicy::CaptureLimit { .. } => true,
            TerminationPolicy::TemperatureTrigger { lower_bound, upper_bound } => upper_bound
                > lower_bound,
        };
        if in_order {
            Ok(
                CaptureEngine {
                    policy,
                    state: LoopState::Running,
                    countdown: 0,
                    session,
                    record_unknown,
                },
            )
        } else {
            Err(ConfigError::BoundsNotOrdered)
        }
    }

    /// Where the run stands.
    pub fn state(&self) -> (state: LoopState)
        ensures
            state == self@.state,
    {
        self.state
    }

    /// The policy of the run.
    pub fn policy(&self) -> (policy: TerminationPolicy)
        ensures
            policy == self@.policy,
    {
        self.policy
    }

    /// The count of ticks so far.
    pub fn countdown(&self) -> (countdown: u64)
        ensures
            countdown == self@.countdown,
    {
        self.countdown
    }

    /// How many records wait in the buffer.
    pub fn pending(&self) -> (n: usize)
        ensures
            n == self@.buffer.len(),
    {
        self.session.buffer.len()
    }

    /// The number of the session.
    pub fn id(&self) -> (id: u32)
        ensures
            id == self@.id,
    {
        self.session.id
    }

    /// One tick of the loop whose poll failed: takes the seconds since the
    /// run began, and says what to write and whether the run goes on.
    pub fn poll_failed(&mut self, elapsed_secs: u64) -> (report: TickReport)
        ensures
            final(self)@ == failed_step(old(self)@, elapsed_secs).engine,
            texts(report.written@) == failed_step(old(self)@, elapsed_secs).written,
            old(self)@.wf() ==> final(self)@.wf(),
            report.state == final(self)@.state,
            report.countdown == final(self)@.countdown,
            report.cpu_temp is None,
            !report.armed,
    {
        let nothing: Vec<SensorLabel> = Vec::new();
        assert(readings(nothing@) =~= Seq::<Reading>::empty());
        self.tick(&nothing, elapsed_secs)
    }

    /// One tick of the loop: takes the snapshot that was polled and the
    /// seconds since the run began, and says what to write and whether the
    /// run goes on.
    pub fn tick(&mut self, sensors: &Vec<SensorLabel>, elapsed_secs: u64) -> (report: TickReport)
        ensures
            final(self)@ == step(old(self)@, readings(sensors@), elapsed_secs).engine,
            texts(report.written@) == step(old(self)@, readings(sensors@), elapsed_secs).written,
            old(self)@.wf() ==> final(self)@.wf(),
            report.state == final(self)@.state,
            report.countdown == final(self)@.countdown,
            report.cpu_temp == cpu_reading(readings(sensors@)),
            report.armed == is_armed(old(self)@.policy, report.cpu_temp),
    {
        let cpu: Option<u32> = cpu_temperature(sensors);
        let armed: bool = match self.policy {
            TerminationPolicy::CaptureLimit { .. } => false,
            TerminationPolicy::TemperatureTrigger { lower_bound, .. } => match cpu {
                Some(temp) => temp >= lower_bound,
                None => false,
            },
        };
        match self.state {
            LoopState::Terminated(_) => {
                let written: Vec<String> = Vec::new();
                assert(texts(written@) =~= Seq::<Seq<char>>::empty());
                return TickReport {
                    written,
                    state: self.state,
                    cpu_temp: cpu,
                    armed,
                    countdown: self.countdown,
                };
            },
            LoopState::Running => {},
        }
        if self.countdown < u64::MAX {
            self.countdown = self.countdown + 1;
        }
        let starved: bool = match self.policy {
            TerminationPolicy::CaptureLimit { .. } => false,
            TerminationPolicy::TemperatureTrigger { .. } => cpu.is_none(),
        };
        if starved {
            let written: Vec<String> = self.session.finalize(trailer(elapsed_secs, None));
            self.state = LoopState::Terminated(StopReason::SensorUnavailable);
            assert(self@.buffer =~= Seq::<Seq<char>>::empty());
            return TickReport {
                written,
                state: self.state,
                cpu_temp: cpu,
                armed,
                countdown: self.countdown,
            };
        }
        let mut written: Vec<String> = record_frame(&mut self.session, sensors, self.record_unknown);
        let cpu_temp: u32 = match cpu {
            Some(temp) => temp,
            None => 0,
        };
        let reason: Option<StopReason> = match self.policy {
            TerminationPolicy::CaptureLimit { target } => if self.countdown >= target {
                Some(StopReason::TargetReached)
            } else {
                None
            },
            TerminationPolicy::TemperatureTrigger { upper_bound, .. } => if cpu_temp > upper_bound {
                Some(StopReason::LimitExceeded)
            } else {
                None
            },
        };
        match reason {
            Some(r) => {
                let ghost flushed = texts(written@);
                let ghost kept = texts(self.session.buffer@);
                let mut rest: Vec<String> = self.session.finalize(
                    trailer(elapsed_secs, Some(cpu_temp)),
                );
                let ghost rest_texts = texts(rest@);
                written.append(&mut rest);
                self.state = LoopState::Terminated(r);
                proof {
                    assert(texts(written@) =~= flushed + rest_texts);
                    assert(flushed + (kept + trailer_lines(elapsed_secs, Some(cpu_temp))) =~= flushed
                        + kept + trailer_lines(elapsed_secs, Some(cpu_temp)));
                    assert(self@.buffer =~= Seq::<Seq<char>>::empty());
                }
            },
            None => {},
        }
        TickReport { written, state: self.state, cpu_temp: cpu, armed, countdown: self.countdown }
    }
}

/// Starts a run that ends after the number of captures that the settings
/// give.
pub fn by_capture_limit(passers: &ArgumentPassers, session: SessionFile) -> (engine: CaptureEngine)
    ensures
        engine@ == (EngineModel {
            id: session.id,
            policy: TerminationPolicy::CaptureLimit { target: passers.amount_captures },
            state: LoopState::Running,
            countdown: 0,
            buffer: texts(session.buffer@),
            flush_interval: session.flush_interval,
            record_unknown: false,
        }),
        engine@.wf(),
{
    CaptureEngine {
        policy: TerminationPolicy::capture_limit(passers.amount_captures),
        state: LoopState::Running,
        countdown: 0,
        session,
        record_unknown: false,
    }
}

/// Starts a run that ends once the processor is hotter than the end
/// temperature of the settings; refused unless the end temperature is above
/// the initial one.
pub fn trigger_by_temperature(passers: &ArgumentPassers, session: SessionFile) -> (engine: Result<
    CaptureEngine,
    ConfigError,
>)
    ensures
        match engine {
            Ok(e) => {
                &&& passers.end_temperature > passers.initial_temperature
                &&& e@ == (EngineModel {
                    id: session.id,
                    policy: TerminationPolicy::TemperatureTrigger {
                        lower_bound: passers.initial_temperature,
                        upper_bound: passers.end_temperature,
                    },
                    state: LoopState::Running,
                    countdown: 0,
                    buffer: texts(session.buffer@),
                    flush_interval: session.flush_interval,
                    record_unknown: false,
                })
                &&& e@.wf()
            },
            Err(e) => e == ConfigError::BoundsNotOrdered && passers.end_temperature
                <= passers.initial_temperature,
        },
{
    match TerminationPolicy::temperature_trigger(
        passers.initial_temperature,
        passers.end_temperature,
    ) {
        Ok(policy) => CaptureEngine::new(policy, session, false),
        Err(e) => Err(e),
    }
}

} // verus!
