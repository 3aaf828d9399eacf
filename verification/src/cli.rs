//! What the command line asked for, and which run follows from it.

use crate::text::{chars_of, parse_u32, parse_u64, parse_unsigned_within, same_chars};
use vstd::prelude::*;

verus! {

/// The settings of a run, as the command line gave them.
#[derive(Clone, Copy, Debug, PartialEq, Eq, Structural)]
pub struct ArgumentPassers {
    pub is_by_temperature: bool,
    pub is_by_capture: bool,
    pub plot_latest: bool,
    pub ms_delay: u64,
    pub amount_captures: u64,
    pub initial_temperature: u32,
    pub end_temperature: u32,
    pub session_exists: bool,
}

/// The kind of quantity that a run watches.
#[derive(Clone, Copy, Debug, PartialEq, Eq, Structural)]
pub struct SessionType {
    pub is_power: bool,
    pub is_temperature: bool,
    pub is_generic: bool,
}

/// What a run does.
#[derive(Clone, Copy, Debug, PartialEq, Eq, Structural)]
pub enum RunMode {
    /// Show the power that the battery gives.
    PowerUsage,
    /// Capture until the processor is hotter than the upper bound.
    TriggerByTemperature,
    /// Capture a given number of ticks.
    ByCaptureLimit,
    /// Plot the latest session.
    PlotLatest,
    /// Say that there is no session to work on.
    MissingSession,
    /// Nothing is left to do.
    Idle,
}

/// The run that the settings ask for. Power comes first where temperature
/// is not asked for too; a capture by temperature needs both of its flags
/// and neither of the others; a capture by count needs its own flag and
/// not that of the temperature; then the plot; then the missing session.
pub open spec fn run_mode(session_type: SessionType, passers: ArgumentPassers) -> RunMode {
    if session_type.is_power && !session_type.is_temperature {
        RunMode::PowerUsage
    } else if session_type.is_temperature && passers.is_by_temperature && !session_type.is_power
        && !passers.is_by_capture {
        RunMode::TriggerByTemperature
    } else if !passers.is_by_temperature && passers.is_by_capture {
        RunMode::ByCaptureLimit
    } else if passers.plot_latest {
        RunMode::PlotLatest
    } else if !passers.session_exists {
        RunMode::MissingSession
    } else {
        RunMode::Idle
    }
}

/// The settings before any argument is read.
pub fn default_settings() -> (r: (SessionType, ArgumentPassers))
    ensures
        r.0 == (SessionType { is_power: false, is_temperature: false, is_generic: false }),
        r.1 == (ArgumentPassers {
            is_by_temperature: false,
            is_by_capture: false,
            plot_latest: false,
            ms_delay: 250,
            amount_captures: 250,
            initial_temperature: 40,
            end_temperature: 70,
            session_exists: false,
        }),
{
    (
        SessionType { is_power: false, is_temperature: false, is_generic: false },
        ArgumentPassers {
            is_by_temperature: false,
            is_by_capture: false,
            plot_latest: false,
            ms_delay: 250,
            amount_captures: 250,
            initial_temperature: 40,
            end_temperature: 70,
            session_exists: false,
        },
    )
}

/// Decides which run the settings ask for.
pub fn args_processor(session_type: &SessionType, passers: &ArgumentPassers) -> (mode: RunMode)
    ensures
        mode == run_mode(*session_type, *passers),
{
    if session_type.is_power && !session_type.is_temperature {
        RunMode::PowerUsage
    } else if session_type.is_temperature && passers.is_by_temperature && !session_type.is_power
        && !passers.is_by_capture {
        RunMode::TriggerByTemperature
    } else if !passers.is_by_temperature && passers.is_by_capture {
        RunMode::ByCaptureLimit
    } else if passers.plot_latest {
        RunMode::PlotLatest
    } else if !passers.session_exists {
        RunMode::MissingSession
    } else {
        RunMode::Idle
    }
}

/// Notes whether the session directory was found; says whether it was.
/// A directory noted before stays noted.
pub fn session_selector(arg_passers: &mut ArgumentPassers, found_session: bool) -> (found: bool)
    ensures
        found == found_session,
        *final(arg_passers) == (ArgumentPassers {
            session_exists: old(arg_passers).session_exists || found_session,
            ..*old(arg_passers)
        }),
{
    if found_session {
        arg_passers.session_exists = true;
    }
    found_session
}

/// An option of the command line.
#[derive(Clone, Copy, Debug, PartialEq, Eq, Structural)]
pub enum Flag {
    ByTemperature,
    Help,
    PlotLatest,
    Delay,
    Captures,
    InitialTemperature,
    EndTemperature,
    CurrentTemperature,
    ByCaptureLimit,
    ByWatts,
    WindowTest,
}

/// Something that an argument asks to be done at once.
#[derive(Debug)]
pub enum ArgNote {
    /// Show the options.
    Help,
    /// Show the processor temperature.
    CurrentTemperature,
    /// Show the plot window.
    WindowTest,
    /// Say that the argument is none of the options.
    Invalid(String),
}

/// The model of an `ArgNote`.
pub enum Note {
    Help,
    CurrentTemperature,
    WindowTest,
    Invalid(Seq<char>),
}

impl View for ArgNote {
    type V = Note;

    open spec fn view(&self) -> Note {
        match *self {
            ArgNote::Help => Note::Help,
            ArgNote::CurrentTemperature => Note::CurrentTemperature,
            ArgNote::WindowTest => Note::WindowTest,
            ArgNote::Invalid(arg) => Note::Invalid(arg@),
        }
    }
}

/// What the arguments of the command line come to.
#[derive(Debug)]
pub struct Arguments {
    pub session_type: SessionType,
    pub passers: ArgumentPassers,
    /// What is to be done at once, in the order of the arguments.
    pub notes: Vec<ArgNote>,
}

/// The model of `Arguments`.
pub struct Settings {
    pub session_type: SessionType,
    pub passers: ArgumentPassers,
    pub notes: Seq<Note>,
}

impl View for Arguments {
    type V = Settings;

    open spec fn view(&self) -> Settings {
        Settings {
            session_type: self.session_type,
            passers: self.passers,
            notes: Seq::new(self.notes@.len(), |i: int| self.notes@[i]@),
        }
    }
}

/// The settings before any argument is read.
pub open spec fn initial_settings() -> Settings {
    Settings {
        session_type: SessionType { is_power: false, is_temperature: false, is_generic: false },
        passers: ArgumentPassers {
            is_by_temperature: false,
            is_by_capture: false,
            plot_latest: false,
            ms_delay: 250,
            amount_captures: 250,
            initial_temperature: 40,
            end_temperature: 70,
            session_exists: false,
        },
        notes: Seq::empty(),
    }
}

/// The option that an argument names, in its short or its long form.
pub open spec fn flag_of(arg: Seq<char>) -> Option<Flag> {
    if arg == "-bt"@ || arg == "--by-temperature"@ {
        Some(Flag::ByTemperature)
    } else if arg == "-h"@ || arg == "--help"@ {
        Some(Flag::Help)
    } else if arg == "-pl"@ || arg == "--plot-latest"@ {
        Some(Flag::PlotLatest)
    } else if arg == "-d"@ || arg == "--delay"@ {
        Some(Flag::Delay)
    } else if arg == "-c"@ || arg == "--captures"@ {
        Some(Flag::Captures)
    } else if arg == "-it"@ || arg == "--initial-temperature"@ {
        Some(Flag::InitialTemperature)
    } else if arg == "-et"@ || arg == "--end-temperature"@ {
        Some(Flag::EndTemperature)
    } else if arg == "-ct"@ || arg == "--current-temperature"@ {
        Some(Flag::CurrentTemperature)
    } else if arg == "-bl"@ || arg == "--by-capture-limit"@ {
        Some(Flag::ByCaptureLimit)
    } else if arg == "-bw"@ || arg == "--by-watts"@ {
        Some(Flag::ByWatts)
    } else if arg == "-wl"@ || arg == "--window-test"@ {
        Some(Flag::WindowTest)
    } else {
        None
    }
}

/// Whether an option is followed by its value.
pub open spec fn takes_value(flag: Flag) -> bool {
    flag == Flag::Delay || flag == Flag::Captures || flag == Flag::InitialTemperature || flag
        == Flag::EndTemperature
}

/// The number that a value denotes, or `fallback` where it denotes none
/// that `max` admits.
pub open spec fn number_or(value: Seq<char>, max: nat, fallback: nat) -> nat {
    match parse_unsigned_within(value, max) {
        Some(n) => n,
        None => fallback,
    }
}

/// The settings after an option that has no value.
pub open spec fn with_flag(s: Settings, flag: Flag) -> Settings {
    match flag {
        Flag::ByTemperature => Settings {
            session_type: SessionType { is_temperature: true, ..s.session_type },
            passers: ArgumentPassers { is_by_temperature: true, ..s.passers },
            ..s
        },
        Flag::Help => Settings { notes: s.notes.push(Note::Help), ..s },
        Flag::PlotLatest => Settings {
            passers: ArgumentPassers { plot_latest: true, ..s.passers },
            ..s
        },
        Flag::CurrentTemperature => Settings {
            notes: s.notes.push(Note::CurrentTemperature),
            ..s
        },
        Flag::ByCaptureLimit => Settings {
            passers: ArgumentPassers { is_by_capture: true, ..s.passers },
            ..s
        },
        Flag::ByWatts => Settings {
            session_type: SessionType { is_power: true, ..s.session_type },
            ..s
        },
        Flag::WindowTest => Settings {
            session_type: SessionType { is_generic: true, ..s.session_type },
            notes: s.notes.push(Note::WindowTest),
            ..s
        },
        _ => s,
    }
}

/// The settings after an option and its value. A value that is no number
/// gives 250 milliseconds of delay, 500 captures, 45 degrees to start at
/// and 70 degrees to end at.
pub open spec fn with_value(s: Settings, flag: Flag, value: Seq<char>) -> Settings {
    match flag {
        Flag::Delay => Settings {
            passers: ArgumentPassers {
                ms_delay: number_or(value, u64::MAX as nat, 250) as u64,
                ..s.passers
            },
            ..s
        },
        Flag::Captures => Settings {
            passers: ArgumentPassers {
                amount_captures: number_or(value, u64::MAX as nat, 500) as u64,
                ..s.passers
            },
            ..s
        },
        Flag::InitialTemperature => Settings {
            passers: ArgumentPassers {
                initial_temperature: number_or(value, u32::MAX as nat, 45) as u32,
                ..s.passers
            },
            ..s
        },
        Flag::EndTemperature => Settings {
            passers: ArgumentPassers {
                end_temperature: number_or(value, u32::MAX as nat, 70) as u32,
                ..s.passers
            },
            ..s
        },
        _ => s,
    }
}

/// The settings after all arguments, read from the left. An option that
/// takes a value takes the argument after it, whatever that is; where it
/// is the last argument it changes nothing. An argument that names no
/// option is noted as invalid.
pub open spec fn scan(args: Seq<Seq<char>>, s: Settings) -> Settings
    decreases args.len(),
{
    if args.len() == 0 {
        s
    } else {
        match flag_of(args[0]) {
            None => scan(
                args.skip(1),
                Settings { notes: s.notes.push(Note::Invalid(args[0])), ..s },
            ),
            Some(flag) => if !takes_value(flag) {
                scan(args.skip(1), with_flag(s, flag))
            } else if args.len() > 1 {
                scan(args.skip(2), with_value(s, flag, args[1]))
            } else {
                scan(args.skip(1), s)
            },
        }
    }
}

/// The texts of the arguments.
pub open spec fn arg_texts(args: Seq<String>) -> Seq<Seq<char>> {
    Seq::new(args.len(), |i: int| args[i]@)
}

/// Whether `arg` is one of two spellings.
fn is_either(arg: &Vec<char>, short: &str, long: &str) -> (r: bool)
    ensures
        r == (arg@ == short@ || arg@ == long@),
{
    same_chars(arg, &chars_of(short)) || same_chars(arg, &chars_of(long))
}

/// The option that an argument names.
pub fn flag_from(arg: &str) -> (flag: Option<Flag>)
    ensures
        flag == flag_of(arg@),
{
    let a: Vec<char> = chars_of(arg);
    if is_either(&a, "-bt", "--by-temperature") {
        Some(Flag::ByTemperature)
    } else if is_either(&a, "-h", "--help") {
        Some(Flag::Help)
    } else if is_either(&a, "-pl", "--plot-latest") {
        Some(Flag::PlotLatest)
    } else if is_either(&a, "-d", "--delay") {
        Some(Flag::Delay)
    } else if is_either(&a, "-c", "--captures") {
        Some(Flag::Captures)
    } else if is_either(&a, "-it", "--initial-temperature") {
        Some(Flag::InitialTemperature)
    } else if is_either(&a, "-et", "--end-temperature") {
        Some(Flag::EndTemperature)
    } else if is_either(&a, "-ct", "--current-temperature") {
        Some(Flag::CurrentTemperature)
    } else if is_either(&a, "-bl", "--by-capture-limit") {
        Some(Flag::ByCaptureLimit)
    } else if is_either(&a, "-bw", "--by-watts") {
        Some(Flag::ByWatts)
    } else if is_either(&a, "-wl", "--window-test") {
        Some(Flag::WindowTest)
    } else {
        None
    }
}

/// Whether an option is followed by its value.
pub fn needs_value(flag: Flag) -> (r: bool)
    ensures
        r == takes_value(flag),
{
    match flag {
        Flag::Delay => true,
        Flag::Captures => true,
        Flag::InitialTemperature => true,
        Flag::EndTemperature => true,
        _ => false,
    }
}

impl Arguments {
    /// Takes in an option that has no value.
    fn set_flag(&mut self, flag: Flag)
        requires
            !takes_value(flag),
        ensures
            final(self)@ == with_flag(old(self)@, flag),
    {
        match flag {
            Flag::ByTemperature => {
                self.session_type.is_temperature = true;
                self.passers.is_by_temperature = true;
                assert(self@.notes =~= old(self)@.notes);
            },
            Flag::Help => {
                self.notes.push(ArgNote::Help);
                assert(self@.notes =~= old(self)@.notes.push(Note::Help));
            },
            Flag::PlotLatest => {
                self.passers.plot_latest = true;
                assert(self@.notes =~= old(self)@.notes);
            },
            Flag::CurrentTemperature => {
                self.notes.push(ArgNote::CurrentTemperature);
                assert(self@.notes =~= old(self)@.notes.push(Note::CurrentTemperature));
            },
            Flag::ByCaptureLimit => {
                self.passers.is_by_capture = true;
                assert(self@.notes =~= old(self)@.notes);
            },
            Flag::ByWatts => {
                self.session_type.is_power = true;
                assert(self@.notes =~= old(self)@.notes);
            },
            Flag::WindowTest => {
                self.session_type.is_generic = true;
                self.notes.push(ArgNote::WindowTest);
                assert(self@.notes =~= old(self)@.notes.push(Note::WindowTest));
            },
            _ => {},
        }
    }

    /// Takes in an option and its value.
    fn set_value(&mut self, flag: Flag, value: &str)
        requires
            takes_value(flag),
        ensures
            final(self)@ == with_value(old(self)@, flag, value@),
    {
        let text: Vec<char> = chars_of(value);
        match flag {
            Flag::Delay => {
                self.passers.ms_delay = match parse_u64(&text) {
                    Some(n) => n,
                    None => 250,
                };
            },
            Flag::Captures => {
                self.passers.amount_captures = match parse_u64(&text) {
                    Some(n) => n,
                    None => 500,
                };
            },
            Flag::InitialTemperature => {
                self.passers.initial_temperature = match parse_u32(&text) {
                    Some(n) => n,
                    None => 45,
                };
            },
            Flag::EndTemperature => {
                self.passers.end_temperature = match parse_u32(&text) {
                    Some(n) => n,
                    None => 70,
                };
            },
            _ => {},
        }
        assert(self@.notes =~= old(self)@.notes);
    }

    /// Notes an argument that names no option.
    fn set_invalid(&mut self, arg: &str)
        ensures
            final(self)@ == (Settings {
                notes: old(self)@.notes.push(Note::Invalid(arg@)),
                ..old(self)@
            }),
    {
        self.notes.push(ArgNote::Invalid(arg.to_owned()));
        assert(self@.notes =~= old(self)@.notes.push(Note::Invalid(arg@)));
    }
}

/// Reads the arguments of the command line, the name of the program left
/// out.
pub fn scan_arguments(args: &Vec<String>) -> (result: Arguments)
    ensures
        result@ == scan(arg_texts(args@), initial_settings()),
{
    let ghost all = arg_texts(args@);
    let start = default_settings();
    let mut result = Arguments { session_type: start.0, passers: start.1, notes: Vec::new() };
    let mut i: usize = 0;
    proof {
        assert(all.skip(0) =~= all);
        assert(result@.notes =~= Seq::<Note>::empty());
    }
    while i < args.len()
        invariant
            i <= args.len(),
            all == arg_texts(args@),
            scan(all, initial_settings()) == scan(all.skip(i as int), result@),
        decreases args.len() - i,
    {
        let ghost rest = all.skip(i as int);
        proof {
            assert(rest[0] == args@[i as int]@);
            assert(rest.skip(1) =~= all.skip(i + 1));
        }
        match flag_from(args[i].as_str()) {
            None => {
                result.set_invalid(args[i].as_str());
                i += 1;
            },
            Some(flag) => {
                if !needs_value(flag) {
                    result.set_flag(flag);
                    i += 1;
                } else if i + 1 < args.len() {
                    proof {
                        assert(rest[1] == args@[i + 1]@);
                        assert(rest.skip(2) =~= all.skip(i + 2));
                    }
                    result.set_value(flag, args[i + 1].as_str());
                    i += 2;
                } else {
                    i += 1;
                }
            },
        }
    }
    result
}

} // verus!
