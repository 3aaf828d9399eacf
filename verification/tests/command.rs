use twatch::capture::{LoopState, StopReason, TerminationPolicy, TickReport};
use twatch::cli::{
    args_processor, default_settings, flag_from, needs_value, scan_arguments, session_selector,
    ArgNote, ArgumentPassers, Flag, RunMode, SessionType,
};
use twatch::display::{frame_text, status_header, status_text};
use twatch::sensors::SensorLabel;

fn args(list: &[&str]) -> Vec<String> {
    list.iter().map(|s| s.to_string()).collect()
}

fn kinds(flags: (bool, bool, bool)) -> SessionType {
    SessionType { is_power: flags.0, is_temperature: flags.1, is_generic: flags.2 }
}

fn passers(by_temperature: bool, by_capture: bool, plot: bool, exists: bool) -> ArgumentPassers {
    let (_, mut p) = default_settings();
    p.is_by_temperature = by_temperature;
    p.is_by_capture = by_capture;
    p.plot_latest = plot;
    p.session_exists = exists;
    p
}

#[test]
fn settings_start_from_their_defaults() {
    let (kind, p) = default_settings();
    assert_eq!(kind, kinds((false, false, false)));
    assert_eq!(
        p,
        ArgumentPassers {
            is_by_temperature: false,
            is_by_capture: false,
            plot_latest: false,
            ms_delay: 250,
            amount_captures: 250,
            initial_temperature: 40,
            end_temperature: 70,
            session_exists: false,
        }
    );
    let scanned = scan_arguments(&args(&[]));
    assert_eq!(scanned.session_type, kind);
    assert_eq!(scanned.passers, p);
    assert!(scanned.notes.is_empty());
}

#[test]
fn run_follows_from_the_settings() {
    assert_eq!(args_processor(&kinds((true, false, false)), &passers(true, true, true, true)), RunMode::PowerUsage);
    assert_eq!(args_processor(&kinds((false, true, false)), &passers(true, false, true, true)), RunMode::TriggerByTemperature);
    assert_eq!(args_processor(&kinds((true, true, false)), &passers(true, false, true, true)), RunMode::PlotLatest);
    assert_eq!(args_processor(&kinds((false, true, false)), &passers(true, true, false, true)), RunMode::Idle);
    assert_eq!(args_processor(&kinds((false, false, false)), &passers(false, true, true, true)), RunMode::ByCaptureLimit);
    assert_eq!(args_processor(&kinds((true, true, false)), &passers(false, true, false, false)), RunMode::ByCaptureLimit);
    assert_eq!(args_processor(&kinds((false, false, false)), &passers(false, false, true, false)), RunMode::PlotLatest);
    assert_eq!(args_processor(&kinds((false, false, true)), &passers(false, false, false, false)), RunMode::MissingSession);
    assert_eq!(args_processor(&kinds((false, false, false)), &passers(true, false, false, false)), RunMode::MissingSession);
    assert_eq!(args_processor(&kinds((false, false, false)), &passers(false, false, false, true)), RunMode::Idle);
}

#[test]
fn found_session_directory_is_noted() {
    let (_, mut p) = default_settings();
    assert!(!session_selector(&mut p, false));
    assert!(!p.session_exists);
    assert!(session_selector(&mut p, true));
    assert!(p.session_exists);
    assert!(!session_selector(&mut p, false));
    assert!(p.session_exists);
    assert_eq!(p.ms_delay, 250);
    assert_eq!(p.end_temperature, 70);
}

#[test]
fn options_have_a_short_and_a_long_form() {
    let table = [
        ("-bt", "--by-temperature", Flag::ByTemperature),
        ("-h", "--help", Flag::Help),
        ("-pl", "--plot-latest", Flag::PlotLatest),
        ("-d", "--delay", Flag::Delay),
        ("-c", "--captures", Flag::Captures),
        ("-it", "--initial-temperature", Flag::InitialTemperature),
        ("-et", "--end-temperature", Flag::EndTemperature),
        ("-ct", "--current-temperature", Flag::CurrentTemperature),
        ("-bl", "--by-capture-limit", Flag::ByCaptureLimit),
        ("-bw", "--by-watts", Flag::ByWatts),
        ("-wl", "--window-test", Flag::WindowTest),
    ];
    for (short, long, flag) in table {
        assert_eq!(flag_from(short), Some(flag));
        assert_eq!(flag_from(long), Some(flag));
        assert_eq!(
            needs_value(flag),
            matches!(flag, Flag::Delay | Flag::Captures | Flag::InitialTemperature | Flag::EndTemperature)
        );
    }
    for bad in ["", "-", "--", "-x", "-BT", "--help ", "help", "-dd", "--initial_temperature"] {
        assert_eq!(flag_from(bad), None, "{:?}", bad);
    }
}

#[test]
fn capture_by_temperature_is_scanned() {
    let scanned = scan_arguments(&args(&["-bt", "-it", "45", "--end-temperature", "80", "-d", "100"]));
    assert_eq!(scanned.session_type, kinds((false, true, false)));
    assert!(scanned.passers.is_by_temperature);
    assert!(!scanned.passers.is_by_capture);
    assert_eq!(scanned.passers.initial_temperature, 45);
    assert_eq!(scanned.passers.end_temperature, 80);
    assert_eq!(scanned.passers.ms_delay, 100);
    assert_eq!(scanned.passers.amount_captures, 250);
    assert!(scanned.notes.is_empty());
    assert_eq!(args_processor(&scanned.session_type, &scanned.passers), RunMode::TriggerByTemperature);
}

#[test]
fn capture_by_count_is_scanned() {
    let scanned = scan_arguments(&args(&["--by-capture-limit", "-c", "12"]));
    assert!(scanned.passers.is_by_capture);
    assert_eq!(scanned.passers.amount_captures, 12);
    assert_eq!(args_processor(&scanned.session_type, &scanned.passers), RunMode::ByCaptureLimit);
}

#[test]
fn value_that_is_no_number_gives_the_fallback() {
    let scanned = scan_arguments(&args(&["-d", "soon", "-c", "-3", "-it", "warm", "-et", "4294967296"]));
    assert_eq!(scanned.passers.ms_delay, 250);
    assert_eq!(scanned.passers.amount_captures, 500);
    assert_eq!(scanned.passers.initial_temperature, 45);
    assert_eq!(scanned.passers.end_temperature, 70);
    assert!(scanned.notes.is_empty());
}

#[test]
fn option_takes_the_argument_after_it_as_its_value() {
    let scanned = scan_arguments(&args(&["-d", "-bt", "-c"]));
    assert_eq!(scanned.passers.ms_delay, 250);
    assert!(!scanned.passers.is_by_temperature);
    assert_eq!(scanned.passers.amount_captures, 250);
    assert!(scanned.notes.is_empty());
    let scanned = scan_arguments(&args(&["-c", "5", "-c", "9", "-c"]));
    assert_eq!(scanned.passers.amount_captures, 9);
}

#[test]
fn notes_keep_the_order_of_the_arguments() {
    let scanned = scan_arguments(&args(&["-ct", "bogus", "-h", "--window-test", "-pl", "-bw", "-h", "7"]));
    assert_eq!(scanned.session_type, kinds((true, false, true)));
    assert!(scanned.passers.plot_latest);
    let shown: Vec<String> = scanned
        .notes
        .iter()
        .map(|n| match n {
            ArgNote::Help => "help".to_string(),
            ArgNote::CurrentTemperature => "temperature".to_string(),
            ArgNote::WindowTest => "window".to_string(),
            ArgNote::Invalid(arg) => format!("invalid {}", arg),
        })
        .collect();
    assert_eq!(shown, vec!["temperature", "invalid bogus", "help", "window", "help", "invalid 7"]);
}

fn sensor(label: &str, cpu: bool, gpu: bool, nvme: bool, temp: u32) -> SensorLabel {
    SensorLabel { label: label.to_string(), is_cpu: cpu, is_amd_gpu: gpu, is_nvme: nvme, temp }
}

#[test]
fn frame_shows_the_readings_of_known_classes() {
    let snapshot = vec![
        sensor("Package id 0", true, false, false, 45),
        sensor("temp1", false, false, false, 30),
        sensor("edge", false, true, false, 50),
        sensor("Composite", false, false, true, 38),
    ];
    assert_eq!(
        frame_text("head", &snapshot),
        "head\n [CPU] Package id 0: 45\u{b0}C\n [GPU] edge: 50\u{b0}C\n [NVMe] Composite: 38\u{b0}C\u{1b}[J"
    );
    assert_eq!(frame_text("", &vec![]), "\u{1b}[J");
    assert_eq!(frame_text("x", &vec![sensor("t", false, false, false, 1)]), "x\u{1b}[J");
}

#[test]
fn heading_shows_bounds_or_counts() {
    assert_eq!(
        status_header(TerminationPolicy::TemperatureTrigger { lower_bound: 40, upper_bound: 70 }, 9),
        "--- Trigger Monitor ---\nRange: [Start: 40\u{b0}C, End: 70\u{b0}C]"
    );
    assert_eq!(
        status_header(TerminationPolicy::CaptureLimit { target: 250 }, 9),
        "--- Trigger Monitor ---\nCurrent: [9] Target: [250]\n"
    );
}

fn report(state: LoopState, cpu_temp: Option<u32>, armed: bool) -> TickReport {
    TickReport { written: Vec::new(), state, cpu_temp, armed, countdown: 1 }
}

#[test]
fn status_shows_where_the_run_stands() {
    let trigger = TerminationPolicy::TemperatureTrigger { lower_bound: 40, upper_bound: 70 };
    let limit = TerminationPolicy::CaptureLimit { target: 5 };
    assert_eq!(status_text(trigger, &report(LoopState::Running, Some(39), false)), "\nStatus:\nBelow Target");
    assert_eq!(
        status_text(trigger, &report(LoopState::Running, Some(41), true)),
        "\nStatus:\n\u{1b}[33m Trigger Active: 41\u{b0}C >= 40\u{b0}C\u{1b}[0m"
    );
    assert_eq!(
        status_text(trigger, &report(LoopState::Terminated(StopReason::LimitExceeded), Some(71), true)),
        "\nStatus:\n\u{1b}[33m Trigger Active: 71\u{b0}C >= 40\u{b0}C\u{1b}[0m\n\u{1b}[31m Limit reached (71\u{b0}C).\u{1b}[0m"
    );
    assert_eq!(
        status_text(trigger, &report(LoopState::Terminated(StopReason::SensorUnavailable), None, false)),
        "\nStatus:\nBelow Target"
    );
    assert_eq!(status_text(limit, &report(LoopState::Running, Some(41), false)), "");
    assert_eq!(
        status_text(limit, &report(LoopState::Terminated(StopReason::TargetReached), Some(41), false)),
        "\n\u{1b}[31mTarget reached: [5]\u{1b}[0m"
    );
}
