use twatch::cli::default_settings;
use twatch::sensors::SensorLabel;
use twatch::session::{
    next_session_id, record_frame, record_text, session_file_name_of, session_path_of,
    session_writter, trailer, SessionFile, FLUSH_INTERVAL,
};

fn sensor(label: &str, cpu: bool, gpu: bool, nvme: bool, temp: u32) -> SensorLabel {
    SensorLabel { label: label.to_string(), is_cpu: cpu, is_amd_gpu: gpu, is_nvme: nvme, temp }
}

fn names(list: &[&str]) -> Vec<String> {
    list.iter().map(|s| s.to_string()).collect()
}

#[test]
fn first_session_is_number_zero() {
    assert_eq!(next_session_id(&names(&[])), Some(0));
    assert_eq!(next_session_id(&names(&["notes.txt", "session_.csv", "session_00.csv"])), Some(0));
}

#[test]
fn next_session_takes_the_smallest_free_number() {
    assert_eq!(next_session_id(&names(&["session_0.csv", "session_1.csv"])), Some(2));
    assert_eq!(next_session_id(&names(&["session_1.csv", "session_0.csv", "session_3.csv"])), Some(2));
    assert_eq!(next_session_id(&names(&["session_1.csv", "session_2.csv"])), Some(0));
}

#[test]
fn two_sessions_in_a_row_differ_by_one() {
    let mut list = names(&["session_0.csv", "session_1.csv", "session_2.csv"]);
    let first = next_session_id(&list).unwrap();
    list.push(session_file_name_of(first));
    let second = next_session_id(&list).unwrap();
    assert_eq!(first, 3);
    assert_eq!(second, first + 1);
}

#[test]
fn a_gap_is_filled_before_the_numbers_go_on() {
    let mut list = names(&["session_0.csv", "session_2.csv"]);
    let first = next_session_id(&list).unwrap();
    list.push(session_file_name_of(first));
    let second = next_session_id(&list).unwrap();
    assert_eq!(first, 1);
    assert_eq!(second, 3);
    assert!(second > first);
}

#[test]
fn session_names_are_written_in_decimal() {
    assert_eq!(session_file_name_of(0), "session_0.csv");
    assert_eq!(session_file_name_of(10), "session_10.csv");
    assert_eq!(session_file_name_of(u32::MAX), "session_4294967295.csv");
    assert_eq!(session_path_of(7), "session/session_7.csv");
    assert_eq!(session_path_of(120), "session/session_120.csv");
}

#[test]
fn fresh_session_opens_with_delay_and_heading() {
    let (_, mut passers) = default_settings();
    passers.ms_delay = 125;
    let start = session_writter(&passers, &names(&["session_0.csv"])).unwrap();
    assert_eq!(start.session.id, 1);
    assert!(start.session.buffer.is_empty());
    assert_eq!(start.session.flush_interval, 50);
    assert_eq!(FLUSH_INTERVAL, 50);
    assert_eq!(start.path, "session/session_1.csv");
    assert_eq!(start.preamble, vec!["# Delay:125".to_string(), "Type,Label,Temp".to_string()]);
}

#[test]
fn record_line_holds_class_label_and_temperature() {
    assert_eq!(record_text(&sensor("Package id 0", true, false, false, 45)), "CPU,Package id 0,45");
    assert_eq!(record_text(&sensor("edge", false, true, false, 0)), "GPU,edge,0");
    assert_eq!(record_text(&sensor("Composite", false, false, true, 4294967295)), "NVMe,Composite,4294967295");
    assert_eq!(record_text(&sensor("temp1", false, false, false, 30)), "Unknown,temp1,30");
    assert_eq!(record_text(&sensor("", true, true, true, 7)), "CPU,,7");
}

#[test]
fn closing_lines_hold_seconds_and_exit_temperature() {
    assert_eq!(trailer(12, Some(71)), vec!["#Total: 12".to_string(), "CPU,Exit,71".to_string()]);
    assert_eq!(trailer(0, Some(0)), vec!["#Total: 0".to_string(), "CPU,Exit,0".to_string()]);
    assert_eq!(trailer(18446744073709551615, None), vec!["#Total: 18446744073709551615".to_string()]);
}

#[test]
fn buffer_is_written_when_it_reaches_the_threshold() {
    let mut session = SessionFile { id: 0, buffer: Vec::new(), flush_interval: 3 };
    assert!(session.append("a".to_string()).is_empty());
    assert_eq!(session.buffer.len(), 1);
    assert!(session.append("b".to_string()).is_empty());
    assert_eq!(session.buffer.len(), 2);
    let flushed = session.append("c".to_string());
    assert_eq!(flushed, vec!["a".to_string(), "b".to_string(), "c".to_string()]);
    assert_eq!(session.buffer.len(), 0);
    assert!(session.append("d".to_string()).is_empty());
    assert_eq!(session.buffer, vec!["d".to_string()]);
    assert_eq!(session.id, 0);
    assert_eq!(session.flush_interval, 3);
}

#[test]
fn buffer_never_holds_more_than_the_threshold() {
    let mut session = SessionFile { id: 4, buffer: Vec::new(), flush_interval: FLUSH_INTERVAL };
    let mut written: Vec<String> = Vec::new();
    for i in 0..175 {
        let flushed = session.append(format!("CPU,Core0,{}", i));
        assert!(session.buffer.len() < FLUSH_INTERVAL + 1);
        if !flushed.is_empty() {
            assert_eq!(flushed.len(), FLUSH_INTERVAL);
            assert_eq!(session.buffer.len(), 0);
        }
        written.extend(flushed);
    }
    assert_eq!(written.len(), 150);
    assert_eq!(session.buffer.len(), 25);
    assert_eq!(written[0], "CPU,Core0,0");
    assert_eq!(written[149], "CPU,Core0,149");
    assert_eq!(session.buffer[0], "CPU,Core0,150");
}

#[test]
fn threshold_of_zero_or_one_writes_every_record() {
    let mut session = SessionFile { id: 0, buffer: Vec::new(), flush_interval: 0 };
    assert_eq!(session.append("a".to_string()), vec!["a".to_string()]);
    assert!(session.buffer.is_empty());
    let mut session = SessionFile { id: 0, buffer: Vec::new(), flush_interval: 1 };
    assert_eq!(session.append("a".to_string()), vec!["a".to_string()]);
    assert_eq!(session.append("b".to_string()), vec!["b".to_string()]);
    assert!(session.buffer.is_empty());
}

#[test]
fn closing_drains_the_buffer_before_the_closing_lines() {
    let mut session = SessionFile { id: 0, buffer: Vec::new(), flush_interval: 50 };
    session.append("CPU,Core0,40".to_string());
    session.append("GPU,edge,50".to_string());
    let written = session.finalize(trailer(3, Some(40)));
    assert_eq!(
        written,
        vec![
            "CPU,Core0,40".to_string(),
            "GPU,edge,50".to_string(),
            "#Total: 3".to_string(),
            "CPU,Exit,40".to_string()
        ]
    );
    assert!(session.buffer.is_empty());
}

#[test]
fn frame_records_known_classes_in_order() {
    let mut session = SessionFile { id: 0, buffer: Vec::new(), flush_interval: 50 };
    let snapshot = vec![
        sensor("Package id 0", true, false, false, 45),
        sensor("temp1", false, false, false, 30),
        sensor("edge", false, true, false, 50),
        sensor("Composite", false, false, true, 38),
    ];
    let written = record_frame(&mut session, &snapshot, false);
    assert!(written.is_empty());
    assert_eq!(
        session.buffer,
        vec!["CPU,Package id 0,45".to_string(), "GPU,edge,50".to_string(), "NVMe,Composite,38".to_string()]
    );
}

#[test]
fn frame_records_unknown_classes_on_request() {
    let mut session = SessionFile { id: 0, buffer: Vec::new(), flush_interval: 50 };
    let snapshot = vec![sensor("temp1", false, false, false, 30), sensor("Core 0", true, false, false, 41)];
    let written = record_frame(&mut session, &snapshot, true);
    assert!(written.is_empty());
    assert_eq!(session.buffer, vec!["Unknown,temp1,30".to_string(), "CPU,Core 0,41".to_string()]);
}

#[test]
fn frame_hands_back_what_the_buffer_gives_up() {
    let mut session = SessionFile { id: 0, buffer: vec!["old".to_string()], flush_interval: 2 };
    let snapshot = vec![
        sensor("a", true, false, false, 1),
        sensor("b", true, false, false, 2),
        sensor("c", true, false, false, 3),
        sensor("d", true, false, false, 4),
    ];
    let written = record_frame(&mut session, &snapshot, false);
    assert_eq!(
        written,
        vec!["old".to_string(), "CPU,a,1".to_string(), "CPU,b,2".to_string(), "CPU,c,3".to_string()]
    );
    assert_eq!(session.buffer, vec!["CPU,d,4".to_string()]);
}
