use twatch::plot::{latest_session, parse_session_data, PlotData};

fn parse(text: &str) -> PlotData {
    parse_session_data(text)
}

#[test]
fn first_label_of_a_class_is_chosen() {
    let data = parse("CPU,Core0,40\nCPU,Core1,41\nCPU,Core0,42");
    assert_eq!(data.cpu_temps, vec![40, 42]);
    assert!(data.gpu_temps.is_empty());
    assert!(data.nvme_temps.is_empty());
    assert_eq!(data.max_temp, 42);
}

#[test]
fn line_with_two_fields_is_passed_over() {
    let data = parse("GPU,edge,50\nGPU,Junk\nGPU,edge,52\n");
    assert_eq!(data.gpu_temps, vec![50, 52]);
    assert!(data.cpu_temps.is_empty());
}

#[test]
fn line_with_unreadable_temperature_is_passed_over() {
    let data = parse("CPU,Sensor,abc\nCPU,Sensor,55\nCPU,Sensor,\nCPU,Sensor,56\n");
    assert_eq!(data.cpu_temps, vec![55, 56]);
    assert_eq!(data.max_temp, 56);
}

#[test]
fn unreadable_first_line_does_not_choose_the_label() {
    let data = parse("CPU,Broken,4x\nCPU,Core0,41\nCPU,Broken,43\n");
    assert_eq!(data.cpu_temps, vec![41]);
}

#[test]
fn whole_log_is_read() {
    let text = "# Delay:250\nType,Label,Temp\nCPU,Package id 0,45\nGPU,edge,50\n\
                NVMe,Composite,38\nNVMe,Sensor 1,40\nCPU,Package id 0,47\n#Total: 12\nCPU,Exit,47\n";
    let data = parse(text);
    assert_eq!(data.cpu_temps, vec![45, 47]);
    assert_eq!(data.gpu_temps, vec![50]);
    assert_eq!(data.nvme_temps, vec![38]);
    assert_eq!(data.max_temp, 50);
}

#[test]
fn remarks_and_heading_hold_no_record() {
    let data = parse("#CPU,Core0,99\nType,Label,Temp\nType,CPU,1\n# Delay:250\n");
    assert!(data.cpu_temps.is_empty());
    assert!(data.gpu_temps.is_empty());
    assert!(data.nvme_temps.is_empty());
    assert_eq!(data.max_temp, 0);
}

#[test]
fn exit_line_alone_is_a_processor_record() {
    let data = parse("#Total: 3\nCPU,Exit,71\n");
    assert_eq!(data.cpu_temps, vec![71]);
    assert_eq!(data.max_temp, 71);
}

#[test]
fn unknown_class_belongs_to_no_series() {
    let data = parse("Unknown,temp1,90\nFan,fan1,1200\ncpu,Core0,40\nNVME,Composite,30\n");
    assert!(data.cpu_temps.is_empty());
    assert!(data.gpu_temps.is_empty());
    assert!(data.nvme_temps.is_empty());
    assert_eq!(data.max_temp, 0);
}

#[test]
fn line_with_more_than_three_fields_is_passed_over() {
    let data = parse("CPU,Core0,40,9\nCPU,Core0,42");
    assert_eq!(data.cpu_temps, vec![42]);
    assert_eq!(data.max_temp, 42);
    let data = parse("CPU,Core0,40,extra,fields\nGPU,edge,50,\nNVMe,Composite,30\n");
    assert!(data.cpu_temps.is_empty());
    assert!(data.gpu_temps.is_empty());
    assert_eq!(data.nvme_temps, vec![30]);
}

#[test]
fn line_with_more_than_three_fields_does_not_choose_the_label() {
    let data = parse("CPU,Core1,41,0\nCPU,Core0,40\nCPU,Core1,43\n");
    assert_eq!(data.cpu_temps, vec![40]);
}

#[test]
fn empty_label_is_a_label() {
    let data = parse("GPU,,40\nGPU,edge,41\nGPU,,42\n");
    assert_eq!(data.gpu_temps, vec![40, 42]);
}

#[test]
fn signed_temperatures_are_read() {
    let data = parse("NVMe,Composite,-5\nNVMe,Composite,+7\nNVMe,Composite,-0\n");
    assert_eq!(data.nvme_temps, vec![-5, 7, 0]);
    assert_eq!(data.max_temp, 7);
}

#[test]
fn highest_temperature_is_a_sample_when_all_are_below_zero() {
    let data = parse("CPU,Core0,-3\nCPU,Core0,-9\n");
    assert_eq!(data.cpu_temps, vec![-3, -9]);
    assert_eq!(data.max_temp, -3);
    let data = parse("GPU,edge,-9\nNVMe,Composite,-4\nGPU,edge,-7\n");
    assert_eq!(data.max_temp, -4);
    let data = parse("NVMe,Composite,-9223372036854775808\n");
    assert_eq!(data.max_temp, i64::MIN);
}

#[test]
fn highest_temperature_is_zero_without_samples() {
    assert_eq!(parse("").max_temp, 0);
    assert_eq!(parse("Unknown,x,-5\nCPU,Junk\n").max_temp, 0);
    assert_eq!(parse("CPU,Core0,0\n").max_temp, 0);
}

#[test]
fn highest_temperature_counts_kept_samples_only() {
    let data = parse("CPU,Core0,40\nCPU,Core1,95\nUnknown,x,99\nGPU,edge,60\n");
    assert_eq!(data.cpu_temps, vec![40]);
    assert_eq!(data.gpu_temps, vec![60]);
    assert_eq!(data.max_temp, 60);
}

#[test]
fn temperature_with_space_or_fraction_is_unreadable() {
    let data = parse("CPU,Core0, 40\nCPU,Core0,40 \nCPU,Core0,40.5\nCPU,Core0,4e1\nCPU,Core0,41\n");
    assert_eq!(data.cpu_temps, vec![41]);
}

#[test]
fn temperature_beyond_64_bits_is_unreadable() {
    let data = parse(
        "CPU,a,9223372036854775807\nCPU,a,9223372036854775808\nCPU,a,-9223372036854775808\n\
         CPU,a,-9223372036854775809\nCPU,a,99999999999999999999999999\n",
    );
    assert_eq!(data.cpu_temps, vec![i64::MAX, i64::MIN]);
    assert_eq!(data.max_temp, i64::MAX);
}

#[test]
fn carriage_returns_before_line_feeds_are_dropped() {
    let data = parse("CPU,Core0,40\r\nCPU,Core0,41\r\nGPU,edge,50\r\n");
    assert_eq!(data.cpu_temps, vec![40, 41]);
    assert_eq!(data.gpu_temps, vec![50]);
}

#[test]
fn last_line_needs_no_line_feed() {
    let data = parse("CPU,Core0,40\nCPU,Core0,41");
    assert_eq!(data.cpu_temps, vec![40, 41]);
}

#[test]
fn empty_text_gives_empty_series() {
    let data = parse("");
    assert!(data.cpu_temps.is_empty());
    assert!(data.gpu_temps.is_empty());
    assert!(data.nvme_temps.is_empty());
    assert_eq!(data.max_temp, 0);
}

#[test]
fn reading_twice_gives_the_same_series() {
    let text = "# Delay:250\nType,Label,Temp\nCPU,Core0,40\nGPU,edge,-2\nCPU,Core1,41\n\
                NVMe,Composite,33\nGPU,Junk\nCPU,Core0,42\n#Total: 1\nCPU,Exit,42\n";
    let first = parse(text);
    let second = parse(text);
    assert_eq!(first.cpu_temps, second.cpu_temps);
    assert_eq!(first.gpu_temps, second.gpu_temps);
    assert_eq!(first.nvme_temps, second.nvme_temps);
    assert_eq!(first.max_temp, second.max_temp);
    assert_eq!(first.cpu_temps, vec![40, 42]);
    assert_eq!(first.gpu_temps, vec![-2]);
    assert_eq!(first.nvme_temps, vec![33]);
    assert_eq!(first.max_temp, 42);
}

#[test]
fn time_axis_of_empty_data_spans_one_sample() {
    let data = parse("");
    assert_eq!(data.sample_count(), 1);
    assert_eq!(data.sample_step(), 1);
    assert_eq!(data.sample_marks(), vec![0, 1]);
}

#[test]
fn time_axis_follows_the_longest_series() {
    let mut text = String::new();
    for i in 0..25 {
        text.push_str(&format!("GPU,edge,{}\n", 30 + i));
    }
    text.push_str("CPU,Core0,40\n");
    let data = parse(&text);
    assert_eq!(data.sample_count(), 25);
    assert_eq!(data.sample_step(), 2);
    assert_eq!(data.sample_marks(), vec![0, 2, 4, 6, 8, 10, 12, 14, 16, 18, 20, 22, 24]);
}

#[test]
fn time_axis_of_ten_samples_has_a_mark_for_each() {
    let mut text = String::new();
    for i in 0..10 {
        text.push_str(&format!("CPU,Core0,{}\n", 30 + i));
    }
    let data = parse(&text);
    assert_eq!(data.sample_count(), 10);
    assert_eq!(data.sample_step(), 1);
    assert_eq!(data.sample_marks(), vec![0, 1, 2, 3, 4, 5, 6, 7, 8, 9, 10]);
}

fn names(list: &[&str]) -> Vec<String> {
    list.iter().map(|s| s.to_string()).collect()
}

#[test]
fn latest_session_is_the_last_name_in_order() {
    let list = names(&["session_0.csv", "session_2.csv", "notes.txt", "session_1.csv"]);
    assert_eq!(latest_session(&list), Some(1));
}

#[test]
fn latest_session_orders_names_character_by_character() {
    let list = names(&["session_10.csv", "session_9.csv", "session_1.csv"]);
    assert_eq!(latest_session(&list), Some(1));
    let list = names(&["a.csv", "a.csv.csv", "Z.csv"]);
    assert_eq!(latest_session(&list), Some(1));
}

#[test]
fn latest_session_needs_a_log() {
    assert_eq!(latest_session(&names(&[])), None);
    assert_eq!(latest_session(&names(&["notes.txt", ".csv", "csv", "a.CSV"])), None);
}
