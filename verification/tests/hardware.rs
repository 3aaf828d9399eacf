use twatch::sensors::{
    celsius_of, cpu_temperature, device_type, search_sensors, DeviceClass, HwmonDevice, HwmonEntry,
    SensorLabel,
};

fn sensor(cpu: bool, gpu: bool, nvme: bool) -> SensorLabel {
    SensorLabel { label: "x".to_string(), is_cpu: cpu, is_amd_gpu: gpu, is_nvme: nvme, temp: 1 }
}

fn entry(file_name: &str, content: &str) -> HwmonEntry {
    HwmonEntry { file_name: file_name.to_string(), content: content.to_string() }
}

fn device(name: &str, entries: Vec<HwmonEntry>) -> HwmonDevice {
    HwmonDevice { name: name.to_string(), entries }
}

fn summary(s: &SensorLabel) -> (String, bool, bool, bool, u32) {
    (s.label.clone(), s.is_cpu, s.is_amd_gpu, s.is_nvme, s.temp)
}

#[test]
fn class_names_are_as_in_a_log() {
    assert_eq!(DeviceClass::Cpu.tag(), "CPU");
    assert_eq!(DeviceClass::Gpu.tag(), "GPU");
    assert_eq!(DeviceClass::Nvme.tag(), "NVMe");
    assert_eq!(DeviceClass::Unknown.tag(), "Unknown");
}

#[test]
fn processor_comes_before_drive_before_graphics() {
    assert_eq!(device_type(&sensor(true, false, false)), "CPU");
    assert_eq!(device_type(&sensor(false, false, true)), "NVMe");
    assert_eq!(device_type(&sensor(false, true, false)), "GPU");
    assert_eq!(device_type(&sensor(false, false, false)), "Unknown");
    assert_eq!(device_type(&sensor(true, true, true)), "CPU");
    assert_eq!(device_type(&sensor(false, true, true)), "NVMe");
    assert_eq!(sensor(true, true, false).device_class(), DeviceClass::Cpu);
    assert_eq!(sensor(false, true, true).device_class(), DeviceClass::Nvme);
    assert_eq!(sensor(false, true, false).device_class(), DeviceClass::Gpu);
    assert_eq!(sensor(false, false, false).device_class(), DeviceClass::Unknown);
}

#[test]
fn processor_temperature_is_that_of_the_first_processor_reading() {
    let mut a = sensor(false, true, false);
    a.temp = 10;
    let mut b = sensor(true, false, false);
    b.temp = 20;
    let mut c = sensor(true, false, false);
    c.temp = 30;
    assert_eq!(cpu_temperature(&vec![a, b, c]), Some(20));
    assert_eq!(cpu_temperature(&vec![sensor(false, true, false), sensor(false, false, true)]), None);
    assert_eq!(cpu_temperature(&vec![]), None);
}

#[test]
fn thousandths_become_whole_degrees() {
    assert_eq!(celsius_of("45000\n"), Some(45));
    assert_eq!(celsius_of("45999"), Some(45));
    assert_eq!(celsius_of("  999 "), Some(0));
    assert_eq!(celsius_of("0"), Some(0));
    assert_eq!(celsius_of("+71000"), Some(71));
    assert_eq!(celsius_of("4294967295"), Some(4294967));
}

#[test]
fn unreadable_temperature_gives_no_degrees() {
    assert_eq!(celsius_of(""), None);
    assert_eq!(celsius_of("\n"), None);
    assert_eq!(celsius_of("-5000"), None);
    assert_eq!(celsius_of("45 000"), None);
    assert_eq!(celsius_of("4294967296"), None);
    assert_eq!(celsius_of("45000.0"), None);
    assert_eq!(celsius_of("oops"), None);
}

#[test]
fn devices_are_read_file_after_file() {
    let devices = vec![
        device(
            "coretemp\n",
            vec![
                entry("temp1_input", "45000\n"),
                entry("temp1_label", "Package id 0\n"),
                entry("temp1_max", "100000\n"),
                entry("temp2_label", " Core 0 \n"),
                entry("temp2_input", "43999\n"),
            ],
        ),
        device("amdgpu\n", vec![entry("temp1_input", "50000"), entry("fan1_input", "1200")]),
        device("nvme\n", vec![entry("temp1_label", "Composite"), entry("temp1_input", "38850\n")]),
        device("acpitz\n", vec![entry("temp1_input", "27800\n")]),
        device(
            "k10temp",
            vec![
                entry("temp1_input", "oops"),
                entry("temp1_label", "Tctl\n"),
                entry("temp2_input", ""),
                entry("temp3_input", "61500\n"),
                entry("temp3_label", "Tccd1\n"),
            ],
        ),
    ];
    let found: Vec<_> = search_sensors(&devices).iter().map(summary).collect();
    assert_eq!(
        found,
        vec![
            ("Package id 0".to_string(), true, false, false, 45),
            ("Core 0".to_string(), true, false, false, 43),
            ("Unknown".to_string(), false, true, false, 50),
            ("Composite".to_string(), false, false, true, 38),
            ("Unknown".to_string(), false, false, false, 27),
            ("Tccd1".to_string(), true, false, false, 61),
        ]
    );
}

#[test]
fn device_name_may_hold_the_driver_anywhere() {
    let devices = vec![
        device(" my-nvme-drive ", vec![entry("temp1_input", "1000")]),
        device("coretemp and amdgpu", vec![entry("temp1_input", "2000")]),
        device("NVME", vec![entry("temp1_input", "3000")]),
    ];
    let found: Vec<_> = search_sensors(&devices).iter().map(summary).collect();
    assert_eq!(
        found,
        vec![
            ("Unknown".to_string(), false, false, true, 1),
            ("Unknown".to_string(), true, true, false, 2),
            ("Unknown".to_string(), false, false, false, 3),
        ]
    );
}

#[test]
fn only_temperature_inputs_give_readings() {
    let devices = vec![device(
        "coretemp",
        vec![
            entry("temp_input", "1000"),
            entry("temp1_inputs", "2000"),
            entry("in1_input", "3000"),
            entry("temp1_crit", "4000"),
            entry("xtemp1_input", "5000"),
            entry("temp_input_input", "6000"),
            entry("temp_label_label", "twice"),
        ],
    )];
    let found: Vec<_> = search_sensors(&devices).iter().map(summary).collect();
    assert_eq!(
        found,
        vec![("Unknown".to_string(), true, false, false, 1), ("twice".to_string(), true, false, false, 6)]
    );
}

#[test]
fn file_that_holds_no_number_gives_no_reading() {
    let devices = vec![device(
        "coretemp",
        vec![
            entry("temp1_input", "n/a\n"),
            entry("temp1_label", "Package id 0\n"),
            entry("temp2_input", "-1000\n"),
            entry("temp3_input", "\n"),
            entry("temp4_input", "0\n"),
        ],
    )];
    let found: Vec<_> = search_sensors(&devices).iter().map(summary).collect();
    assert_eq!(found, vec![("Unknown".to_string(), true, false, false, 0)]);
    let devices = vec![device("coretemp", vec![entry("temp1_input", "oops")])];
    assert!(search_sensors(&devices).is_empty());
}

#[test]
fn no_devices_give_no_readings() {
    assert!(search_sensors(&vec![]).is_empty());
    assert!(search_sensors(&vec![device("coretemp", vec![])]).is_empty());
}
