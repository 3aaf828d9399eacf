//! Temperature sensors: what a reading holds, how a device is classed, and
//! how readings are made from the text files that the hardware monitor of
//! the kernel exposes.

use crate::text::{
    chars_of, contains, ends_with, has_prefix, has_substring, has_suffix, parse_u32,
    parse_unsigned_within, replace, replace_chars, same_chars, starts_with, string_of, trim,
    trim_chars,
};
use vstd::prelude::*;

verus! {

/// The coarse kind of device that a sensor belongs to.
#[derive(Clone, Copy, Debug, PartialEq, Eq, Structural)]
pub enum DeviceClass {
    Cpu,
    Gpu,
    Nvme,
    Unknown,
}

/// One temperature reading with the device flags it was found under.
#[derive(Debug)]
pub struct SensorLabel {
    pub label: String,
    pub is_cpu: bool,
    pub is_amd_gpu: bool,
    pub is_nvme: bool,
    pub temp: u32,
}

/// A reading as a plain value: the model of a `SensorLabel`.
pub struct Reading {
    pub label: Seq<char>,
    pub is_cpu: bool,
    pub is_amd_gpu: bool,
    pub is_nvme: bool,
    pub temp: u32,
}

impl View for SensorLabel {
    type V = Reading;

    open spec fn view(&self) -> Reading {
        Reading {
            label: self.label@,
            is_cpu: self.is_cpu,
            is_amd_gpu: self.is_amd_gpu,
            is_nvme: self.is_nvme,
            temp: self.temp,
        }
    }
}

impl Reading {
    /// The class of the device: a processor before a drive before a
    /// graphics card, where more than one flag is set.
    pub open spec fn class(self) -> DeviceClass {
        if self.is_cpu {
            DeviceClass::Cpu
        } else if self.is_nvme {
            DeviceClass::Nvme
        } else if self.is_amd_gpu {
            DeviceClass::Gpu
        } else {
            DeviceClass::Unknown
        }
    }
}

/// The name under which a device class stands in a session log.
pub open spec fn class_tag(class: DeviceClass) -> Seq<char> {
    match class {
        DeviceClass::Cpu => "CPU"@,
        DeviceClass::Gpu => "GPU"@,
        DeviceClass::Nvme => "NVMe"@,
        DeviceClass::Unknown => "Unknown"@,
    }
}

/// The readings that a sequence of sensors stands for.
pub open spec fn readings(sensors: Seq<SensorLabel>) -> Seq<Reading> {
    Seq::new(sensors.len(), |i: int| sensors[i]@)
}

/// The temperature of the first processor reading of a snapshot.
pub open spec fn cpu_reading(snapshot: Seq<Reading>) -> Option<u32>
    decreases snapshot.len(),
{
    if snapshot.len() == 0 {
        None
    } else if snapshot[0].is_cpu {
        Some(snapshot[0].temp)
    } else {
        cpu_reading(snapshot.skip(1))
    }
}

/// `cpu_reading` is the temperature at the first place that holds a
/// processor reading, and `None` exactly where there is no such place.
pub proof fn lemma_cpu_reading(snapshot: Seq<Reading>)
    ensures
        cpu_reading(snapshot) is None <==> forall|i: int|
            0 <= i < snapshot.len() ==> !(#[trigger] snapshot[i]).is_cpu,
        cpu_reading(snapshot) is Some ==> exists|i: int|
            0 <= i < snapshot.len() && (#[trigger] snapshot[i]).is_cpu && snapshot[i].temp
                == cpu_reading(snapshot)->0 && forall|j: int|
                0 <= j < i ==> !(#[trigger] snapshot[j]).is_cpu,
    decreases snapshot.len(),
{
    if snapshot.len() == 0 {
    } else if snapshot[0].is_cpu {
        assert(snapshot[0].is_cpu && snapshot[0].temp == cpu_reading(snapshot)->0);
    } else {
        let rest = snapshot.skip(1);
        lemma_cpu_reading(rest);
        assert forall|i: int| 0 <= i < rest.len() implies rest[i] == snapshot[i + 1] by {}
        if cpu_reading(rest) is None {
            assert forall|i: int| 0 <= i < snapshot.len() implies !(#[trigger] snapshot[i]).is_cpu by {
                if i > 0 {
                    assert(rest[i - 1] == snapshot[i]);
                }
            }
        } else {
            let k = choose|i: int|
                0 <= i < rest.len() && (#[trigger] rest[i]).is_cpu && rest[i].temp == cpu_reading(
                    rest,
                )->0 && forall|j: int| 0 <= j < i ==> !(#[trigger] rest[j]).is_cpu;
            assert(snapshot[k + 1] == rest[k]);
            assert forall|j: int| 0 <= j < k + 1 implies !(#[trigger] snapshot[j]).is_cpu by {
                if j > 0 {
                    assert(rest[j - 1] == snapshot[j]);
                }
            }
            assert(snapshot[k + 1].is_cpu);
        }
    }
}

impl SensorLabel {
    /// The class of the device that the reading comes from.
    pub fn device_class(&self) -> (class: DeviceClass)
        ensures
            class == self@.class(),
    {
        if self.is_cpu {
            DeviceClass::Cpu
        } else if self.is_nvme {
            DeviceClass::Nvme
        } else if self.is_amd_gpu {
            DeviceClass::Gpu
        } else {
            DeviceClass::Unknown
        }
    }
}

impl DeviceClass {
    /// The name under which the class stands in a session log.
    pub fn tag(self) -> (name: &'static str)
        ensures
            name@ == class_tag(self),
    {
        match self {
            DeviceClass::Cpu => "CPU",
            DeviceClass::Gpu => "GPU",
            DeviceClass::Nvme => "NVMe",
            DeviceClass::Unknown => "Unknown",
        }
    }
}

/// The name of the class of the device that a reading comes from.
pub fn device_type(sensor: &SensorLabel) -> (name: &'static str)
    ensures
        name@ == class_tag(sensor@.class()),
{
    sensor.device_class().tag()
}

/// The temperature of the first processor reading among `sensors`.
pub fn cpu_temperature(sensors: &Vec<SensorLabel>) -> (temp: Option<u32>)
    ensures
        temp == cpu_reading(readings(sensors@)),
{
    let ghost all = readings(sensors@);
    let mut i: usize = 0;
    assert(all.skip(0) =~= all);
    while i < sensors.len()
        invariant
            i <= sensors.len(),
            all == readings(sensors@),
            cpu_reading(all) == cpu_reading(all.skip(i as int)),
        decreases sensors.len() - i,
    {
        assert(all.skip(i as int)[0] == sensors@[i as int]@);
        if sensors[i].is_cpu {
            return Some(sensors[i].temp);
        }
        assert(all.skip(i as int).skip(1) =~= all.skip(i + 1));
        i += 1;
    }
    None
}

/// One file of a monitored device: its name and what was read from it.
#[derive(Debug)]
pub struct HwmonEntry {
    pub file_name: String,
    pub content: String,
}

/// One monitored device: what its name file holds, and its files.
#[derive(Debug)]
pub struct HwmonDevice {
    pub name: String,
    pub entries: Vec<HwmonEntry>,
}

/// The model of an `HwmonEntry`.
pub struct FileText {
    pub file_name: Seq<char>,
    pub content: Seq<char>,
}

/// The model of an `HwmonDevice`.
pub struct DeviceText {
    pub name: Seq<char>,
    pub entries: Seq<FileText>,
}

impl View for HwmonEntry {
    type V = FileText;

    open spec fn view(&self) -> FileText {
        FileText { file_name: self.file_name@, content: self.content@ }
    }
}

impl View for HwmonDevice {
    type V = DeviceText;

    open spec fn view(&self) -> DeviceText {
        DeviceText {
            name: self.name@,
            entries: Seq::new(self.entries@.len(), |i: int| self.entries@[i]@),
        }
    }
}

/// The models of a sequence of devices.
pub open spec fn device_texts(devices: Seq<HwmonDevice>) -> Seq<DeviceText> {
    Seq::new(devices.len(), |i: int| devices[i]@)
}

/// Whether a file of a device holds a temperature: `temp`, anything,
/// `_input`.
pub open spec fn is_temp_input(file_name: Seq<char>) -> bool {
    starts_with(file_name, "temp"@) && ends_with(file_name, "_input"@)
}

/// The name of the file that holds the label of a temperature file.
pub open spec fn label_file_name(file_name: Seq<char>) -> Seq<char> {
    replace(file_name, "_input"@, "_label"@)
}

/// What the first file called `name` holds.
pub open spec fn file_content(entries: Seq<FileText>, name: Seq<char>) -> Option<Seq<char>>
    decreases entries.len(),
{
    if entries.len() == 0 {
        None
    } else if entries[0].file_name == name {
        Some(entries[0].content)
    } else {
        file_content(entries.skip(1), name)
    }
}

/// Whole degrees Celsius from the text of a temperature file, which holds
/// thousandths of a degree between white space; none where the text is no
/// number of 32 bits.
pub open spec fn celsius(text: Seq<char>) -> Option<u32> {
    match parse_unsigned_within(trim(text), u32::MAX as nat) {
        Some(n) => Some((n / 1000) as u32),
        None => None,
    }
}

/// The label of a sensor from what its label file holds, if there is one.
pub open spec fn label_of(found: Option<Seq<char>>) -> Seq<char> {
    match found {
        Some(text) => trim(text),
        None => "Unknown"@,
    }
}

/// Whether a device name is that of a processor's sensor driver.
pub open spec fn names_cpu(device_name: Seq<char>) -> bool {
    contains(trim(device_name), "coretemp"@) || contains(trim(device_name), "k10temp"@)
}

/// Whether a device name is that of a solid-state drive.
pub open spec fn names_nvme(device_name: Seq<char>) -> bool {
    contains(trim(device_name), "nvme"@)
}

/// Whether a device name is that of a graphics card's driver.
pub open spec fn names_amd_gpu(device_name: Seq<char>) -> bool {
    contains(trim(device_name), "amdgpu"@)
}

/// The reading that one file of a device gives: none unless the file is a
/// temperature file, and none where what it holds is no number.
pub open spec fn entry_reading(device: DeviceText, entry: FileText) -> Option<Reading> {
    if is_temp_input(entry.file_name) {
        match celsius(entry.content) {
            Some(temp) => Some(
                Reading {
                    label: label_of(
                        file_content(device.entries, label_file_name(entry.file_name)),
                    ),
                    is_cpu: names_cpu(device.name),
                    is_amd_gpu: names_amd_gpu(device.name),
                    is_nvme: names_nvme(device.name),
                    temp,
                },
            ),
            None => None,
        }
    } else {
        None
    }
}

/// `entry_reading` for a given device, as a function of the file.
pub open spec fn entry_reader(device: DeviceText) -> spec_fn(FileText) -> Option<Reading> {
    |entry: FileText| entry_reading(device, entry)
}

/// The readings of one device, in the order of its files.
pub open spec fn device_readings(device: DeviceText) -> Seq<Reading> {
    device.entries.filter_map(entry_reader(device))
}

/// `device_readings` as a function value.
pub open spec fn device_reader() -> spec_fn(DeviceText) -> Seq<Reading> {
    |device: DeviceText| device_readings(device)
}

/// The readings of all devices, device after device.
pub open spec fn all_readings(devices: Seq<DeviceText>) -> Seq<Reading> {
    devices.flat_map(device_reader())
}

/// Whole degrees Celsius from the text of a temperature file; none where
/// the text is no number.
pub fn celsius_of(text: &str) -> (degrees: Option<u32>)
    ensures
        degrees == celsius(text@),
{
    let chars: Vec<char> = chars_of(text);
    let trimmed: Vec<char> = trim_chars(&chars);
    match parse_u32(&trimmed) {
        Some(n) => Some(n / 1000),
        None => None,
    }
}

/// The place of the first file called `name`.
fn find_entry(entries: &Vec<HwmonEntry>, name: &Vec<char>) -> (found: Option<usize>)
    ensures
        match found {
            Some(i) => i < entries.len() && file_content(
                Seq::new(entries@.len(), |i: int| entries@[i]@),
                name@,
            ) == Some(entries@[i as int].content@),
            None => file_content(Seq::new(entries@.len(), |i: int| entries@[i]@), name@) is None,
        },
{
    let ghost all = Seq::new(entries@.len(), |i: int| entries@[i]@);
    let mut i: usize = 0;
    assert(all.skip(0) =~= all);
    while i < entries.len()
        invariant
            i <= entries.len(),
            all == Seq::new(entries@.len(), |i: int| entries@[i]@),
            file_content(all, name@) == file_content(all.skip(i as int), name@),
        decreases entries.len() - i,
    {
        assert(all.skip(i as int)[0] == entries@[i as int]@);
        let file_name: Vec<char> = chars_of(entries[i].file_name.as_str());
        if same_chars(&file_name, name) {
            return Some(i);
        }
        assert(all.skip(i as int).skip(1) =~= all.skip(i + 1));
        i += 1;
    }
    None
}

/// Appends the readings of one device to `out`.
fn device_sensors(device: &HwmonDevice, out: &mut Vec<SensorLabel>)
    ensures
        readings(final(out)@) == readings(old(out)@) + device_readings(device@),
{
    let name: Vec<char> = trim_chars(&chars_of(device.name.as_str()));
    let is_nvme: bool = has_substring(&name, &chars_of("nvme"));
    let is_cpu: bool = has_substring(&name, &chars_of("coretemp")) || has_substring(
        &name,
        &chars_of("k10temp"),
    );
    let is_amd_gpu: bool = has_substring(&name, &chars_of("amdgpu"));
    let temp_prefix: Vec<char> = chars_of("temp");
    let input_suffix: Vec<char> = chars_of("_input");
    let label_suffix: Vec<char> = chars_of("_label");
    let ghost files = device@.entries;
    let ghost reader = entry_reader(device@);
    let mut j: usize = 0;
    assert(files.take(0) =~= Seq::<FileText>::empty());
    assert(readings(out@) =~= readings(old(out)@) + files.take(0).filter_map(reader));
    while j < device.entries.len()
        invariant
            j <= device.entries.len(),
            files == device@.entries,
            reader == entry_reader(device@),
            temp_prefix@ == "temp"@,
            input_suffix@ == "_input"@,
            label_suffix@ == "_label"@,
            is_nvme == names_nvme(device@.name),
            is_cpu == names_cpu(device@.name),
            is_amd_gpu == names_amd_gpu(device@.name),
            readings(out@) == readings(old(out)@) + files.take(j as int).filter_map(reader),
        decreases device.entries.len() - j,
    {
        let ghost before = out@;
        let entry: &HwmonEntry = &device.entries[j];
        let file_name: Vec<char> = chars_of(entry.file_name.as_str());
        proof {
            assert(files[j as int] == entry@);
            files.lemma_filter_map_take_succ(reader, j as int);
        }
        let degrees: Option<u32> = if has_prefix(&file_name, &temp_prefix) && has_suffix(
            &file_name,
            &input_suffix,
        ) {
            celsius_of(entry.content.as_str())
        } else {
            None
        };
        match degrees {
            Some(temp) => {
                let label_name: Vec<char> = replace_chars(&file_name, &input_suffix, &label_suffix);
                let label: String = match find_entry(&device.entries, &label_name) {
                    Some(k) => string_of(
                        &trim_chars(&chars_of(device.entries[k].content.as_str())),
                    ),
                    None => "Unknown".to_owned(),
                };
                let sensor = SensorLabel { label, is_cpu, is_amd_gpu, is_nvme, temp };
                assert(Some(sensor@) == entry_reading(device@, entry@));
                out.push(sensor);
                assert(readings(out@) =~= readings(before).push(sensor@));
                assert(readings(out@) =~= readings(old(out)@) + files.take(j + 1).filter_map(
                    reader,
                ));
            },
            None => {
                assert(entry_reading(device@, entry@) is None);
                assert(readings(out@) =~= readings(old(out)@) + files.take(j + 1).filter_map(
                    reader,
                ));
            },
        }
        j += 1;
    }
    assert(files.take(files.len() as int) =~= files);
}

/// The readings of all monitored devices, device after device and file
/// after file.
pub fn search_sensors(devices: &Vec<HwmonDevice>) -> (sensors: Vec<SensorLabel>)
    ensures
        readings(sensors@) == all_readings(device_texts(devices@)),
{
    let ghost texts = device_texts(devices@);
    let mut sensors: Vec<SensorLabel> = Vec::new();
    let mut i: usize = 0;
    assert(texts.take(0) =~= Seq::<DeviceText>::empty());
    assert(readings(sensors@) =~= texts.take(0).flat_map(device_reader()));
    while i < devices.len()
        invariant
            i <= devices.len(),
            texts == device_texts(devices@),
            readings(sensors@) == texts.take(i as int).flat_map(device_reader()),
        decreases devices.len() - i,
    {
        device_sensors(&devices[i], &mut sensors);
        proof {
            texts.take(i as int).lemma_flat_map_push(device_reader(), texts[i as int]);
            assert(texts.take(i as int).push(texts[i as int]) =~= texts.take(i + 1));
        }
        i += 1;
    }
    assert(texts.take(texts.len() as int) =~= texts);
    sensors
}

} // verus!
