//! Reading a finished session log back into one temperature series per
//! device class.

use crate::sensors::{class_tag, DeviceClass, Reading};
use crate::session::{delay_line, exit_line, header_line, record_line, texts, total_line};
use crate::text::{
    chars_of, copy_range, decimal, ends_with, has_prefix, has_suffix, is_digit,
    lemma_decimal_digits, lemma_find_is, lemma_parse_decimal, lines, parse_i64, parse_signed_64,
    same_chars, split, split_chars, split_lines, starts_with, views,
};
use vstd::prelude::*;

verus! {

/// One data line of a session log.
pub struct Record {
    pub tag: Seq<char>,
    pub label: Seq<char>,
    pub temp: i64,
}

/// Whether a line is a remark: it starts with `#`.
pub open spec fn is_comment(line: Seq<char>) -> bool {
    line.len() > 0 && line[0] == '#'
}

/// Whether a line is the heading of the columns.
pub open spec fn is_header(line: Seq<char>) -> bool {
    starts_with(line, "Type,"@)
}

/// The record that a line holds: none for a remark, for the heading, for a
/// line that does not split into three fields, and for one whose third
/// field is no number.
pub open spec fn record_of(line: Seq<char>) -> Option<Record> {
    let fields = split(line, ',');
    if is_comment(line) || is_header(line) || fields.len() != 3 {
        None
    } else {
        match parse_signed_64(fields[2]) {
            Some(temp) => Some(Record { tag: fields[0], label: fields[1], temp }),
            None => None,
        }
    }
}

/// `record_of` as a function value.
pub open spec fn line_reader() -> spec_fn(Seq<char>) -> Option<Record> {
    |line: Seq<char>| record_of(line)
}

/// The records of a log, in the order of its lines.
pub open spec fn records(text: Seq<char>) -> Seq<Record> {
    lines(text).filter_map(line_reader())
}

/// The test for a record of the class `tag`.
pub open spec fn has_tag(tag: Seq<char>) -> spec_fn(Record) -> bool {
    |r: Record| r.tag == tag
}

/// The test for a record with the label `label`.
pub open spec fn has_label(label: Seq<char>) -> spec_fn(Record) -> bool {
    |r: Record| r.label == label
}

/// The temperature of a record, as a function value.
pub open spec fn temp_of() -> spec_fn(Record) -> i64 {
    |r: Record| r.temp
}

/// The records of one device class.
pub open spec fn of_class(recs: Seq<Record>, class: DeviceClass) -> Seq<Record> {
    recs.filter(has_tag(class_tag(class)))
}

/// The label that stands for a device class: that of its first record.
pub open spec fn chosen_label(recs: Seq<Record>, class: DeviceClass) -> Option<Seq<char>> {
    if of_class(recs, class).len() > 0 {
        Some(of_class(recs, class)[0].label)
    } else {
        None
    }
}

/// The series of a device class: the temperatures of its records that
/// carry the chosen label, in order. Records of the class under another
/// label are left out.
pub open spec fn series(recs: Seq<Record>, class: DeviceClass) -> Seq<i64> {
    match chosen_label(recs, class) {
        Some(label) => of_class(recs, class).filter(has_label(label)).map_values(temp_of()),
        None => Seq::empty(),
    }
}

/// Whether no sample of `s` is above `m`.
pub open spec fn bounds(m: i64, s: Seq<i64>) -> bool {
    forall|i: int| 0 <= i < s.len() ==> #[trigger] s[i] <= m
}

/// Whether some sample of `s` is `m`.
pub open spec fn attains(m: i64, s: Seq<i64>) -> bool {
    exists|i: int| 0 <= i < s.len() && #[trigger] s[i] == m
}

/// The series of a session log, and the highest temperature among them;
/// zero where they hold no sample.
#[derive(Clone, Debug)]
pub struct PlotData {
    pub cpu_temps: Vec<i64>,
    pub gpu_temps: Vec<i64>,
    pub nvme_temps: Vec<i64>,
    pub max_temp: i64,
}

impl PlotData {
    /// Whether the three series hold no sample.
    pub open spec fn is_empty(&self) -> bool {
        self.cpu_temps@.len() == 0 && self.gpu_temps@.len() == 0 && self.nvme_temps@.len() == 0
    }

    /// Whether `max_temp` is the highest sample of the three series: no
    /// sample is above it and one of them is it. Where there is no sample
    /// it is zero.
    pub open spec fn max_is_highest(&self) -> bool {
        &&& bounds(self.max_temp, self.cpu_temps@)
        &&& bounds(self.max_temp, self.gpu_temps@)
        &&& bounds(self.max_temp, self.nvme_temps@)
        &&& if self.is_empty() {
            self.max_temp == 0
        } else {
            attains(self.max_temp, self.cpu_temps@) || attains(self.max_temp, self.gpu_temps@)
                || attains(self.max_temp, self.nvme_temps@)
        }
    }

    /// Whether this is what the log `text` holds.
    pub open spec fn is_parse_of(&self, text: Seq<char>) -> bool {
        &&& self.cpu_temps@ == series(records(text), DeviceClass::Cpu)
        &&& self.gpu_temps@ == series(records(text), DeviceClass::Gpu)
        &&& self.nvme_temps@ == series(records(text), DeviceClass::Nvme)
        &&& self.max_is_highest()
    }
}

/// The names of the four device classes differ from each other.
pub proof fn lemma_tags_differ()
    ensures
        forall|a: DeviceClass, b: DeviceClass| a != b ==> class_tag(a) != class_tag(b),
{
    reveal_strlit("CPU");
    reveal_strlit("GPU");
    reveal_strlit("NVMe");
    reveal_strlit("Unknown");
    assert forall|a: DeviceClass, b: DeviceClass| a != b implies class_tag(a) != class_tag(b) by {
        let x = class_tag(a);
        let y = class_tag(b);
        if x.len() == y.len() {
            assert(x[0] != y[0]);
        }
    }
}

/// The first label seen for a class is chosen for good: a further record
/// leaves the chosen label of its class as it is unless there was none, and
/// adds its temperature to the series exactly where it is of that class and
/// carries the chosen label.
pub proof fn lemma_series_push(recs: Seq<Record>, r: Record, class: DeviceClass)
    ensures
        chosen_label(recs, class) is None ==> series(recs, class).len() == 0,
        chosen_label(recs.push(r), class) == (if r.tag == class_tag(class) && chosen_label(
            recs,
            class,
        ) is None {
            Some(r.label)
        } else {
            chosen_label(recs, class)
        }),
        series(recs.push(r), class) == (if r.tag == class_tag(class) && (chosen_label(
            recs,
            class,
        ) is None || chosen_label(recs, class) == Some(r.label)) {
            series(recs, class).push(r.temp)
        } else {
            series(recs, class)
        }),
{
    let tag = class_tag(class);
    let old_class = of_class(recs, class);
    let new_class = of_class(recs.push(r), class);
    recs.lemma_filter_push(r, has_tag(tag));
    if r.tag == tag {
        assert(new_class == old_class.push(r));
        if old_class.len() == 0 {
            let keep = has_label(r.label);
            Seq::<Record>::empty().lemma_filter_push(r, keep);
            assert(old_class =~= Seq::<Record>::empty());
            assert(Seq::<Record>::empty().filter(keep) =~= Seq::<Record>::empty());
            assert(new_class.filter(keep) =~= seq![r]);
            assert(seq![r].map_values(temp_of()) =~= Seq::<i64>::empty().push(r.temp));
        } else {
            let label = old_class[0].label;
            let keep = has_label(label);
            assert(new_class[0] == old_class[0]);
            old_class.lemma_filter_push(r, keep);
            if r.label == label {
                assert(old_class.filter(keep).push(r).map_values(temp_of()) =~= old_class.filter(
                    keep,
                ).map_values(temp_of()).push(r.temp));
            }
        }
    } else {
        assert(new_class == old_class);
    }
}

/// One side of the reading: the label chosen for a class, once there is
/// one, and the series gathered under it.
struct Channel {
    label: Option<Vec<char>>,
    temps: Vec<i64>,
}

impl Channel {
    /// Whether the channel holds what the records `recs` give for `class`.
    spec fn follows(&self, recs: Seq<Record>, class: DeviceClass) -> bool {
        &&& self.temps@ == series(recs, class)
        &&& match self.label {
            Some(label) => chosen_label(recs, class) == Some(label@),
            None => chosen_label(recs, class) is None,
        }
    }

    /// Takes in one record of the channel's class; says whether its
    /// temperature was added to the series.
    fn absorb(
        &mut self,
        label: &Vec<char>,
        temp: i64,
        Ghost(recs): Ghost<Seq<Record>>,
        Ghost(r): Ghost<Record>,
        Ghost(class): Ghost<DeviceClass>,
    ) -> (added: bool)
        requires
            old(self).follows(recs, class),
            r.tag == class_tag(class),
            r.label == label@,
            r.temp == temp,
        ensures
            final(self).follows(recs.push(r), class),
            added ==> final(self).temps@ == old(self).temps@.push(temp),
            !added ==> final(self).temps@ == old(self).temps@,
    {
        proof {
            lemma_series_push(recs, r, class);
        }
        let keep: bool = match &self.label {
            Some(chosen) => same_chars(chosen, label),
            None => true,
        };
        if self.label.is_none() {
            self.label = Some(copy_range(label, 0, label.len()));
            assert(self.label->0@ =~= label@);
        }
        if keep {
            self.temps.push(temp);
        }
        keep
    }
}

/// A data line taken apart.
struct Fields {
    tag: Vec<char>,
    label: Vec<char>,
    temp: i64,
}

impl Fields {
    /// The record that the fields make.
    spec fn record(&self) -> Record {
        Record { tag: self.tag@, label: self.label@, temp: self.temp }
    }
}

/// Takes one line apart.
fn read_line(line: &Vec<char>) -> (fields: Option<Fields>)
    ensures
        match fields {
            Some(f) => record_of(line@) == Some(f.record()),
            None => record_of(line@) is None,
        },
{
    if line.len() > 0 && line[0] == '#' {
        return None;
    }
    if has_prefix(line, &chars_of("Type,")) {
        return None;
    }
    let parts: Vec<Vec<char>> = split_chars(line, ',');
    if parts.len() != 3 {
        return None;
    }
    assert(views(parts@)[0] == parts@[0]@);
    assert(views(parts@)[1] == parts@[1]@);
    assert(views(parts@)[2] == parts@[2]@);
    match parse_i64(&parts[2]) {
        Some(temp) => {
            let tag: Vec<char> = copy_range(&parts[0], 0, parts[0].len());
            let label: Vec<char> = copy_range(&parts[1], 0, parts[1].len());
            assert(tag@ =~= parts@[0]@);
            assert(label@ =~= parts@[1]@);
            Some(Fields { tag, label, temp })
        },
        None => None,
    }
}

/// Reads a session log into one series per device class. A line that is a
/// remark or the heading, or holds no record, is passed over. Within a
/// class the label of its first record is chosen, and records of the class
/// under another label are left out.
pub fn parse_session_data(csv_content: &str) -> (data: PlotData)
    ensures
        data.is_parse_of(csv_content@),
{
    let text: Vec<char> = chars_of(csv_content);
    let all_lines: Vec<Vec<char>> = split_lines(&text);
    let cpu_tag: Vec<char> = chars_of(DeviceClass::Cpu.tag());
    let gpu_tag: Vec<char> = chars_of(DeviceClass::Gpu.tag());
    let nvme_tag: Vec<char> = chars_of(DeviceClass::Nvme.tag());
    let mut cpu = Channel { label: None, temps: Vec::new() };
    let mut gpu = Channel { label: None, temps: Vec::new() };
    let mut nvme = Channel { label: None, temps: Vec::new() };
    let mut max_temp: i64 = 0;
    let mut any: bool = false;
    let ghost all = views(all_lines@);
    let ghost mut recs: Seq<Record> = Seq::empty();
    let mut k: usize = 0;
    proof {
        assert(all.take(0) =~= Seq::<Seq<char>>::empty());
        assert(recs =~= all.take(0).filter_map(line_reader()));
        assert(of_class(recs, DeviceClass::Cpu) =~= Seq::<Record>::empty());
        assert(of_class(recs, DeviceClass::Gpu) =~= Seq::<Record>::empty());
        assert(of_class(recs, DeviceClass::Nvme) =~= Seq::<Record>::empty());
        lemma_tags_differ();
    }
    while k < all_lines.len()
        invariant
            k <= all_lines.len(),
            all == views(all_lines@),
            recs == all.take(k as int).filter_map(line_reader()),
            cpu_tag@ == class_tag(DeviceClass::Cpu),
            gpu_tag@ == class_tag(DeviceClass::Gpu),
            nvme_tag@ == class_tag(DeviceClass::Nvme),
            cpu.follows(recs, DeviceClass::Cpu),
            gpu.follows(recs, DeviceClass::Gpu),
            nvme.follows(recs, DeviceClass::Nvme),
            bounds(max_temp, cpu.temps@),
            bounds(max_temp, gpu.temps@),
            bounds(max_temp, nvme.temps@),
            !any ==> max_temp == 0 && cpu.temps@.len() == 0 && gpu.temps@.len() == 0
                && nvme.temps@.len() == 0,
            any ==> attains(max_temp, cpu.temps@) || attains(max_temp, gpu.temps@) || attains(
                max_temp,
                nvme.temps@,
            ),
            any ==> cpu.temps@.len() > 0 || gpu.temps@.len() > 0 || nvme.temps@.len() > 0,
            forall|a: DeviceClass, b: DeviceClass| a != b ==> class_tag(a) != class_tag(b),
        decreases all_lines.len() - k,
    {
        proof {
            all.lemma_filter_map_take_succ(line_reader(), k as int);
            assert(all[k as int] == all_lines@[k as int]@);
        }
        match read_line(&all_lines[k]) {
            Some(f) => {
                let ghost r = f.record();
                proof {
                    lemma_series_push(recs, r, DeviceClass::Cpu);
                    lemma_series_push(recs, r, DeviceClass::Gpu);
                    lemma_series_push(recs, r, DeviceClass::Nvme);
                }
                let ghost old_cpu = cpu.temps@;
                let ghost old_gpu = gpu.temps@;
                let ghost old_nvme = nvme.temps@;
                let added: bool = if same_chars(&f.tag, &cpu_tag) {
                    cpu.absorb(&f.label, f.temp, Ghost(recs), Ghost(r), Ghost(DeviceClass::Cpu))
                } else if same_chars(&f.tag, &gpu_tag) {
                    gpu.absorb(&f.label, f.temp, Ghost(recs), Ghost(r), Ghost(DeviceClass::Gpu))
                } else if same_chars(&f.tag, &nvme_tag) {
                    nvme.absorb(&f.label, f.temp, Ghost(recs), Ghost(r), Ghost(DeviceClass::Nvme))
                } else {
                    false
                };
                proof {
                    recs = recs.push(r);
                    assert(recs =~= all.take(k + 1).filter_map(line_reader()));
                }
                if added {
                    proof {
                        // The new sample is the last of the series it went to.
                        if cpu.temps@ != old_cpu {
                            assert(cpu.temps@[old_cpu.len() as int] == f.temp);
                        } else if gpu.temps@ != old_gpu {
                            assert(gpu.temps@[old_gpu.len() as int] == f.temp);
                        } else {
                            assert(nvme.temps@[old_nvme.len() as int] == f.temp);
                        }
                    }
                    if !any || f.temp > max_temp {
                        max_temp = f.temp;
                        any = true;
                    } else {
                        proof {
                            if attains(max_temp, old_cpu) {
                                let i = choose|i: int|
                                    0 <= i < old_cpu.len() && #[trigger] old_cpu[i] == max_temp;
                                assert(cpu.temps@[i] == max_temp);
                            }
                            if attains(max_temp, old_gpu) {
                                let i = choose|i: int|
                                    0 <= i < old_gpu.len() && #[trigger] old_gpu[i] == max_temp;
                                assert(gpu.temps@[i] == max_temp);
                            }
                            if attains(max_temp, old_nvme) {
                                let i = choose|i: int|
                                    0 <= i < old_nvme.len() && #[trigger] old_nvme[i] == max_temp;
                                assert(nvme.temps@[i] == max_temp);
                            }
                        }
                    }
                }
            },
            None => {
                proof {
                    assert(recs =~= all.take(k + 1).filter_map(line_reader()));
                }
            },
        }
        k += 1;
    }
    assert(all.take(all.len() as int) =~= all);
    PlotData {
        cpu_temps: cpu.temps,
        gpu_temps: gpu.temps,
        nvme_temps: nvme.temps,
        max_temp,
    }
}

/// Reading is a function of the text: two results for one text hold the
/// same three series and the same highest temperature.
pub proof fn lemma_parse_is_deterministic(text: Seq<char>, first: PlotData, second: PlotData)
    requires
        first.is_parse_of(text),
        second.is_parse_of(text),
    ensures
        first.cpu_temps@ == second.cpu_temps@,
        first.gpu_temps@ == second.gpu_temps@,
        first.nvme_temps@ == second.nvme_temps@,
        first.max_temp == second.max_temp,
{
    if !first.is_empty() {
        lemma_highest_is_bounded(first, second);
        lemma_highest_is_bounded(second, first);
    }
}

/// The highest sample of one result is not above that of another result
/// with the same series.
proof fn lemma_highest_is_bounded(a: PlotData, b: PlotData)
    requires
        a.max_is_highest(),
        b.max_is_highest(),
        !a.is_empty(),
        a.cpu_temps@ == b.cpu_temps@,
        a.gpu_temps@ == b.gpu_temps@,
        a.nvme_temps@ == b.nvme_temps@,
    ensures
        a.max_temp <= b.max_temp,
{
    if attains(a.max_temp, a.cpu_temps@) {
        let i = choose|i: int| 0 <= i < a.cpu_temps@.len() && #[trigger] a.cpu_temps@[i] == a.max_temp;
        assert(b.cpu_temps@[i] <= b.max_temp);
    } else if attains(a.max_temp, a.gpu_temps@) {
        let i = choose|i: int| 0 <= i < a.gpu_temps@.len() && #[trigger] a.gpu_temps@[i] == a.max_temp;
        assert(b.gpu_temps@[i] <= b.max_temp);
    } else {
        let i = choose|i: int|
            0 <= i < a.nvme_temps@.len() && #[trigger] a.nvme_temps@[i] == a.max_temp;
        assert(b.nvme_temps@[i] <= b.max_temp);
    }
}

/// How many samples the time axis of a plot spans: the length of the
/// longest series, and one at least.
pub open spec fn samples_of(cpu: nat, gpu: nat, nvme: nat) -> nat {
    let longest = if cpu >= gpu && cpu >= nvme {
        cpu
    } else if gpu >= nvme {
        gpu
    } else {
        nvme
    };
    if longest >= 1 {
        longest
    } else {
        1
    }
}

/// The distance between two marks on the time axis: a tenth of the
/// samples, rounded down, once there are more than ten; else one.
pub open spec fn step_of(samples: nat) -> nat {
    if samples > 10 {
        samples / 10
    } else {
        1
    }
}

impl PlotData {
    /// How many samples the time axis spans.
    pub open spec fn samples(&self) -> nat {
        samples_of(self.cpu_temps@.len(), self.gpu_temps@.len(), self.nvme_temps@.len())
    }

    /// How many samples the time axis spans.
    pub fn sample_count(&self) -> (n: usize)
        ensures
            n == self.samples(),
    {
        let mut n: usize = self.cpu_temps.len();
        if self.gpu_temps.len() > n {
            n = self.gpu_temps.len();
        }
        if self.nvme_temps.len() > n {
            n = self.nvme_temps.len();
        }
        if n < 1 {
            n = 1;
        }
        n
    }

    /// The distance between two marks on the time axis.
    pub fn sample_step(&self) -> (step: usize)
        ensures
            step == step_of(self.samples()),
            step >= 1,
    {
        let n: usize = self.sample_count();
        if n > 10 {
            n / 10
        } else {
            1
        }
    }

    /// The marks on the time axis: from zero on, one every `sample_step`
    /// samples, up to the last that is not beyond the number of samples.
    pub fn sample_marks(&self) -> (marks: Vec<usize>)
        ensures
            marks@.len() >= 1,
            forall|i: int| 0 <= i < marks@.len() ==> #[trigger] marks@[i] == i * step_of(
                self.samples(),
            ),
            marks@.last() <= self.samples() < marks@.last() + step_of(self.samples()),
    {
        let n: usize = self.sample_count();
        let step: usize = self.sample_step();
        let mut marks: Vec<usize> = Vec::new();
        let mut at: usize = 0;
        marks.push(at);
        assert(0 * (step as int) == 0);
        while n - at >= step
            invariant
                step >= 1,
                at <= n,
                marks@.len() >= 1,
                marks@.last() == at,
                forall|i: int| 0 <= i < marks@.len() ==> #[trigger] marks@[i] == i * step,
            decreases n - at,
        {
            let ghost k = marks@.len() as int;
            assert((k - 1) * step + step == k * step) by (nonlinear_arith);
            at = at + step;
            marks.push(at);
        }
        marks
    }
}

/// Whether a file name ends in `.csv` after something else.
pub open spec fn is_csv_name(name: Seq<char>) -> bool {
    name.len() > 4 && ends_with(name, ".csv"@)
}

/// Whether `a` comes before `b`, or is `b`, where names are ordered by
/// their first character that differs and a name comes after the names it
/// starts with.
pub open spec fn lex_le(a: Seq<char>, b: Seq<char>) -> bool
    decreases a.len(),
{
    if a.len() == 0 {
        true
    } else if b.len() == 0 {
        false
    } else if a[0] != b[0] {
        a[0] < b[0]
    } else {
        lex_le(a.skip(1), b.skip(1))
    }
}

/// Of two names one comes before the other, or they are the same.
pub proof fn lemma_lex_total(a: Seq<char>, b: Seq<char>)
    ensures
        lex_le(a, b) || lex_le(b, a),
    decreases a.len(),
{
    if a.len() > 0 && b.len() > 0 && a[0] == b[0] {
        lemma_lex_total(a.skip(1), b.skip(1));
    }
}

/// What comes before a name comes before every name after it.
pub proof fn lemma_lex_transitive(a: Seq<char>, b: Seq<char>, c: Seq<char>)
    requires
        lex_le(a, b),
        lex_le(b, c),
    ensures
        lex_le(a, c),
    decreases a.len(),
{
    if a.len() > 0 && b.len() > 0 && c.len() > 0 && a[0] == b[0] && b[0] == c[0] {
        lemma_lex_transitive(a.skip(1), b.skip(1), c.skip(1));
    }
}

/// Whether `a` comes before `b` or is `b`.
fn comes_first(a: &Vec<char>, b: &Vec<char>) -> (r: bool)
    ensures
        r == lex_le(a@, b@),
{
    let mut i: usize = 0;
    assert(a@.skip(0) =~= a@);
    assert(b@.skip(0) =~= b@);
    while i < a.len() && i < b.len() && a[i] == b[i]
        invariant
            i <= a.len(),
            i <= b.len(),
            lex_le(a@, b@) == lex_le(a@.skip(i as int), b@.skip(i as int)),
        decreases a.len() - i,
    {
        assert(a@.skip(i as int).skip(1) =~= a@.skip(i + 1));
        assert(b@.skip(i as int).skip(1) =~= b@.skip(i + 1));
        i += 1;
    }
    if i >= a.len() {
        true
    } else if i >= b.len() {
        false
    } else {
        a[i] < b[i]
    }
}

/// The place of the latest session log among the names of a directory:
/// the last in order of the names that end in `.csv`. `None` where no name
/// does.
pub fn latest_session(names: &Vec<String>) -> (latest: Option<usize>)
    ensures
        match latest {
            Some(i) => {
                &&& i < names.len()
                &&& is_csv_name(names@[i as int]@)
                &&& forall|j: int|
                    0 <= j < names.len() && is_csv_name(#[trigger] texts(names@)[j]) ==> lex_le(
                        names@[j]@,
                        names@[i as int]@,
                    )
            },
            None => forall|j: int| 0 <= j < names.len() ==> !is_csv_name(#[trigger] texts(names@)[j]),
        },
{
    let suffix: Vec<char> = chars_of(".csv");
    let mut found: bool = false;
    let mut best_at: usize = 0;
    let mut best_name: Vec<char> = Vec::new();
    let mut k: usize = 0;
    while k < names.len()
        invariant
            k <= names.len(),
            suffix@ == ".csv"@,
            found ==> best_at < k && best_name@ == names@[best_at as int]@ && is_csv_name(
                best_name@,
            ),
            found ==> forall|j: int|
                0 <= j < k && is_csv_name(#[trigger] texts(names@)[j]) ==> lex_le(
                    names@[j]@,
                    best_name@,
                ),
            !found ==> forall|j: int| 0 <= j < k ==> !is_csv_name(#[trigger] texts(names@)[j]),
        decreases names.len() - k,
    {
        let name: Vec<char> = chars_of(names[k].as_str());
        assert(texts(names@)[k as int] == name@);
        if name.len() > 4 && has_suffix(&name, &suffix) {
            let better: bool = !found || comes_first(&best_name, &name);
            proof {
                lemma_lex_total(name@, name@);
                lemma_lex_total(best_name@, name@);
                if better {
                    assert forall|j: int|
                        0 <= j < k + 1 && is_csv_name(#[trigger] texts(names@)[j]) implies lex_le(
                        names@[j]@,
                        name@,
                    ) by {
                        if j < k {
                            lemma_lex_transitive(names@[j]@, best_name@, name@);
                        }
                    }
                }
            }
            if better {
                found = true;
                best_at = k;
                best_name = name;
            }
        }
        k += 1;
    }
    if found {
        Some(best_at)
    } else {
        None
    }
}

/// A line made of three fields without a comma in them splits back into
/// those fields.
proof fn lemma_split_three(a: Seq<char>, b: Seq<char>, c: Seq<char>)
    requires
        !a.contains(','),
        !b.contains(','),
        !c.contains(','),
    ensures
        split(a + seq![','] + b + seq![','] + c, ',') == seq![a, b, c],
{
    let line = a + seq![','] + b + seq![','] + c;
    let rest = b + seq![','] + c;
    assert forall|j: int| 0 <= j < a.len() implies line[j] != ',' by {
        assert(line[j] == a[j]);
        assert(a.contains(a[j]));
    }
    assert(line[a.len() as int] == ',');
    lemma_find_is(line, ',', a.len() as int);
    assert(line.take(a.len() as int) =~= a);
    assert(line.skip(a.len() as int + 1) =~= rest);
    assert forall|j: int| 0 <= j < b.len() implies rest[j] != ',' by {
        assert(rest[j] == b[j]);
        assert(b.contains(b[j]));
    }
    assert(rest[b.len() as int] == ',');
    lemma_find_is(rest, ',', b.len() as int);
    assert(rest.take(b.len() as int) =~= b);
    assert(rest.skip(b.len() as int + 1) =~= c);
    assert forall|j: int| 0 <= j < c.len() implies c[j] != ',' by {
        assert(c.contains(c[j]));
    }
    lemma_find_is(c, ',', c.len() as int);
    assert(split(c, ',') == seq![c]);
    assert(split(rest, ',') == seq![b] + split(c, ','));
    assert(split(line, ',') == seq![a] + split(rest, ','));
    assert(seq![a] + (seq![b] + seq![c]) =~= seq![a, b, c]);
}

/// A decimal numeral holds no comma.
proof fn lemma_decimal_has_no_comma(n: nat)
    ensures
        !decimal(n).contains(','),
{
    lemma_decimal_digits(n);
    if decimal(n).contains(',') {
        let i = choose|i: int| 0 <= i < decimal(n).len() && decimal(n)[i] == ',';
        assert(is_digit(decimal(n)[i]));
    }
}

/// What is written can be read back: the line of a reading holds the
/// record of that reading, where the label holds no comma.
pub proof fn lemma_record_line_reads_back(r: Reading)
    requires
        !r.label.contains(','),
    ensures
        record_of(record_line(r)) == Some(
            Record { tag: class_tag(r.class()), label: r.label, temp: r.temp as i64 },
        ),
{
    reveal_strlit("CPU");
    reveal_strlit("GPU");
    reveal_strlit("NVMe");
    reveal_strlit("Unknown");
    reveal_strlit("Type,");
    let tag = class_tag(r.class());
    let number = decimal(r.temp as nat);
    let line = record_line(r);
    assert(!tag.contains(',')) by {
        if tag.contains(',') {
            let i = choose|i: int| 0 <= i < tag.len() && tag[i] == ',';
            assert(tag[i] != ',');
        }
    }
    lemma_decimal_has_no_comma(r.temp as nat);
    lemma_split_three(tag, r.label, number);
    lemma_parse_decimal(r.temp as nat);
    assert(line[0] == tag[0]);
    assert(!is_comment(line));
    assert(!is_header(line)) by {
        if is_header(line) {
            assert(line.take(5)[0] == 'T');
        }
    }
}

/// How the lines that open and close a log are read: the delay, the
/// heading and the total hold no record, and the exit line holds a
/// processor record under the label `Exit`.
pub proof fn lemma_frame_lines_read_back(ms_delay: u64, elapsed_secs: u64, cpu_temp: u32)
    ensures
        record_of(delay_line(ms_delay)) is None,
        record_of(header_line()) is None,
        record_of(total_line(elapsed_secs)) is None,
        record_of(exit_line(cpu_temp)) == Some(
            Record { tag: class_tag(DeviceClass::Cpu), label: "Exit"@, temp: cpu_temp as i64 },
        ),
{
    reveal_strlit("# Delay:");
    reveal_strlit("Type,Label,Temp");
    reveal_strlit("Type,");
    reveal_strlit("#Total: ");
    reveal_strlit("CPU,Exit,");
    reveal_strlit("CPU");
    reveal_strlit("Exit");
    assert(delay_line(ms_delay)[0] == '#');
    assert(total_line(elapsed_secs)[0] == '#');
    assert(header_line().take(5) =~= "Type,"@);
    let number = decimal(cpu_temp as nat);
    let line = exit_line(cpu_temp);
    let tag = "CPU"@;
    let label = "Exit"@;
    assert(line =~= tag + seq![','] + label + seq![','] + number);
    assert(!tag.contains(',')) by {
        if tag.contains(',') {
            let i = choose|i: int| 0 <= i < tag.len() && tag[i] == ',';
            assert(tag[i] != ',');
        }
    }
    assert(!label.contains(',')) by {
        if label.contains(',') {
            let i = choose|i: int| 0 <= i < label.len() && label[i] == ',';
            assert(label[i] != ',');
        }
    }
    lemma_decimal_has_no_comma(cpu_temp as nat);
    lemma_split_three(tag, label, number);
    lemma_parse_decimal(cpu_temp as nat);
    assert(line[0] == 'C');
    assert(!is_header(line)) by {
        if is_header(line) {
            assert(line.take(5)[0] == 'T');
        }
    }
}

} // verus!
