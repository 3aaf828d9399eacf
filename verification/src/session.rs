//! Session logs: how a session gets its number, what its lines look like,
//! and the buffer that gathers records until there are enough to write.
//!
//! Nothing here touches a file: a function that gathers records or closes
//! a log hands back the lines to be written, in order.

use crate::cli::ArgumentPassers;
use crate::sensors::{class_tag, device_type, readings, DeviceClass, Reading, SensorLabel};
use crate::text::{
    chars_of, decimal, digits_value, lemma_decimal_digits, push_all, push_decimal, same_chars,
    string_of,
};
use vstd::prelude::*;

verus! {

/// How many records a fresh session gathers before they are written.
pub const FLUSH_INTERVAL: usize = 50;

/// A session log that is being written: its number, the records that are
/// not written yet, and how many of them are gathered before a write.
#[derive(Debug)]
pub struct SessionFile {
    pub id: u32,
    pub buffer: Vec<String>,
    pub flush_interval: usize,
}

/// A fresh session with where its log goes and the lines that open it.
#[derive(Debug)]
pub struct SessionStart {
    pub session: SessionFile,
    pub path: String,
    pub preamble: Vec<String>,
}

/// The texts of a sequence of strings.
pub open spec fn texts(lines: Seq<String>) -> Seq<Seq<char>> {
    Seq::new(lines.len(), |i: int| lines[i]@)
}

/// The name of the log of session `id`.
pub open spec fn session_file_name(id: nat) -> Seq<char> {
    "session_"@ + decimal(id) + ".csv"@
}

/// Where the log of session `id` goes, from the working directory.
pub open spec fn session_path(id: nat) -> Seq<char> {
    "session/"@ + session_file_name(id)
}

/// The line that tells the delay between two ticks, in milliseconds.
pub open spec fn delay_line(ms_delay: u64) -> Seq<char> {
    "# Delay:"@ + decimal(ms_delay as nat)
}

/// The heading of the columns.
pub open spec fn header_line() -> Seq<char> {
    "Type,Label,Temp"@
}

/// The line of one reading: class, label and temperature, with commas
/// between them.
pub open spec fn record_line(r: Reading) -> Seq<char> {
    class_tag(r.class()) + seq![','] + r.label + seq![','] + decimal(r.temp as nat)
}

/// The line that tells how many seconds a run took.
pub open spec fn total_line(elapsed_secs: u64) -> Seq<char> {
    "#Total: "@ + decimal(elapsed_secs as nat)
}

/// The line that tells the processor temperature at which a run ended.
pub open spec fn exit_line(cpu_temp: u32) -> Seq<char> {
    "CPU,Exit,"@ + decimal(cpu_temp as nat)
}

/// Whether a log of session `id` is among `names`.
pub open spec fn in_use(names: Seq<Seq<char>>, id: nat) -> bool {
    names.contains(session_file_name(id))
}

/// Whether `id` is the number of the next session: the smallest that no
/// log among `names` has.
pub open spec fn is_next_id(names: Seq<Seq<char>>, id: nat) -> bool {
    !in_use(names, id) && forall|m: nat| m < id ==> #[trigger] in_use(names, m)
}

/// What one more record does to a buffer: the buffer afterwards, and the
/// lines to write. Once the buffer holds `threshold` records, all of them
/// are to be written and the buffer is empty again.
pub open spec fn append_model(buffer: Seq<Seq<char>>, line: Seq<char>, threshold: nat) -> (
    Seq<Seq<char>>,
    Seq<Seq<char>>,
) {
    let gathered = buffer.push(line);
    if gathered.len() >= threshold {
        (Seq::empty(), gathered)
    } else {
        (gathered, Seq::empty())
    }
}

/// What a run of records does to a buffer, one after the other: the buffer
/// afterwards, and all the lines to write, in order.
pub open spec fn feed(buffer: Seq<Seq<char>>, lines: Seq<Seq<char>>, threshold: nat) -> (
    Seq<Seq<char>>,
    Seq<Seq<char>>,
)
    decreases lines.len(),
{
    if lines.len() == 0 {
        (buffer, Seq::empty())
    } else {
        let before = feed(buffer, lines.drop_last(), threshold);
        let last = append_model(before.0, lines.last(), threshold);
        (last.0, before.1 + last.1)
    }
}

/// The line of a reading where it is to be recorded: a reading of unknown
/// class only where `record_unknown` asks for it.
pub open spec fn recorded_line(r: Reading, record_unknown: bool) -> Option<Seq<char>> {
    if record_unknown || r.class() != DeviceClass::Unknown {
        Some(record_line(r))
    } else {
        None
    }
}

/// `recorded_line` as a function of the reading.
pub open spec fn line_writer(record_unknown: bool) -> spec_fn(Reading) -> Option<Seq<char>> {
    |r: Reading| recorded_line(r, record_unknown)
}

/// The lines that a snapshot adds to a log.
pub open spec fn record_lines(snapshot: Seq<Reading>, record_unknown: bool) -> Seq<Seq<char>> {
    snapshot.filter_map(line_writer(record_unknown))
}

/// Two sessions with one log name have one number.
pub proof fn lemma_session_file_name_injective(a: nat, b: nat)
    requires
        session_file_name(a) == session_file_name(b),
    ensures
        a == b,
{
    let p = "session_"@;
    let s = ".csv"@;
    let x = decimal(a);
    let y = decimal(b);
    lemma_decimal_digits(a);
    lemma_decimal_digits(b);
    assert((p + x + s).len() == (p + y + s).len());
    assert(x.len() == y.len());
    assert forall|i: int| 0 <= i < x.len() implies x[i] == y[i] by {
        assert((p + x + s)[p.len() + i] == x[i]);
        assert((p + y + s)[p.len() + i] == y[i]);
    }
    assert(x =~= y);
    assert(digits_value(x) == digits_value(y));
}

/// No two sessions in a row get one number: once the log of the next
/// session is there, the session after it gets a higher number, and the
/// very next number where that one was free.
pub proof fn lemma_next_id_after_create(names: Seq<Seq<char>>, first: nat, second: nat)
    requires
        is_next_id(names, first),
        is_next_id(names.push(session_file_name(first)), second),
    ensures
        second > first,
        !in_use(names, first + 1) ==> second == first + 1,
{
    let created = names.push(session_file_name(first));
    assert(created[names.len() as int] == session_file_name(first));
    assert(in_use(created, first));
    assert forall|m: nat| in_use(names, m) implies in_use(created, m) by {
        let i = choose|i: int| 0 <= i < names.len() && names[i] == session_file_name(m);
        assert(created[i] == session_file_name(m));
    }
    if second < first {
        assert(in_use(names, second));
    }
    if !in_use(names, first + 1) && second != first + 1 {
        assert(in_use(created, first + 1));
        let i = choose|i: int| 0 <= i < created.len() && created[i] == session_file_name(first + 1);
        if i < names.len() {
            assert(names[i] == session_file_name(first + 1));
        } else {
            lemma_session_file_name_injective(first, first + 1);
        }
    }
}

/// Feeding a buffer loses nothing and keeps the order: the lines to write,
/// followed by the buffer afterwards, are the buffer before followed by
/// the lines fed.
pub proof fn lemma_feed_conserves(buffer: Seq<Seq<char>>, lines: Seq<Seq<char>>, threshold: nat)
    ensures
        feed(buffer, lines, threshold).1 + feed(buffer, lines, threshold).0 == buffer + lines,
    decreases lines.len(),
{
    if lines.len() == 0 {
        assert(Seq::<Seq<char>>::empty() + buffer =~= buffer + lines);
    } else {
        lemma_feed_conserves(buffer, lines.drop_last(), threshold);
        let before = feed(buffer, lines.drop_last(), threshold);
        let last = append_model(before.0, lines.last(), threshold);
        assert(before.1 + before.0 == buffer + lines.drop_last());
        assert((before.1 + last.1) + last.0 =~= (before.1 + before.0).push(lines.last()));
        assert((buffer + lines.drop_last()).push(lines.last()) =~= buffer + lines);
    }
}

/// A buffer that was fed at least one record holds fewer records than its
/// threshold, or none; with a threshold above zero and a buffer below it
/// before, the lines to write come in full batches.
pub proof fn lemma_feed_bounded(buffer: Seq<Seq<char>>, lines: Seq<Seq<char>>, threshold: nat)
    ensures
        lines.len() > 0 ==> feed(buffer, lines, threshold).0.len() < threshold || feed(
            buffer,
            lines,
            threshold,
        ).0.len() == 0,
        threshold > 0 && buffer.len() < threshold ==> feed(buffer, lines, threshold).0.len()
            < threshold && (feed(buffer, lines, threshold).1.len() as int) % (threshold as int) == 0,
    decreases lines.len(),
{
    if lines.len() > 0 {
        lemma_feed_bounded(buffer, lines.drop_last(), threshold);
        if threshold > 0 && buffer.len() < threshold {
            let before = feed(buffer, lines.drop_last(), threshold);
            let last = append_model(before.0, lines.last(), threshold);
            let full = feed(buffer, lines, threshold);
            assert(full.1.len() == before.1.len() + last.1.len());
            if last.1.len() > 0 {
                assert(last.1.len() == threshold);
                let n = before.1.len() as int;
                let t = threshold as int;
                assert((n + t) % t == 0) by (nonlinear_arith)
                    requires
                        n % t == 0,
                        t > 0,
                ;
            }
        }
    } else if threshold > 0 {
        assert(0int % (threshold as int) == 0) by (nonlinear_arith)
            requires
                threshold > 0,
        ;
    }
}

/// The text of the given characters followed by the numeral of `n`.
fn numbered(prefix: &str, n: u64, suffix: &str) -> (line: String)
    ensures
        line@ == prefix@ + decimal(n as nat) + suffix@,
{
    let mut out: Vec<char> = chars_of(prefix);
    push_decimal(&mut out, n);
    push_all(&mut out, &chars_of(suffix));
    string_of(&out)
}

/// The name of the log of session `id`.
pub fn session_file_name_of(id: u32) -> (name: String)
    ensures
        name@ == session_file_name(id as nat),
{
    numbered("session_", id as u64, ".csv")
}

/// Where the log of session `id` goes.
pub fn session_path_of(id: u32) -> (path: String)
    ensures
        path@ == session_path(id as nat),
{
    let mut out: Vec<char> = chars_of("session/");
    let name: String = session_file_name_of(id);
    push_all(&mut out, &chars_of(name.as_str()));
    string_of(&out)
}

/// The line of one reading.
pub fn record_text(sensor: &SensorLabel) -> (line: String)
    ensures
        line@ == record_line(sensor@),
{
    let mut out: Vec<char> = chars_of(device_type(sensor));
    out.push(',');
    push_all(&mut out, &chars_of(sensor.label.as_str()));
    out.push(',');
    push_decimal(&mut out, sensor.temp as u64);
    assert(out@ =~= record_line(sensor@));
    string_of(&out)
}

/// The lines that close a log: the seconds that the run took and, where
/// there is one, the processor temperature at which it ended.
pub open spec fn trailer_lines(elapsed_secs: u64, cpu_temp: Option<u32>) -> Seq<Seq<char>> {
    match cpu_temp {
        Some(temp) => seq![total_line(elapsed_secs), exit_line(temp)],
        None => seq![total_line(elapsed_secs)],
    }
}

/// The lines that close a log.
pub fn trailer(elapsed_secs: u64, cpu_temp: Option<u32>) -> (lines: Vec<String>)
    ensures
        texts(lines@) == trailer_lines(elapsed_secs, cpu_temp),
{
    let mut lines: Vec<String> = Vec::new();
    let total: String = numbered("#Total: ", elapsed_secs, "");
    proof {
        reveal_strlit("");
        assert(total@ =~= total_line(elapsed_secs));
    }
    lines.push(total);
    match cpu_temp {
        Some(temp) => {
            let exit: String = numbered("CPU,Exit,", temp as u64, "");
            assert(exit@ =~= exit_line(temp));
            lines.push(exit);
        },
        None => {},
    }
    assert(texts(lines@) =~= trailer_lines(elapsed_secs, cpu_temp));
    lines
}

/// The number of the next session, given the names of the files in the
/// session directory: the smallest number that no log there has. `None`
/// where every number of 32 bits is taken.
pub fn next_session_id(names: &Vec<String>) -> (id: Option<u32>)
    ensures
        match id {
            Some(n) => is_next_id(texts(names@), n as nat),
            None => forall|m: nat| m <= u32::MAX ==> #[trigger] in_use(texts(names@), m),
        },
{
    let ghost all = texts(names@);
    let mut taken: Vec<Vec<char>> = Vec::new();
    let mut k: usize = 0;
    while k < names.len()
        invariant
            k <= names.len(),
            taken.len() == k,
            forall|i: int| 0 <= i < k ==> (#[trigger] taken@[i])@ == names@[i]@,
        decreases names.len() - k,
    {
        taken.push(chars_of(names[k].as_str()));
        k += 1;
    }
    let mut candidate: u32 = 0;
    loop
        invariant
            all == texts(names@),
            taken.len() == names.len(),
            forall|i: int| 0 <= i < names.len() ==> (#[trigger] taken@[i])@ == names@[i]@,
            forall|m: nat| m < candidate ==> #[trigger] in_use(all, m),
        decreases u32::MAX - candidate,
    {
        let name: Vec<char> = chars_of(session_file_name_of(candidate).as_str());
        let mut found: bool = false;
        let mut i: usize = 0;
        while i < taken.len() && !found
            invariant
                i <= taken.len(),
                all == texts(names@),
                taken.len() == names.len(),
                name@ == session_file_name(candidate as nat),
                forall|j: int| 0 <= j < names.len() ==> (#[trigger] taken@[j])@ == names@[j]@,
                !found ==> forall|j: int| 0 <= j < i ==> all[j] != name@,
                found ==> in_use(all, candidate as nat),
            decreases taken.len() - i + (if found { 0int } else { 1int }),
        {
            if same_chars(&taken[i], &name) {
                found = true;
                assert(all[i as int] == name@);
            } else {
                i += 1;
            }
        }
        if !found {
            return Some(candidate);
        }
        if candidate == u32::MAX {
            return None;
        }
        candidate += 1;
    }
}

impl SessionFile {
    /// Whether the buffer is below its threshold, as it is between any two
    /// calls once the session was made with a threshold above zero.
    pub open spec fn wf(&self) -> bool {
        self.buffer@.len() < self.flush_interval
    }

    /// Takes in one record. Once the buffer holds as many records as the
    /// threshold says, all of them are handed back to be written, oldest
    /// first, and the buffer is empty; before that, nothing is handed back.
    pub fn append(&mut self, record: String) -> (flushed: Vec<String>)
        ensures
            final(self).id == old(self).id,
            final(self).flush_interval == old(self).flush_interval,
            old(self).buffer@.len() + 1 >= old(self).flush_interval ==> flushed@ == old(
                self,
            ).buffer@.push(record) && final(self).buffer@.len() == 0,
            old(self).buffer@.len() + 1 < old(self).flush_interval ==> flushed@.len() == 0
                && final(self).buffer@ == old(self).buffer@.push(record),
            (texts(final(self).buffer@), texts(flushed@)) == append_model(
                texts(old(self).buffer@),
                record@,
                old(self).flush_interval as nat,
            ),
            final(self).buffer@.len() <= final(self).flush_interval,
            flushed@.len() > 0 ==> final(self).buffer@.len() == 0,
            old(self).flush_interval > 0 ==> final(self).wf(),
    {
        let mut flushed: Vec<String> = Vec::new();
        self.buffer.push(record);
        if self.buffer.len() >= self.flush_interval {
            flushed.append(&mut self.buffer);
        }
        proof {
            let gathered = old(self).buffer@.push(record);
            assert(texts(gathered) =~= texts(old(self).buffer@).push(record@));
            assert(texts(self.buffer@) =~= append_model(
                texts(old(self).buffer@),
                record@,
                old(self).flush_interval as nat,
            ).0);
            assert(texts(flushed@) =~= append_model(
                texts(old(self).buffer@),
                record@,
                old(self).flush_interval as nat,
            ).1);
        }
        flushed
    }

    /// Closes the log: hands back the records that are still in the buffer,
    /// followed by the closing lines, and leaves the buffer empty.
    pub fn finalize(&mut self, trailer_lines: Vec<String>) -> (written: Vec<String>)
        ensures
            final(self).id == old(self).id,
            final(self).flush_interval == old(self).flush_interval,
            final(self).buffer@.len() == 0,
            written@ == old(self).buffer@ + trailer_lines@,
            texts(written@) == texts(old(self).buffer@) + texts(trailer_lines@),
    {
        let mut written: Vec<String> = Vec::new();
        let mut rest: Vec<String> = trailer_lines;
        written.append(&mut self.buffer);
        written.append(&mut rest);
        assert(written@ =~= old(self).buffer@ + trailer_lines@);
        assert(texts(written@) =~= texts(old(self).buffer@) + texts(trailer_lines@));
        written
    }
}

/// Records one snapshot: the line of each reading goes to the buffer, in
/// the order of the snapshot, and whatever the buffer gives up on the way
/// is handed back to be written. Readings of unknown class are recorded
/// only where `record_unknown` asks for it.
pub fn record_frame(session: &mut SessionFile, sensors: &Vec<SensorLabel>, record_unknown: bool) -> (written: Vec<String>)
    ensures
        final(session).id == old(session).id,
        final(session).flush_interval == old(session).flush_interval,
        (texts(final(session).buffer@), texts(written@)) == feed(
            texts(old(session).buffer@),
            record_lines(readings(sensors@), record_unknown),
            old(session).flush_interval as nat,
        ),
        old(session).wf() ==> final(session).wf(),
{
    let ghost snapshot = readings(sensors@);
    let ghost start = texts(session.buffer@);
    let ghost threshold = session.flush_interval as nat;
    let ghost writer = line_writer(record_unknown);
    let mut written: Vec<String> = Vec::new();
    let mut i: usize = 0;
    proof {
        assert(snapshot.take(0) =~= Seq::<Reading>::empty());
        assert(texts(written@) =~= Seq::<Seq<char>>::empty());
    }
    while i < sensors.len()
        invariant
            i <= sensors.len(),
            snapshot == readings(sensors@),
            writer == line_writer(record_unknown),
            session.id == old(session).id,
            session.flush_interval == old(session).flush_interval,
            threshold == session.flush_interval as nat,
            start == texts(old(session).buffer@),
            old(session).wf() ==> session.wf(),
            (texts(session.buffer@), texts(written@)) == feed(
                start,
                snapshot.take(i as int).filter_map(writer),
                threshold,
            ),
        decreases sensors.len() - i,
    {
        let ghost lines_before = snapshot.take(i as int).filter_map(writer);
        let ghost written_before = texts(written@);
        proof {
            snapshot.lemma_filter_map_take_succ(writer, i as int);
            assert(snapshot[i as int] == sensors@[i as int]@);
        }
        let sensor: &SensorLabel = &sensors[i];
        let known: bool = match sensor.device_class() {
            DeviceClass::Unknown => false,
            _ => true,
        };
        if record_unknown || known {
            let line: String = record_text(sensor);
            let mut batch: Vec<String> = session.append(line);
            let ghost batch_texts = texts(batch@);
            written.append(&mut batch);
            proof {
                let lines_after = snapshot.take(i + 1).filter_map(writer);
                assert(lines_after =~= lines_before.push(line@));
                assert(lines_after.drop_last() =~= lines_before);
                assert(texts(written@) =~= written_before + batch_texts);
            }
        }
        i += 1;
    }
    assert(snapshot.take(snapshot.len() as int) =~= snapshot);
    written
}

/// Starts a session: picks its number from the names of the files in the
/// session directory and makes the lines that open its log. `None` where
/// every number of 32 bits is taken.
pub fn session_writter(passers: &ArgumentPassers, existing: &Vec<String>) -> (start: Option<
    SessionStart,
>)
    ensures
        match start {
            Some(s) => {
                &&& is_next_id(texts(existing@), s.session.id as nat)
                &&& s.session.buffer@.len() == 0
                &&& s.session.flush_interval == FLUSH_INTERVAL
                &&& s.session.wf()
                &&& s.path@ == session_path(s.session.id as nat)
                &&& texts(s.preamble@) == seq![delay_line(passers.ms_delay), header_line()]
            },
            None => forall|m: nat| m <= u32::MAX ==> #[trigger] in_use(texts(existing@), m),
        },
{
    match next_session_id(existing) {
        Some(id) => {
            let mut preamble: Vec<String> = Vec::new();
            let delay: String = numbered("# Delay:", passers.ms_delay, "");
            proof {
                reveal_strlit("");
                assert(delay@ =~= delay_line(passers.ms_delay));
            }
            preamble.push(delay);
            preamble.push("Type,Label,Temp".to_owned());
            assert(texts(preamble@) =~= seq![delay_line(passers.ms_delay), header_line()]);
            Some(
                SessionStart {
                    session: SessionFile { id, buffer: Vec::new(), flush_interval: FLUSH_INTERVAL },
                    path: session_path_of(id),
                    preamble,
                },
            )
        },
        None => None,
    }
}

} // verus!
