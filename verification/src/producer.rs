//! The producer's side of the delimited encoding: how a record is written as one
//! line, and the synthetic records that a test producer sends.

use rand::seq::SliceRandom;
use vstd::prelude::*;
use crate::delimited::{delimited_event, fields_of, timestamp_format, SEPARATOR};
use crate::event::EventView;
use crate::stamp::naive_utc_millis;
use crate::text::{
    all_space, decimal, decimal_u16, free_of, is_digit, join, lemma_decimal_reads_back,
    lemma_split_first, lemma_split_one, lemma_trim_lead, lemma_trim_nothing, lemma_trim_trail,
    render_number, string_of, to_chars, trim, views,
};

verus! {

/// The nine fields of a record as a producer knows them.
#[derive(Clone, Debug, PartialEq, Eq)]
pub struct Record {
    pub code: u16,
    pub level: String,
    pub timestamp: String,
    pub service: String,
    pub process: String,
    pub pid: u32,
    pub thread: String,
    pub thread_id: String,
    pub message: String,
}

/// The mathematical value of a [`Record`].
pub struct RecordView {
    pub code: u16,
    pub level: Seq<char>,
    pub timestamp: Seq<char>,
    pub service: Seq<char>,
    pub process: Seq<char>,
    pub pid: u32,
    pub thread: Seq<char>,
    pub thread_id: Seq<char>,
    pub message: Seq<char>,
}

impl View for Record {
    type V = RecordView;

    open spec fn view(&self) -> RecordView {
        RecordView {
            code: self.code,
            level: self.level@,
            timestamp: self.timestamp@,
            service: self.service@,
            process: self.process@,
            pid: self.pid,
            thread: self.thread@,
            thread_id: self.thread_id@,
            message: self.message@,
        }
    }
}

/// What stands between two fields of a line: the separator with a space on each
/// side.
pub open spec fn spacer() -> Seq<char> {
    seq![' ', SEPARATOR, ' ']
}

/// The parts written one after the other with a spacer between neighbours.
pub open spec fn chain(parts: Seq<Seq<char>>) -> Seq<char>
    decreases parts.len(),
{
    if parts.len() == 0 {
        Seq::empty()
    } else if parts.len() == 1 {
        parts[0]
    } else {
        parts[0] + spacer() + chain(parts.skip(1))
    }
}

/// The nine fields of a record as texts, numbers in decimal.
pub open spec fn record_parts(record: RecordView) -> Seq<Seq<char>> {
    seq![
        decimal(record.code as nat),
        record.level,
        record.timestamp,
        record.service,
        record.process,
        decimal(record.pid as nat),
        record.thread,
        record.thread_id,
        record.message,
    ]
}

/// The line that a record is written as.
pub open spec fn rendered(record: RecordView) -> Seq<char> {
    chain(record_parts(record))
}

/// Writes the parts one after the other with a spacer between neighbours.
pub fn chain_parts(parts: &Vec<Vec<char>>) -> (line: Vec<char>)
    ensures
        line@ == chain(views(parts@)),
{
    let ghost all = views(parts@);
    let mut line: Vec<char> = Vec::new();
    if parts.len() == 0 {
        return line;
    }
    let mut i: usize = 0;
    assert(all.skip(0) =~= all);
    assert(line@ + chain(all) =~= chain(all));
    while i + 1 < parts.len()
        invariant
            i < parts.len(),
            all == views(parts@),
            line@ + chain(all.skip(i as int)) == chain(all),
        decreases parts.len() - i,
    {
        let ghost before = line@;
        let part = &parts[i];
        let mut k: usize = 0;
        while k < part.len()
            invariant
                k <= part.len(),
                line@ == before + part@.take(k as int),
            decreases part.len() - k,
        {
            line.push(part[k]);
            k += 1;
            assert(line@ =~= before + part@.take(k as int));
        }
        line.push(' ');
        line.push(SEPARATOR);
        line.push(' ');
        proof {
            assert(part@.take(k as int) =~= part@);
            assert(all.skip(i as int)[0] == part@);
            assert(all.skip(i as int).skip(1) =~= all.skip(i + 1));
            assert(line@ =~= before + part@ + spacer());
            assert(line@ + chain(all.skip(i + 1)) =~= before + (part@ + spacer() + chain(
                all.skip(i + 1),
            )));
        }
        i += 1;
    }
    let ghost before = line@;
    let part = &parts[i];
    let mut k: usize = 0;
    while k < part.len()
        invariant
            k <= part.len(),
            line@ == before + part@.take(k as int),
        decreases part.len() - k,
    {
        line.push(part[k]);
        k += 1;
        assert(line@ =~= before + part@.take(k as int));
    }
    proof {
        assert(part@.take(k as int) =~= part@);
        assert(all.skip(i as int)[0] == part@);
        assert(all.skip(i as int).len() == 1);
    }
    line
}

/// Writes a record as one line of the delimited encoding.
pub fn render(record: &Record) -> (line: String)
    ensures
        line@ == rendered(record@),
{
    let mut parts: Vec<Vec<char>> = Vec::new();
    parts.push(render_number(record.code as u64));
    parts.push(to_chars(record.level.as_str()));
    parts.push(to_chars(record.timestamp.as_str()));
    parts.push(to_chars(record.service.as_str()));
    parts.push(to_chars(record.process.as_str()));
    parts.push(render_number(record.pid as u64));
    parts.push(to_chars(record.thread.as_str()));
    parts.push(to_chars(record.thread_id.as_str()));
    parts.push(to_chars(record.message.as_str()));
    assert(views(parts@) =~= record_parts(record@));
    string_of(&chain_parts(&parts))
}

/// The fields of a chain of parts that hold no separator are the parts, trimmed:
/// the spaces of the spacers, and any white space put in front, fall to the
/// trimming.
pub proof fn lemma_chain_fields(lead: Seq<char>, parts: Seq<Seq<char>>)
    requires
        parts.len() > 0,
        all_space(lead),
        free_of(lead, SEPARATOR),
        forall|i: int| 0 <= i < parts.len() ==> free_of(#[trigger] parts[i], SEPARATOR),
    ensures
        fields_of(lead + chain(parts)) == parts.map_values(|part: Seq<char>| trim(part)),
    decreases parts.len(),
{
    let trimmed = parts.map_values(|part: Seq<char>| trim(part));
    if parts.len() == 1 {
        let only = lead + parts[0];
        assert(free_of(only, SEPARATOR));
        lemma_split_one(only, SEPARATOR);
        lemma_trim_lead(lead, parts[0]);
        assert(fields_of(only) =~= trimmed);
    } else {
        let rest = parts.skip(1);
        let piece = (lead + parts[0]).push(' ');
        let tail = seq![' '] + chain(rest);
        assert(lead + chain(parts) =~= piece.push(SEPARATOR) + tail);
        assert(free_of(piece, SEPARATOR));
        lemma_split_first(piece, SEPARATOR, tail);
        assert forall|i: int| 0 <= i < rest.len() implies free_of(#[trigger] rest[i], SEPARATOR) by {
            assert(rest[i] == parts[i + 1]);
        }
        lemma_chain_fields(seq![' '], rest);
        lemma_trim_trail(lead + parts[0], ' ');
        lemma_trim_lead(lead, parts[0]);
        let rest_trimmed = rest.map_values(|part: Seq<char>| trim(part));
        assert(fields_of(lead + chain(parts)) =~= seq![trim(piece)] + fields_of(tail));
        assert(seq![trim(parts[0])] + rest_trimmed =~= trimmed);
    }
}

/// Round trip. The line that a record is written as, where none of its texts holds
/// the separator, decodes to an event with the record's code, its service and
/// message trimmed, and the instant that its trimmed timestamp denotes; it decodes
/// to nothing exactly where that timestamp denotes none.
pub proof fn lemma_render_round_trip(record: RecordView)
    requires
        free_of(record.level, SEPARATOR),
        free_of(record.timestamp, SEPARATOR),
        free_of(record.service, SEPARATOR),
        free_of(record.process, SEPARATOR),
        free_of(record.thread, SEPARATOR),
        free_of(record.thread_id, SEPARATOR),
        free_of(record.message, SEPARATOR),
    ensures
        delimited_event(rendered(record)) == (match naive_utc_millis(
            trim(record.timestamp),
            timestamp_format(),
        ) {
            Some(millis) => Some(
                EventView {
                    code: record.code,
                    service: trim(record.service),
                    timestamp: millis,
                    message: trim(record.message),
                },
            ),
            None => None,
        }),
{
    let parts = record_parts(record);
    let code = decimal(record.code as nat);
    let pid = decimal(record.pid as nat);
    lemma_decimal_reads_back(record.code as nat);
    lemma_decimal_reads_back(record.pid as nat);
    assert(free_of(code, SEPARATOR)) by {
        assert forall|i: int| 0 <= i < code.len() implies #[trigger] code[i] != SEPARATOR by {
            assert(is_digit(code[i]));
        }
    }
    assert(free_of(pid, SEPARATOR)) by {
        assert forall|i: int| 0 <= i < pid.len() implies #[trigger] pid[i] != SEPARATOR by {
            assert(is_digit(pid[i]));
        }
    }
    let lead = Seq::<char>::empty();
    lemma_chain_fields(lead, parts);
    assert(lead + chain(parts) =~= chain(parts));
    let fields = fields_of(rendered(record));
    assert(fields.len() == 9);
    assert(fields[0] == trim(code));
    assert(fields[2] == trim(record.timestamp));
    assert(fields[3] == trim(record.service));
    assert(fields[8] == trim(record.message));
    lemma_trim_nothing(code);
    assert(code[0] != '+') by {
        assert(is_digit(code[0]));
    }
    assert(decimal_u16(code) == Some(record.code));
    assert(fields.skip(8) =~= seq![trim(record.message)]);
    assert(join(fields.skip(8), SEPARATOR) == trim(record.message));
}

/// The level names that a synthetic record may carry.
#[derive(Clone, Copy, Debug, PartialEq, Eq, Structural)]
pub enum Level {
    Info,
    Debug,
    Error,
    Critical,
}

impl Level {
    /// The name as it stands in a line.
    pub open spec fn spec_name(self) -> Seq<char> {
        match self {
            Level::Info => "INFO"@,
            Level::Debug => "DEBUG"@,
            Level::Error => "ERROR"@,
            Level::Critical => "CRITICAL"@,
        }
    }

    /// The name as it stands in a line.
    pub fn name(self) -> (name: &'static str)
        ensures
            name@ == self.spec_name(),
    {
        match self {
            Level::Info => "INFO",
            Level::Debug => "DEBUG",
            Level::Error => "ERROR",
            Level::Critical => "CRITICAL",
        }
    }
}

/// The codes that synthetic records are drawn from.
pub open spec fn sample_codes() -> Seq<u16> {
    seq![100u16, 200, 404, 500, 401, 402, 403, 400, 101, 102, 103, 104, 105, 106, 107, 108]
}

/// The levels that synthetic records are drawn from.
pub open spec fn sample_levels() -> Seq<Level> {
    seq![Level::Info, Level::Debug, Level::Error, Level::Critical]
}

/// The synthetic record with the given code and level, written at `timestamp` by
/// the process `pid`.
pub open spec fn sample_record(
    code: u16,
    level: Level,
    timestamp: Seq<char>,
    pid: u32,
) -> RecordView {
    RecordView {
        code,
        level: level.spec_name(),
        timestamp,
        service: "hlp.camera.CameraConsumer"@,
        process: "MainProcess"@,
        pid,
        thread: "MainThread"@,
        thread_id: "threadId"@,
        message: "Sample message for code "@ + decimal(code as nat),
    }
}

/// Picks one item with `rand::seq::SliceRandom::choose` and the thread's generator:
/// none of an empty list, else some item of the list. Which one is left open.
#[verifier::external_body]
pub(crate) fn pick<T>(items: &Vec<T>) -> (picked: Option<&T>)
    ensures
        items.len() == 0 ==> picked is None,
        items.len() > 0 ==> picked is Some && items@.contains(*picked->0),
{
    items.choose(&mut rand::thread_rng())
}

/// The line of the synthetic record with the given code and level.
pub fn compose(code: u16, level: Level, timestamp: &str, pid: u32) -> (line: String)
    ensures
        line@ == rendered(sample_record(code, level, timestamp@, pid)),
{
    let mut message = to_chars("Sample message for code ");
    let mut digits = render_number(code as u64);
    message.append(&mut digits);
    let record = Record {
        code,
        level: string_of(&to_chars(level.name())),
        timestamp: string_of(&to_chars(timestamp)),
        service: string_of(&to_chars("hlp.camera.CameraConsumer")),
        process: string_of(&to_chars("MainProcess")),
        pid,
        thread: string_of(&to_chars("MainThread")),
        thread_id: string_of(&to_chars("threadId")),
        message: string_of(&message),
    };
    render(&record)
}

/// One synthetic line: a code and a level drawn at random from the samples, written
/// at `timestamp` by the process `pid`.
pub fn synthesize(timestamp: &str, pid: u32) -> (line: String)
    ensures
        exists|code: u16, level: Level|
            sample_codes().contains(code) && sample_levels().contains(level) && line@ == rendered(
                #[trigger] sample_record(code, level, timestamp@, pid),
            ),
{
    let codes: Vec<u16> = vec![
        100,
        200,
        404,
        500,
        401,
        402,
        403,
        400,
        101,
        102,
        103,
        104,
        105,
        106,
        107,
        108,
    ];
    let levels: Vec<Level> = vec![Level::Info, Level::Debug, Level::Error, Level::Critical];
    assert(codes@ =~= sample_codes());
    assert(levels@ =~= sample_levels());
    let code = match pick(&codes) {
        Some(code) => *code,
        None => 100,
    };
    let level = match pick(&levels) {
        Some(level) => *level,
        None => Level::Info,
    };
    compose(code, level, timestamp, pid)
}

} // verus!
