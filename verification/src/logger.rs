//! Runtime-local diagnostic logging through exact exporter occurrences.

use crate::ids::ExporterKey;
use crate::seqs::{
    first_index, is_first, lemma_filter_step, lemma_first_absent, lemma_first_found, without_first,
};
use crate::text::chars_of;
use std::collections::VecDeque;
use std::time::SystemTime;
use vstd::prelude::*;
use vstd::string::StringExecFns;

verus! {

/// `std::time::SystemTime`: a wall-clock instant, carried through unread.
#[verifier::external_type_specification]
#[verifier::external_body]
pub struct ExSystemTime(SystemTime);

/// Semantic log severity, from least to most severe.
#[derive(Clone, Copy, PartialEq, Eq, Structural, PartialOrd, Ord, Debug)]
pub enum Level {
    /// Verbose diagnostic detail.
    Debug,
    /// Routine operational message.
    Info,
    /// Recoverable anomaly worth surfacing.
    Warn,
    /// Operation-blocking failure.
    Error,
}

impl Level {
    /// The severity's place in the order.
    pub open spec fn rank(self) -> int {
        match self {
            Level::Debug => 0,
            Level::Info => 1,
            Level::Warn => 2,
            Level::Error => 3,
        }
    }

    /// Stable lower-case severity name.
    pub open spec fn spec_name(self) -> Seq<char> {
        match self {
            Level::Debug => "debug"@,
            Level::Info => "info"@,
            Level::Warn => "warn"@,
            Level::Error => "error"@,
        }
    }

    /// Stable lower-case severity name.
    pub fn as_str(self) -> (r: &'static str)
        ensures
            r@ == self.spec_name(),
    {
        match self {
            Level::Debug => "debug",
            Level::Info => "info",
            Level::Warn => "warn",
            Level::Error => "error",
        }
    }

    /// Whether the severity is at least `threshold`.
    pub open spec fn passes(self, threshold: Level) -> bool {
        self.rank() >= threshold.rank()
    }

    /// Whether the severity is at least `threshold`.
    pub fn reaches(self, threshold: Level) -> (r: bool)
        ensures
            r == self.passes(threshold),
    {
        match threshold {
            Level::Debug => true,
            Level::Info => match self {
                Level::Debug => false,
                _ => true,
            },
            Level::Warn => match self {
                Level::Debug | Level::Info => false,
                _ => true,
            },
            Level::Error => match self {
                Level::Error => true,
                _ => false,
            },
        }
    }
}

/// One immutable Runtime-local log record.
#[derive(Debug)]
pub struct LogRecord {
    sequence: u64,
    timestamp: SystemTime,
    channel: String,
    level: Level,
    text: String,
}

/// A log record as a mathematical value.
pub struct LogRecordView {
    pub sequence: u64,
    pub timestamp: SystemTime,
    pub channel: Seq<char>,
    pub level: Level,
    pub text: Seq<char>,
}

impl View for LogRecord {
    type V = LogRecordView;

    closed spec fn view(&self) -> LogRecordView {
        LogRecordView {
            sequence: self.sequence,
            timestamp: self.timestamp,
            channel: self.channel@,
            level: self.level,
            text: self.text@,
        }
    }
}

impl LogRecord {
    /// Runtime-local record-assignment sequence.
    pub fn sequence(&self) -> (r: u64)
        ensures
            r == self@.sequence,
    {
        self.sequence
    }

    /// Wall-clock time captured when this record was assigned.
    pub fn timestamp(&self) -> (r: SystemTime)
        ensures
            r == self@.timestamp,
    {
        self.timestamp
    }

    /// Logger channel that emitted this record.
    pub fn channel(&self) -> (r: &str)
        ensures
            r@ == self@.channel,
    {
        self.channel.as_str()
    }

    /// Semantic record severity.
    pub fn level(&self) -> (r: Level)
        ensures
            r == self@.level,
    {
        self.level
    }

    /// Rendered record text.
    pub fn text(&self) -> (r: &str)
        ensures
            r@ == self@.text,
    {
        self.text.as_str()
    }

    /// Another record with the same content.
    pub fn duplicate(&self) -> (r: LogRecord)
        ensures
            r@ == self@,
    {
        LogRecord {
            sequence: self.sequence,
            timestamp: self.timestamp,
            channel: self.channel.clone(),
            level: self.level,
            text: self.text.clone(),
        }
    }
}

/// A sink for immutable log records.
pub trait Exporter: Sized {
    /// The channel-specific threshold, if the exporter has one.
    spec fn channel_level(&self, channel: Seq<char>) -> Option<Level>;

    /// The threshold for channels without an override.
    spec fn fallback_level(&self) -> Level;

    /// What receiving a record may turn the exporter into.
    spec fn receives(before: Self, record: LogRecordView, after: Self) -> bool;

    /// Receives one record that passed this exporter's threshold.
    fn export(&mut self, record: &LogRecord)
        ensures
            Self::receives(*old(self), record@, *final(self)),
    ;

    /// Optional channel-specific threshold; `None` falls back to the default.
    fn min_level(&self, channel: &str) -> (r: Option<Level>)
        ensures
            r == self.channel_level(channel@),
    ;

    /// Fallback threshold for channels without an override.
    fn default_level(&self) -> (r: Level)
        ensures
            r == self.fallback_level(),
    ;
}

/// The threshold an exporter has for a channel.
pub open spec fn threshold<E: Exporter>(exporter: E, channel: Seq<char>) -> Level {
    match exporter.channel_level(channel) {
        Some(level) => level,
        None => exporter.fallback_level(),
    }
}

/// Attempts one exporter: it receives the record exactly when the record's
/// severity reaches its threshold for the record's channel.
pub fn attempt<E: Exporter>(exporter: &mut E, record: &LogRecord) -> (r: bool)
    ensures
        r == record@.level.passes(threshold(*old(exporter), record@.channel)),
        if r {
            E::receives(*old(exporter), record@, *final(exporter))
        } else {
            *final(exporter) == *old(exporter)
        },
{
    let level = match exporter.min_level(record.channel()) {
        Some(level) => level,
        None => exporter.default_level(),
    };
    if record.level().reaches(level) {
        exporter.export(record);
        true
    } else {
        false
    }
}

/// Rejection for zero-capacity [`BufferExporter`] construction.
#[derive(Clone, Copy, PartialEq, Eq, Structural, Debug)]
pub struct BufferSizeZero;

impl BufferSizeZero {
    /// The text the rejection displays.
    pub fn message(&self) -> (r: String)
        ensures
            r@ == "buffer_size must be greater than zero"@,
    {
        "buffer_size must be greater than zero".to_owned()
    }
}

/// Explicitly installed bounded in-memory exporter. Records are retained in
/// receipt order, oldest to newest.
pub struct BufferExporter {
    capacity: usize,
    buffer: VecDeque<LogRecord>,
    min_level: Level,
}

/// A buffer as a mathematical value.
#[verifier::ext_equal]
pub struct BufferView {
    pub capacity: nat,
    pub records: Seq<LogRecordView>,
    pub min_level: Level,
}

/// The views of a list of records.
pub open spec fn record_views(s: Seq<LogRecord>) -> Seq<LogRecordView> {
    s.map_values(|r: LogRecord| r@)
}

impl View for BufferExporter {
    type V = BufferView;

    closed spec fn view(&self) -> BufferView {
        BufferView {
            capacity: self.capacity as nat,
            records: record_views(self.buffer@),
            min_level: self.min_level,
        }
    }
}

impl BufferView {
    /// The buffer with one record more; a full buffer drops its oldest.
    pub open spec fn receiving(self, record: LogRecordView) -> BufferView {
        BufferView {
            records: if self.records.len() == self.capacity && self.records.len() > 0 {
                self.records.drop_first().push(record)
            } else {
                self.records.push(record)
            },
            ..self
        }
    }

    /// The buffer holds no more than its nonzero capacity.
    pub open spec fn wf(self) -> bool {
        0 < self.capacity && self.records.len() <= self.capacity
    }
}

impl BufferExporter {
    /// A bounded buffer with a nonzero capacity.
    pub fn new(capacity: usize, min_level: Level) -> (r: Result<BufferExporter, BufferSizeZero>)
        ensures
            match r {
                Ok(buffer) => capacity > 0 && buffer@ == (BufferView {
                    capacity: capacity as nat,
                    records: Seq::empty(),
                    min_level,
                }),
                Err(_) => capacity == 0,
            },
    {
        if capacity == 0 {
            return Err(BufferSizeZero);
        }
        let buffer = BufferExporter { capacity, buffer: VecDeque::new(), min_level };
        assert(buffer@.records =~= Seq::empty());
        Ok(buffer)
    }

    /// The retained records in receipt order, oldest first.
    pub fn snapshot(&self) -> (r: Vec<LogRecord>)
        ensures
            record_views(r@) == self@.records,
    {
        let mut out: Vec<LogRecord> = Vec::new();
        let mut i: usize = 0;
        while i < self.buffer.len()
            invariant
                i <= self.buffer@.len(),
                record_views(out@) == self@.records.take(i as int),
            decreases self.buffer@.len() - i,
        {
            let record = self.buffer[i].duplicate();
            assert(record_views(out@.push(record)) =~= record_views(out@).push(record@));
            out.push(record);
            assert(record_views(out@) =~= self@.records.take(i + 1));
            i = i + 1;
        }
        assert(record_views(out@) =~= self@.records);
        out
    }

    /// Removes all retained records.
    pub fn clear(&mut self)
        ensures
            final(self)@ == (BufferView { records: Seq::empty(), ..old(self)@ }),
    {
        self.buffer.clear();
        assert(self@.records =~= Seq::empty());
    }
}

impl Exporter for BufferExporter {
    open spec fn channel_level(&self, channel: Seq<char>) -> Option<Level> {
        None
    }

    open spec fn fallback_level(&self) -> Level {
        self@.min_level
    }

    open spec fn receives(before: Self, record: LogRecordView, after: Self) -> bool {
        after@ == before@.receiving(record)
    }

    fn export(&mut self, record: &LogRecord) {
        let ghost before = self.buffer@;
        if self.buffer.len() == self.capacity {
            let _ = self.buffer.pop_front();
        }
        let ghost rest = self.buffer@;
        let copy = record.duplicate();
        self.buffer.push_back(copy);
        proof {
            assert(record_views(self.buffer@) =~= record_views(rest).push(record@));
            if before.len() == self.capacity && before.len() > 0 {
                assert(record_views(rest) =~= record_views(before).drop_first());
            }
        }
    }

    fn min_level(&self, channel: &str) -> (r: Option<Level>) {
        None
    }

    fn default_level(&self) -> (r: Level) {
        self.min_level
    }
}

/// A bounded buffer stays within its capacity and keeps the newest record last.
pub proof fn law_a_buffer_keeps_the_newest_records(buffer: BufferView, record: LogRecordView)
    requires
        buffer.wf(),
    ensures
        buffer.receiving(record).wf(),
        buffer.receiving(record).records.last() == record,
        buffer.records.len() < buffer.capacity ==> buffer.receiving(record).records
            == buffer.records.push(record),
{
}

/// One installed exporter.
#[derive(Clone, Copy, PartialEq, Eq, Structural, Debug)]
pub struct ExporterOccurrence {
    /// The exact occurrence.
    pub key: ExporterKey,
    /// The host's name for the exporter.
    pub exporter: u64,
}

/// Whether an occurrence is the exact one.
pub open spec fn is_exporter(key: ExporterKey) -> spec_fn(ExporterOccurrence) -> bool {
    |o: ExporterOccurrence| o.key == key
}

/// What one log call does with its record.
pub enum LogDispatch {
    /// The call came from inside an exporter of the same Runtime: nothing is
    /// exported, and the line goes to the host's error stream.
    Suppressed {
        /// The suppressed record.
        record: LogRecord,
        /// The diagnostic line.
        line: String,
    },
    /// The exporters to attempt, in installation order.
    Attempt {
        /// The record.
        record: LogRecord,
        /// The host's names for the exporters.
        exporters: Vec<u64>,
    },
}

/// Record sequence and exporter occurrences of one Runtime.
pub struct LoggerService {
    sequence: u64,
    exporter_sequence: u64,
    exporters: Vec<ExporterOccurrence>,
}

/// The logging state as a mathematical value.
#[verifier::ext_equal]
pub struct LoggerView {
    /// The last record sequence assigned.
    pub sequence: u64,
    /// The last exporter key reserved.
    pub exporter_sequence: u64,
    /// The installed exporters.
    pub exporters: Seq<ExporterOccurrence>,
}

impl View for LoggerService {
    type V = LoggerView;

    closed spec fn view(&self) -> LoggerView {
        LoggerView {
            sequence: self.sequence,
            exporter_sequence: self.exporter_sequence,
            exporters: self.exporters@,
        }
    }
}

impl LoggerView {
    /// Whether `r` is what logging one text comes to: the record carries the next
    /// sequence number; it goes to every exporter, or, from inside an exporter, to
    /// none.
    pub open spec fn logged(
        self,
        r: LogDispatch,
        channel: Seq<char>,
        level: Level,
        text: Seq<char>,
        timestamp: SystemTime,
        reentrant: bool,
    ) -> bool {
        let view = LogRecordView {
            sequence: (self.sequence + 1) as u64,
            timestamp,
            channel,
            level,
            text,
        };
        match r {
            LogDispatch::Suppressed { record, line } => reentrant && record@ == view && line@
                == suppressed_line(view),
            LogDispatch::Attempt { record, exporters } => !reentrant && record@ == view
                && exporters@ == self.handles(),
        }
    }

    /// No records and no exporters.
    pub open spec fn empty() -> LoggerView {
        LoggerView { sequence: 0, exporter_sequence: 0, exporters: Seq::empty() }
    }

    /// The host's names for the installed exporters.
    pub open spec fn handles(self) -> Seq<u64> {
        self.exporters.map_values(|o: ExporterOccurrence| o.exporter)
    }

    /// The state with one exporter more.
    pub open spec fn installing(self, key: ExporterKey, exporter: u64) -> LoggerView {
        LoggerView { exporters: self.exporters.push(ExporterOccurrence { key, exporter }), ..self }
    }

    /// The state with the exact exporter removed.
    pub open spec fn removing(self, key: ExporterKey) -> LoggerView {
        LoggerView { exporters: without_first(self.exporters, is_exporter(key)), ..self }
    }
}

impl LoggerService {
    /// No records and no exporters.
    pub fn new() -> (r: LoggerService)
        ensures
            r@ == LoggerView::empty(),
    {
        let r = LoggerService { sequence: 0, exporter_sequence: 0, exporters: Vec::new() };
        assert(r@ =~= LoggerView::empty());
        r
    }

    /// Whether one record more can be assigned.
    pub fn has_record_room(&self) -> (r: bool)
        ensures
            r == (self@.sequence < u64::MAX),
    {
        self.sequence < u64::MAX
    }

    /// The last exporter key reserved.
    pub fn reserved(&self) -> (r: u64)
        ensures
            r == self@.exporter_sequence,
    {
        self.exporter_sequence
    }

    /// Assigns the next record sequence.
    fn next_sequence(&mut self) -> (r: u64)
        requires
            old(self)@.sequence < u64::MAX,
        ensures
            r == old(self)@.sequence + 1,
            final(self)@ == (LoggerView { sequence: r, ..old(self)@ }),
    {
        self.sequence = self.sequence + 1;
        self.sequence
    }

    /// Reserves a fresh exporter key.
    pub fn reserve_exporter(&mut self) -> (r: ExporterKey)
        requires
            old(self)@.exporter_sequence < u64::MAX,
        ensures
            r.0 == old(self)@.exporter_sequence + 1,
            final(self)@ == (LoggerView { exporter_sequence: r.0, ..old(self)@ }),
    {
        self.exporter_sequence = self.exporter_sequence + 1;
        ExporterKey(self.exporter_sequence)
    }

    /// Installs an exporter under its reserved key.
    pub fn insert_reserved(&mut self, key: ExporterKey, exporter: u64)
        ensures
            final(self)@ == old(self)@.installing(key, exporter),
    {
        self.exporters.push(ExporterOccurrence { key, exporter });
    }

    /// Removes an exact exporter; says whether it was installed.
    pub fn remove_exporter(&mut self, key: ExporterKey) -> (r: bool)
        ensures
            r == (first_index(old(self)@.exporters, is_exporter(key)) is Some),
            final(self)@ == old(self)@.removing(key),
    {
        let mut i: usize = 0;
        while i < self.exporters.len()
            invariant
                i <= self.exporters@.len(),
                *self == *old(self),
                forall|j: int| 0 <= j < i ==> !is_exporter(key)(#[trigger] self@.exporters[j]),
            decreases self.exporters@.len() - i,
        {
            if self.exporters[i].key == key {
                proof {
                    assert(is_first(self@.exporters, is_exporter(key), i as int));
                    lemma_first_found(self@.exporters, is_exporter(key), i as int);
                }
                let _ = self.exporters.remove(i);
                return true;
            }
            i = i + 1;
        }
        proof {
            lemma_first_absent(self@.exporters, is_exporter(key));
        }
        false
    }

    /// The default channel of a Fiber.
    pub fn logger_for_fiber(&self, fiber_name: &str) -> (r: Logger)
        ensures
            r@ == hyphenated(fiber_name@),
    {
        Logger { name: hyphenate(fiber_name) }
    }

    /// What to do with an assigned record. `reentrant` says that the call came
    /// from inside an exporter of this Runtime.
    fn dispatch(&self, record: LogRecord, reentrant: bool) -> (r: LogDispatch)
        ensures
            match r {
                LogDispatch::Suppressed { record: kept, line } => reentrant && kept@ == record@
                    && line@ == suppressed_line(record@),
                LogDispatch::Attempt { record: kept, exporters } => !reentrant && kept@ == record@
                    && exporters@ == self@.handles(),
            },
    {
        if reentrant {
            let mut line: String = "cordis: reentrant log suppressed [".to_owned();
            line.append(record.level.as_str());
            line.append("] ");
            line.append(record.channel.as_str());
            line.append(": ");
            line.append(record.text.as_str());
            return LogDispatch::Suppressed { record, line };
        }
        let mut exporters: Vec<u64> = Vec::new();
        let mut i: usize = 0;
        while i < self.exporters.len()
            invariant
                i <= self.exporters@.len(),
                exporters@ == self@.handles().take(i as int),
            decreases self.exporters@.len() - i,
        {
            exporters.push(self.exporters[i].exporter);
            assert(exporters@ =~= self@.handles().take(i + 1));
            i = i + 1;
        }
        assert(exporters@ =~= self@.handles());
        LogDispatch::Attempt { record, exporters }
    }
}

/// The line a suppressed record leaves.
pub open spec fn suppressed_line(record: LogRecordView) -> Seq<char> {
    "cordis: reentrant log suppressed ["@ + record.level.spec_name() + "] "@ + record.channel
        + ": "@ + record.text
}

/// A named Runtime logging channel.
#[derive(Debug)]
pub struct Logger {
    name: String,
}

impl View for Logger {
    type V = Seq<char>;

    closed spec fn view(&self) -> Seq<char> {
        self.name@
    }
}

impl Logger {
    /// Assigns one immutable record and says what to do with it.
    pub fn log(
        &self,
        service: &mut LoggerService,
        level: Level,
        text: String,
        timestamp: SystemTime,
        reentrant: bool,
    ) -> (r: LogDispatch)
        requires
            old(service)@.sequence < u64::MAX,
        ensures
            final(service)@ == (LoggerView {
                sequence: (old(service)@.sequence + 1) as u64,
                ..old(service)@
            }),
            old(service)@.logged(r, self@, level, text@, timestamp, reentrant),
    {
        let sequence = service.next_sequence();
        let record = LogRecord { sequence, timestamp, channel: self.name.clone(), level, text };
        service.dispatch(record, reentrant)
    }

    /// Logs at [`Level::Error`].
    pub fn error(
        &self,
        service: &mut LoggerService,
        text: String,
        timestamp: SystemTime,
        reentrant: bool,
    ) -> (r: LogDispatch)
        requires
            old(service)@.sequence < u64::MAX,
        ensures
            final(service)@ == (LoggerView {
                sequence: (old(service)@.sequence + 1) as u64,
                ..old(service)@
            }),
            old(service)@.logged(r, self@, Level::Error, text@, timestamp, reentrant),
    {
        self.log(service, Level::Error, text, timestamp, reentrant)
    }

    /// Logs at [`Level::Warn`].
    pub fn warn(
        &self,
        service: &mut LoggerService,
        text: String,
        timestamp: SystemTime,
        reentrant: bool,
    ) -> (r: LogDispatch)
        requires
            old(service)@.sequence < u64::MAX,
        ensures
            final(service)@ == (LoggerView {
                sequence: (old(service)@.sequence + 1) as u64,
                ..old(service)@
            }),
            old(service)@.logged(r, self@, Level::Warn, text@, timestamp, reentrant),
    {
        self.log(service, Level::Warn, text, timestamp, reentrant)
    }

    /// Logs at [`Level::Info`].
    pub fn info(
        &self,
        service: &mut LoggerService,
        text: String,
        timestamp: SystemTime,
        reentrant: bool,
    ) -> (r: LogDispatch)
        requires
            old(service)@.sequence < u64::MAX,
        ensures
            final(service)@ == (LoggerView {
                sequence: (old(service)@.sequence + 1) as u64,
                ..old(service)@
            }),
            old(service)@.logged(r, self@, Level::Info, text@, timestamp, reentrant),
    {
        self.log(service, Level::Info, text, timestamp, reentrant)
    }

    /// Logs at [`Level::Debug`].
    pub fn debug(
        &self,
        service: &mut LoggerService,
        text: String,
        timestamp: SystemTime,
        reentrant: bool,
    ) -> (r: LogDispatch)
        requires
            old(service)@.sequence < u64::MAX,
        ensures
            final(service)@ == (LoggerView {
                sequence: (old(service)@.sequence + 1) as u64,
                ..old(service)@
            }),
            old(service)@.logged(r, self@, Level::Debug, text@, timestamp, reentrant),
    {
        self.log(service, Level::Debug, text, timestamp, reentrant)
    }

    /// Another channel over the same exporters.
    pub fn with_name(&self, name: &str) -> (r: Logger)
        ensures
            r@ == name@,
    {
        Logger { name: name.to_owned() }
    }

    /// This logger's channel name.
    pub fn name(&self) -> (r: &str)
        ensures
            r@ == self@,
    {
        self.name.as_str()
    }
}

/// How a character takes part in splitting a name into words.
#[derive(Clone, Copy, PartialEq, Eq, Structural, Debug)]
pub enum CharClass {
    /// `-` or `_`.
    Delim,
    /// An ASCII capital.
    Upper,
    /// An ASCII lower-case letter.
    Lower,
    /// Anything else: passes through and splits nothing.
    Other,
}

/// The class of a character.
pub open spec fn class_of(c: char) -> CharClass {
    if 'A' <= c && c <= 'Z' {
        CharClass::Upper
    } else if 'a' <= c && c <= 'z' {
        CharClass::Lower
    } else if c == '-' || c == '_' {
        CharClass::Delim
    } else {
        CharClass::Other
    }
}

/// The lower-case form of an ASCII capital.
pub open spec fn lowered(c: char) -> char {
    ((c as u8) + 32) as char
}

/// The class of the last letter or delimiter before position `i`; the start of
/// the name counts as a delimiter.
pub open spec fn class_before(s: Seq<char>, i: int) -> CharClass
    decreases i,
{
    if i <= 0 {
        CharClass::Delim
    } else if class_of(s[i - 1]) is Other {
        class_before(s, i - 1)
    } else {
        class_of(s[i - 1])
    }
}

/// What the character at position `i` contributes. A capital starts a word after
/// a lower-case letter, and after a capital where a lower-case letter follows;
/// delimiters contribute one `-` after a word and nothing otherwise.
pub open spec fn piece(s: Seq<char>, i: int) -> Seq<char> {
    let last = class_before(s, i);
    match class_of(s[i]) {
        CharClass::Upper => {
            let starts = if last is Upper {
                i + 1 < s.len() && class_of(s[i + 1]) is Lower
            } else {
                !(last is Delim)
            };
            if starts {
                seq!['-', lowered(s[i])]
            } else {
                seq![lowered(s[i])]
            }
        },
        CharClass::Delim => if last is Delim {
            Seq::empty()
        } else {
            seq!['-']
        },
        _ => seq![s[i]],
    }
}

/// The first `n` characters' contributions.
pub open spec fn pieces(s: Seq<char>, n: int) -> Seq<char>
    decreases n,
{
    if n <= 0 {
        Seq::empty()
    } else {
        pieces(s, n - 1) + piece(s, n - 1)
    }
}

/// The kebab-case form of a name.
pub open spec fn hyphenated(s: Seq<char>) -> Seq<char> {
    pieces(s, s.len() as int)
}

fn classify(c: char) -> (r: CharClass)
    ensures
        r == class_of(c),
{
    if 'A' <= c && c <= 'Z' {
        CharClass::Upper
    } else if 'a' <= c && c <= 'z' {
        CharClass::Lower
    } else if c == '-' || c == '_' {
        CharClass::Delim
    } else {
        CharClass::Other
    }
}

/// Converts `PascalCase`, `camelCase` and `snake_case` to `kebab-case`: `-` and
/// `_` collapse into a single `-`, leading ones are stripped, and characters that
/// are neither letters nor delimiters pass through without ending a word.
pub fn hyphenate(name: &str) -> (r: String)
    ensures
        r@ == hyphenated(name@),
{
    let chars = chars_of(name);
    let mut out: String = String::new();
    let mut last: CharClass = CharClass::Delim;
    let mut i: usize = 0;
    while i < chars.len()
        invariant
            i <= chars@.len(),
            chars@ == name@,
            last == class_before(chars@, i as int),
            out@ == pieces(chars@, i as int),
        decreases chars@.len() - i,
    {
        let c = chars[i];
        let ghost before = out@;
        let class = classify(c);
        match class {
            CharClass::Upper => {
                let starts = match last {
                    CharClass::Upper => if i + 1 < chars.len() {
                        match classify(chars[i + 1]) {
                            CharClass::Lower => true,
                            _ => false,
                        }
                    } else {
                        false
                    },
                    CharClass::Delim => false,
                    _ => true,
                };
                if starts {
                    out.push('-');
                }
                out.push(((c as u8) + 32) as char);
                last = CharClass::Upper;
            },
            CharClass::Lower => {
                out.push(c);
                last = CharClass::Lower;
            },
            CharClass::Delim => {
                match last {
                    CharClass::Delim => {},
                    _ => {
                        out.push('-');
                    },
                }
                last = CharClass::Delim;
            },
            CharClass::Other => {
                out.push(c);
            },
        }
        assert(out@ =~= before + piece(chars@, i as int));
        i = i + 1;
    }
    out
}

/// A character in lower case.
pub open spec fn lower_case(c: char) -> char {
    if class_of(c) is Upper {
        lowered(c)
    } else {
        c
    }
}

/// Whether a character is none of the delimiters.
pub open spec fn no_delimiter(c: char) -> bool {
    !(class_of(c) is Delim)
}

proof fn lemma_lowered(c: char)
    requires
        class_of(c) is Upper,
    ensures
        class_of(lowered(c)) is Lower,
        lowered(c) != '-',
        lowered(c) != '_',
{
}

/// What holds of the form of a prefix: no capital, no underscore, no dash at the
/// start and no two in a row; and it ends as the prefix does, in a word or not.
proof fn lemma_kebab_prefix(s: Seq<char>, n: int)
    requires
        0 <= n <= s.len(),
    ensures
        forall|i: int|
            0 <= i < pieces(s, n).len() ==> !(class_of(#[trigger] pieces(s, n)[i]) is Upper)
                && pieces(s, n)[i] != '_',
        pieces(s, n).len() > 0 ==> pieces(s, n)[0] != '-',
        forall|i: int|
            0 < i < pieces(s, n).len() && (#[trigger] pieces(s, n)[i]) == '-' ==> pieces(s, n)[i
                - 1] != '-',
        pieces(s, n).len() == 0 ==> class_before(s, n) is Delim,
        pieces(s, n).len() > 0 && pieces(s, n).last() == '-' ==> class_before(s, n) is Delim,
    decreases n,
{
    if n > 0 {
        lemma_kebab_prefix(s, n - 1);
        let shorter = pieces(s, n - 1);
        let last = piece(s, n - 1);
        let whole = pieces(s, n);
        let c = s[n - 1];
        if class_of(c) is Upper {
            lemma_lowered(c);
        }
        assert forall|i: int| 0 <= i < whole.len() implies whole[i] == (if i < shorter.len() {
            shorter[i]
        } else {
            last[i - shorter.len()]
        }) by {}
        assert forall|i: int| 0 < i < whole.len() && (#[trigger] whole[i]) == '-' implies whole[i
            - 1] != '-' by {
            if i < shorter.len() {
                assert(shorter[i] == '-');
                assert(shorter[i - 1] == whole[i - 1]);
            } else if i == shorter.len() {
                assert(whole[i - 1] == shorter.last());
            }
        }
        assert forall|i: int| 0 <= i < whole.len() implies !(class_of(#[trigger] whole[i]) is Upper)
            && whole[i] != '_' by {
            if i < shorter.len() {
                assert(!(class_of(shorter[i]) is Upper));
            }
        }
    }
}

/// The kebab-case form has no capitals and no underscores.
pub proof fn law_kebab_case_has_no_capitals_or_underscores(s: Seq<char>)
    ensures
        forall|i: int|
            0 <= i < hyphenated(s).len() ==> !(class_of(#[trigger] hyphenated(s)[i]) is Upper)
                && hyphenated(s)[i] != '_',
{
    lemma_kebab_prefix(s, s.len() as int);
}

/// The kebab-case form does not start with a dash, and never has two in a row.
pub proof fn law_kebab_case_has_single_inner_dashes(s: Seq<char>)
    ensures
        hyphenated(s).len() > 0 ==> hyphenated(s)[0] != '-',
        forall|i: int|
            0 < i < hyphenated(s).len() && (#[trigger] hyphenated(s)[i]) == '-' ==> hyphenated(s)[i
                - 1] != '-',
{
    lemma_kebab_prefix(s, s.len() as int);
}

proof fn lemma_same_prefix(s: Seq<char>, longer: Seq<char>, n: int)
    requires
        0 <= n <= s.len() <= longer.len(),
        forall|i: int| 0 <= i < s.len() ==> (#[trigger] longer[i]) == s[i],
        forall|i: int| 0 <= i < s.len() ==> !(class_of(#[trigger] s[i]) is Upper),
    ensures
        pieces(longer, n) == pieces(s, n),
        class_before(longer, n) == class_before(s, n),
    decreases n,
{
    if n > 0 {
        lemma_same_prefix(s, longer, n - 1);
        assert(longer[n - 1] == s[n - 1]);
        assert(!(class_of(s[n - 1]) is Upper));
    }
}

/// The form of a prefix is its own form, and ends in a word exactly if the prefix
/// does.
proof fn lemma_kebab_prefix_is_stable(s: Seq<char>, n: int)
    requires
        0 <= n <= s.len(),
    ensures
        hyphenated(pieces(s, n)) == pieces(s, n),
        class_before(pieces(s, n), pieces(s, n).len() as int) is Delim <==> class_before(s, n)
            is Delim,
    decreases n,
{
    if n > 0 {
        lemma_kebab_prefix_is_stable(s, n - 1);
        lemma_kebab_prefix(s, n - 1);
        lemma_kebab_prefix(s, n);
        let shorter = pieces(s, n - 1);
        let last = piece(s, n - 1);
        let whole = pieces(s, n);
        let k = shorter.len() as int;
        assert forall|i: int| 0 <= i < k implies (#[trigger] whole[i]) == shorter[i] by {}
        lemma_same_prefix(shorter, whole, k);
        if class_of(s[n - 1]) is Upper {
            lemma_lowered(s[n - 1]);
        }
        if last.len() == 0 {
            assert(whole =~= shorter);
        } else {
            assert(whole[k] == last[0]);
            assert(!(class_of(whole[k]) is Upper));
            assert(pieces(whole, k + 1) == pieces(whole, k) + piece(whole, k));
            if last.len() == 1 {
                assert(whole.len() == k + 1);
                assert(pieces(whole, k + 1) =~= whole);
            } else {
                assert(last[1] == lowered(s[n - 1]));
                assert(whole[k + 1] == last[1]);
                assert(whole.len() == k + 2);
                assert(pieces(whole, k + 2) == pieces(whole, k + 1) + piece(whole, k + 1));
                assert(pieces(whole, k + 2) =~= whole);
            }
        }
    }
}

/// The kebab-case form is its own kebab-case form.
pub proof fn law_kebab_case_is_stable(s: Seq<char>)
    ensures
        hyphenated(hyphenated(s)) == hyphenated(s),
{
    lemma_kebab_prefix_is_stable(s, s.len() as int);
}

proof fn lemma_kebab_prefix_keeps_the_letters(s: Seq<char>, n: int)
    requires
        0 <= n <= s.len(),
    ensures
        pieces(s, n).filter(|c: char| no_delimiter(c)) == s.take(n).filter(
            |c: char| no_delimiter(c),
        ).map_values(|c: char| lower_case(c)),
    decreases n,
{
    let p = |c: char| no_delimiter(c);
    let f = |c: char| lower_case(c);
    reveal(Seq::filter);
    if n > 0 {
        lemma_kebab_prefix_keeps_the_letters(s, n - 1);
        lemma_filter_step(s, p, n - 1);
        let last = piece(s, n - 1);
        let c = s[n - 1];
        if class_of(c) is Upper {
            lemma_lowered(c);
        }
        Seq::filter_distributes_over_add(pieces(s, n - 1), last, p);
        let kept = s.take(n - 1).filter(p);
        assert(last.take(0) =~= Seq::empty());
        assert(last.take(last.len() as int) =~= last);
        if last.len() > 0 {
            lemma_filter_step(last, p, 0);
        }
        if last.len() > 1 {
            lemma_filter_step(last, p, 1);
        }
        if no_delimiter(c) {
            assert(last.filter(p) =~= seq![f(c)]);
            assert(kept.push(c).map_values(f) =~= kept.map_values(f).push(f(c)));
            assert(pieces(s, n).filter(p) =~= kept.map_values(f).push(f(c)));
        } else {
            assert(last.filter(p) =~= Seq::empty());
            assert(pieces(s, n).filter(p) =~= kept.map_values(f));
        }
    } else {
        assert(s.take(n) =~= Seq::empty());
        assert(s.take(n).filter(p).map_values(f) =~= Seq::empty());
    }
}

/// The kebab-case form changes nothing but hyphens and case: without delimiters it
/// is the name without delimiters, in lower case.
pub proof fn law_kebab_case_changes_hyphens_and_case_alone(s: Seq<char>)
    ensures
        hyphenated(s).filter(|c: char| no_delimiter(c)) == s.filter(
            |c: char| no_delimiter(c),
        ).map_values(|c: char| lower_case(c)),
{
    lemma_kebab_prefix_keeps_the_letters(s, s.len() as int);
    assert(s.take(s.len() as int) =~= s);
}

} // verus!
