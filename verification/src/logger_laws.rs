//! What logging promises: which records an exporter gets, what a bounded buffer
//! retains, and how records are numbered.

use crate::ids::ExporterKey;
use crate::logger::{
    class_before, class_of, hyphenated, is_exporter, lowered, piece, pieces, threshold,
    BufferExporter, BufferView, CharClass, Exporter, ExporterOccurrence, Level, LogDispatch,
    LogRecordView, LoggerView,
};
use crate::seqs::{first_index, is_first, lemma_first_absent, lemma_first_found, lemma_first_meets};
use std::time::SystemTime;
use vstd::prelude::*;

verus! {

impl BufferView {
    /// The buffer after a run of records.
    pub open spec fn receiving_all(self, records: Seq<LogRecordView>) -> BufferView
        decreases records.len(),
    {
        if records.len() == 0 {
            self
        } else {
            self.receiving_all(records.drop_last()).receiving(records.last())
        }
    }
}

/// The last `n` of a list, in their order; all of them where there are no more.
pub open spec fn newest(all: Seq<LogRecordView>, n: nat) -> Seq<LogRecordView> {
    if all.len() <= n {
        all
    } else {
        all.skip(all.len() - n)
    }
}

/// However many records a buffer receives, it holds the newest ones it has room for,
/// in the order they were received: those it held first, then those received.
pub proof fn law_a_buffer_holds_the_last_records(
    buffer: BufferView,
    records: Seq<LogRecordView>,
)
    requires
        buffer.wf(),
    ensures
        ({
            let after = buffer.receiving_all(records);
            &&& after.wf()
            &&& after.capacity == buffer.capacity
            &&& after.min_level == buffer.min_level
            &&& after.records == newest(buffer.records + records, buffer.capacity)
            &&& after.records.len() == (if buffer.records.len() + records.len()
                < buffer.capacity {
                (buffer.records.len() + records.len()) as nat
            } else {
                buffer.capacity
            })
        }),
    decreases records.len(),
{
    let all = buffer.records + records;
    if records.len() == 0 {
        assert(all =~= buffer.records);
    } else {
        let shorter = records.drop_last();
        let before = buffer.records + shorter;
        law_a_buffer_holds_the_last_records(buffer, shorter);
        assert(all =~= before.push(records.last()));
        let held = buffer.receiving_all(shorter).records;
        if before.len() < buffer.capacity {
            assert(held == before);
        } else {
            assert(held =~= before.skip(before.len() - buffer.capacity));
            assert(held.drop_first().push(records.last()) =~= all.skip(
                all.len() - buffer.capacity,
            ));
        }
    }
}

/// A buffer that was empty holds the last of the records it received, as many as it
/// has room for.
pub proof fn law_a_fresh_buffer_holds_the_last_records(
    capacity: nat,
    min_level: Level,
    records: Seq<LogRecordView>,
    k: int,
)
    requires
        0 < capacity,
        0 <= k < capacity,
        k < records.len(),
    ensures
        ({
            let fresh = BufferView { capacity, records: Seq::empty(), min_level };
            let held = fresh.receiving_all(records).records;
            &&& k < held.len()
            &&& held[held.len() - 1 - k] == records[records.len() - 1 - k]
        }),
{
    let fresh = BufferView { capacity, records: Seq::empty(), min_level };
    law_a_buffer_holds_the_last_records(fresh, records);
    assert(fresh.records + records =~= records);
}

/// Severities are ordered: debug below info below warn below error. A record passes a
/// threshold exactly if its severity is not below it.
pub proof fn law_severities_are_ordered(a: Level, b: Level)
    ensures
        a.passes(b) <==> match b {
            Level::Debug => true,
            Level::Info => a != Level::Debug,
            Level::Warn => a == Level::Warn || a == Level::Error,
            Level::Error => a == Level::Error,
        },
        Level::Debug.rank() < Level::Info.rank() < Level::Warn.rank() < Level::Error.rank(),
        a.rank() == b.rank() ==> a == b,
{
}

/// The exporters of a record are those installed, in the order of installation; one
/// that is removed gets none, and the others keep their order.
pub proof fn law_records_go_to_the_installed_exporters(
    logger: LoggerView,
    key: ExporterKey,
    exporter: u64,
)
    requires
        forall|i: int|
            0 <= i < logger.exporters.len() ==> (#[trigger] logger.exporters[i]).key != key,
    ensures
        logger.installing(key, exporter).handles() == logger.handles().push(exporter),
        logger.installing(key, exporter).removing(key) == logger,
        logger.removing(key) == logger,
{
    let more = logger.installing(key, exporter);
    let n = logger.exporters.len() as int;
    assert(more.handles() =~= logger.handles().push(exporter));
    assert(is_first(more.exporters, is_exporter(key), n));
    lemma_first_found(more.exporters, is_exporter(key), n);
    assert(more.exporters.remove(n) =~= logger.exporters);
    assert(more.removing(key) =~= logger);
    lemma_first_absent(logger.exporters, is_exporter(key));
    assert(logger.removing(key) =~= logger);
}

/// The removal of one exporter leaves every other installed.
pub proof fn law_a_removal_leaves_the_other_exporters(
    logger: LoggerView,
    key: ExporterKey,
    other: ExporterOccurrence,
)
    requires
        other.key != key,
    ensures
        logger.removing(key).exporters.contains(other) == logger.exporters.contains(other),
{
    let rows = logger.exporters;
    lemma_first_meets(rows, is_exporter(key));
    match first_index(rows, is_exporter(key)) {
        Some(i) => {
            let fewer = rows.remove(i);
            if rows.contains(other) {
                let k = choose|k: int| 0 <= k < rows.len() && rows[k] == other;
                if k < i {
                    assert(fewer[k] == other);
                } else {
                    assert(fewer[k - 1] == other);
                }
            }
            if fewer.contains(other) {
                let k = choose|k: int| 0 <= k < fewer.len() && fewer[k] == other;
                if k < i {
                    assert(rows[k] == other);
                } else {
                    assert(rows[k + 1] == other);
                }
            }
        },
        None => {},
    }
}

/// Records are numbered one after the other from one on; each carries what it was
/// logged with; one logged from inside an exporter goes to no exporter, any other to
/// all of them.
pub proof fn law_records_are_numbered_without_gaps(
    logger: LoggerView,
    first: LogDispatch,
    second: LogDispatch,
    channel: Seq<char>,
    level: Level,
    text: Seq<char>,
    at: SystemTime,
    inside: bool,
)
    requires
        logger.sequence < u64::MAX - 1,
        logger.logged(first, channel, level, text, at, inside),
        (LoggerView { sequence: (logger.sequence + 1) as u64, ..logger }).logged(
            second,
            channel,
            level,
            text,
            at,
            inside,
        ),
    ensures
        first is Suppressed <==> inside,
        record_of(first).sequence == logger.sequence + 1,
        record_of(second).sequence == record_of(first).sequence + 1,
        record_of(first).channel == channel,
        record_of(first).level == level,
        record_of(first).text == text,
        record_of(first).timestamp == at,
        first matches LogDispatch::Attempt { exporters, .. } ==> exporters@.len()
            == logger.exporters.len() && forall|i: int|
            0 <= i < logger.exporters.len() ==> #[trigger] exporters@[i]
                == logger.exporters[i].exporter,
{
}

/// The record of one log call.
pub open spec fn record_of(r: LogDispatch) -> LogRecordView {
    match r {
        LogDispatch::Suppressed { record, .. } => record@,
        LogDispatch::Attempt { record, .. } => record@,
    }
}

proof fn lemma_front_pieces(a: Seq<char>, b: Seq<char>, n: int)
    requires
        0 <= n <= a.len(),
        b.len() > 0 && a.len() > 0 && class_of(b[0]) is Lower ==> !(class_of(a.last()) is Upper),
    ensures
        pieces(a + b, n) == pieces(a, n),
        class_before(a + b, n) == class_before(a, n),
    decreases n,
{
    if n > 0 {
        lemma_front_pieces(a, b, n - 1);
        assert((a + b)[n - 1] == a[n - 1]);
        if n < a.len() {
            assert((a + b)[n] == a[n]);
        } else if b.len() > 0 {
            assert((a + b)[n] == b[0]);
            assert(a.last() == a[n - 1]);
        }
    }
}

proof fn lemma_back_pieces(a: Seq<char>, b: Seq<char>, m: int)
    requires
        0 < m <= b.len(),
        !(class_of(b[0]) is Other),
        b.len() > 0 && a.len() > 0 && class_of(b[0]) is Lower ==> !(class_of(a.last()) is Upper),
    ensures
        pieces(a + b, a.len() + m) == pieces(a, a.len() as int) + piece(a + b, a.len() as int)
            + pieces(b, m).skip(piece(b, 0).len() as int),
        class_before(a + b, a.len() + m) == class_before(b, m),
    decreases m,
{
    let s = a + b;
    let k = a.len() as int;
    if m == 1 {
        lemma_front_pieces(a, b, k);
        assert(s[k] == b[0]);
        assert(pieces(s, k + 1) == pieces(s, k) + piece(s, k));
        assert(pieces(b, 0) =~= Seq::empty());
        assert(pieces(b, 1) =~= piece(b, 0));
        assert(pieces(b, 1).skip(piece(b, 0).len() as int) =~= Seq::empty());
        assert(pieces(s, k + 1) =~= pieces(a, k) + piece(s, k) + Seq::empty());
    } else {
        lemma_back_pieces(a, b, m - 1);
        lemma_first_piece(b, m - 1);
        assert(s[k + m - 1] == b[m - 1]);
        if m < b.len() {
            assert(s[k + m] == b[m]);
        }
        assert(piece(s, k + m - 1) == piece(b, m - 1));
        let cut = piece(b, 0).len() as int;
        assert(pieces(b, m).skip(cut) =~= pieces(b, m - 1).skip(cut) + piece(b, m - 1));
        assert(pieces(s, k + m) == pieces(s, k + (m - 1)) + piece(s, k + m - 1));
        assert(pieces(s, k + m) =~= pieces(a, k) + piece(s, k) + pieces(b, m).skip(cut));
    }
}

proof fn lemma_first_piece(b: Seq<char>, m: int)
    requires
        0 < m <= b.len(),
    ensures
        pieces(b, m).len() >= piece(b, 0).len(),
        pieces(b, m).take(piece(b, 0).len() as int) == piece(b, 0),
    decreases m,
{
    if m == 1 {
        assert(pieces(b, 0) =~= Seq::empty());
        assert(pieces(b, 1) =~= piece(b, 0));
        assert(pieces(b, 1).take(piece(b, 0).len() as int) =~= piece(b, 0));
    } else {
        lemma_first_piece(b, m - 1);
        let cut = piece(b, 0).len() as int;
        assert(pieces(b, m).take(cut) =~= pieces(b, m - 1).take(cut));
    }
}

/// Whether a name's last letter or delimiter is of a class; what is neither passes
/// through.
pub open spec fn ends_in(name: Seq<char>, class: CharClass) -> bool {
    class_before(name, name.len() as int) == class
}

/// A capital behind a lower-case letter begins a word, and so does a capital behind
/// another where a lower-case letter follows: the words are joined by one dash. A
/// capital behind another where none follows goes on with the word.
pub proof fn law_a_capital_begins_a_word(a: Seq<char>, b: Seq<char>)
    requires
        b.len() > 0,
        'A' <= b[0] <= 'Z',
    ensures
        ends_in(a, CharClass::Lower) ==> hyphenated(a + b) == hyphenated(a) + seq!['-']
            + hyphenated(b),
        ends_in(a, CharClass::Upper) && b.len() > 1 && 'a' <= b[1] <= 'z' ==> hyphenated(a + b)
            == hyphenated(a) + seq!['-'] + hyphenated(b),
        ends_in(a, CharClass::Upper) && !(b.len() > 1 && 'a' <= b[1] <= 'z') ==> hyphenated(a + b)
            == hyphenated(a) + hyphenated(b),
        ends_in(a, CharClass::Delim) ==> hyphenated(a + b) == hyphenated(a) + hyphenated(b),
{
    let s = a + b;
    let k = a.len() as int;
    let n = b.len() as int;
    lemma_front_pieces(a, b, k);
    lemma_back_pieces(a, b, n);
    lemma_first_piece(b, n);
    assert(s.len() == k + n);
    assert(s[k] == b[0]);
    if n > 1 {
        assert(s[k + 1] == b[1]);
    }
    let whole = pieces(b, n);
    let head = piece(b, 0);
    assert(head == seq![lowered(b[0])]);
    assert(whole =~= head + whole.skip(1)) by {
        assert(whole.take(1) =~= head);
    }
    assert(seq!['-', lowered(b[0])] =~= seq!['-'] + head);
    let front = pieces(a, k);
    assert(front + seq!['-', lowered(b[0])] + whole.skip(1) =~= front + seq!['-'] + whole);
    assert(front + head + whole.skip(1) =~= front + whole);
}

/// Words are told apart by dashes and underscores: one of them behind a word becomes
/// one dash, another behind it or at the start becomes nothing.
pub proof fn law_a_delimiter_becomes_one_dash(a: Seq<char>, d: char, b: Seq<char>)
    requires
        d == '-' || d == '_',
    ensures
        !ends_in(a, CharClass::Delim) ==> hyphenated(a.push(d) + b) == hyphenated(a) + seq!['-']
            + hyphenated(b),
        ends_in(a, CharClass::Delim) ==> hyphenated(a.push(d) + b) == hyphenated(a) + hyphenated(b),
        ends_in(a.push(d), CharClass::Delim),
{
    let one = seq![d];
    assert(a.push(d) =~= a + one);
    lemma_front_pieces(a, one, a.len() as int);
    let k = a.len() as int;
    let front = a.push(d);
    assert(front[k] == d);
    assert(pieces(front, k + 1) == pieces(front, k) + piece(front, k));
    lemma_delimited_pieces(front, b, b.len() as int);
    assert((front + b).len() == k + 1 + b.len());
    assert(hyphenated(a) + Seq::<char>::empty() =~= hyphenated(a));
}

proof fn lemma_delimited_pieces(front: Seq<char>, b: Seq<char>, m: int)
    requires
        0 <= m <= b.len(),
        front.len() > 0,
        class_of(front.last()) is Delim,
    ensures
        pieces(front + b, front.len() + m) == pieces(front, front.len() as int) + pieces(b, m),
        class_before(front + b, front.len() + m) == class_before(b, m),
    decreases m,
{
    let s = front + b;
    let k = front.len() as int;
    if m == 0 {
        lemma_front_pieces(front, b, k);
        assert(s[k - 1] == front.last());
        assert(pieces(front, k) + pieces(b, 0) =~= pieces(front, k));
    } else {
        lemma_delimited_pieces(front, b, m - 1);
        assert(s[k + m - 1] == b[m - 1]);
        if m < b.len() {
            assert(s[k + m] == b[m]);
        }
        assert(piece(s, k + m - 1) == piece(b, m - 1));
        assert(pieces(s, k + m) == pieces(s, k + (m - 1)) + piece(s, k + m - 1));
        assert(pieces(s, k + m) =~= pieces(front, k) + pieces(b, m));
    }
}

/// A letter alone is itself in lower case, a delimiter alone is nothing, and anything
/// else is itself.
pub proof fn law_one_character_alone(c: char)
    ensures
        'A' <= c <= 'Z' ==> hyphenated(seq![c]) == seq![((c as u8) + 32) as char],
        c == '-' || c == '_' ==> hyphenated(seq![c]) == Seq::<char>::empty(),
        !('A' <= c <= 'Z') && c != '-' && c != '_' ==> hyphenated(seq![c]) == seq![c],
{
    let s = seq![c];
    assert(pieces(s, 0) =~= Seq::empty());
    assert(pieces(s, 1) =~= piece(s, 0));
}

/// A lower-case letter, and anything that is neither letter nor delimiter, goes on
/// with the word as it is.
pub proof fn law_a_word_goes_on(a: Seq<char>, c: char)
    requires
        !('A' <= c <= 'Z') && c != '-' && c != '_',
        'a' <= c <= 'z' && a.len() > 0 ==> !('A' <= a.last() <= 'Z'),
    ensures
        hyphenated(a.push(c)) == hyphenated(a).push(c),
{
    let one = seq![c];
    assert(a.push(c) =~= a + one);
    let k = a.len() as int;
    lemma_front_pieces(a, one, k);
    let s = a.push(c);
    assert(s[k] == c);
    assert(pieces(s, k + 1) == pieces(s, k) + piece(s, k));
    assert(pieces(s, k + 1) =~= pieces(a, k).push(c));
}

/// A capital at the start is the first letter of the word that follows it.
pub proof fn law_a_capitalized_word_is_one_word(c: char, b: Seq<char>)
    requires
        'A' <= c <= 'Z',
        b.len() > 0,
        'a' <= b[0] <= 'z',
    ensures
        hyphenated(seq![c] + b) == seq![((c as u8) + 32) as char] + hyphenated(b),
{
    lemma_capitalized_pieces(c, b, b.len() as int);
}

proof fn lemma_capitalized_pieces(c: char, b: Seq<char>, m: int)
    requires
        'A' <= c <= 'Z',
        b.len() > 0,
        'a' <= b[0] <= 'z',
        0 <= m <= b.len(),
    ensures
        pieces(seq![c] + b, 1 + m) == seq![lowered(c)] + pieces(b, m),
        m > 0 ==> class_before(seq![c] + b, 1 + m) == class_before(b, m),
    decreases m,
{
    let s = seq![c] + b;
    if m == 0 {
        assert(s[0] == c);
        assert(pieces(s, 0) =~= Seq::empty());
        assert(pieces(s, 1) =~= piece(s, 0));
        assert(seq![lowered(c)] + pieces(b, 0) =~= seq![lowered(c)]);
    } else {
        lemma_capitalized_pieces(c, b, m - 1);
        assert(s[m] == b[m - 1]);
        if m < b.len() {
            assert(s[m + 1] == b[m]);
        }
        assert(piece(s, m) == piece(b, m - 1));
        assert(pieces(s, 1 + m) == pieces(s, 1 + (m - 1)) + piece(s, m));
        assert(pieces(s, 1 + m) =~= seq![lowered(c)] + pieces(b, m));
    }
}

/// An exporter's threshold for a channel is the one it has for that channel, and its
/// fallback where it has none; a buffer has one threshold for all channels.
pub proof fn law_a_channel_threshold_overrides_the_fallback<E: Exporter>(
    exporter: E,
    buffer: BufferExporter,
    channel: Seq<char>,
)
    ensures
        exporter.channel_level(channel) matches Some(level) ==> threshold(exporter, channel)
            == level,
        exporter.channel_level(channel) is None ==> threshold(exporter, channel)
            == exporter.fallback_level(),
        threshold(buffer, channel) == buffer@.min_level,
{
}

} // verus!
