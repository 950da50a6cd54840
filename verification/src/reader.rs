//! Reads a record-based file line by line: each line is mapped to the name
//! of a record, and the record of that name is handed out, filled from the
//! line.
//!
//! The reader itself opens no file. Whoever holds the file hands it the
//! lines, one by one or all together, and gets back what became of them.

use vstd::prelude::*;
use vstd::string::*;
use vstd::utf8::is_ascii_chars;
use crate::error::{ErrorView, RbfError};
use crate::layout::{key_position, lemma_key_position, record_names, Layout, LayoutView};
use crate::pattern::{is_match, is_valid_pattern, matched, regex_compiles};
use crate::record::{ReadMode, Record, RecordView};
use crate::text::texts;

verus! {

/// What the reader does with a line that belongs to no record of the layout.
#[derive(Debug, Clone, Copy, PartialEq, Eq, Structural)]
pub enum ReaderLazyness {
    /// The line is skipped and counted.
    Lazy,
    /// The reading fails.
    Strict,
}

/// The counters of a reader.
#[derive(Debug, Clone, Copy, PartialEq, Eq, Structural)]
pub struct ReaderStats {
    /// Number of lines read so far, whatever became of them
    pub nb_lines_read: usize,
    /// Number of lines that belonged to no record and were skipped
    pub nb_lines_skipped: usize,
    /// Number of bytes of the lines read so far
    pub nb_chars_read: usize,
}

#[derive(Debug)]
pub struct Reader<T> {
    /// name of the file that is read
    pub rbf_file: String,
    /// size of that file in bytes, as it was when the reading started
    pub file_size: usize,
    /// layout that describes the file
    pub layout: Layout<T>,
    /// what happens to a line of no record
    pub lazyness: ReaderLazyness,
    /// lines in which this regular expression matches are ignored; none is, if there is no expression
    pub ignored: Option<String>,
    /// counters
    pub stats: ReaderStats,
}

/// The mathematical content of a reader.
pub struct ReaderView {
    pub rbf_file: Seq<char>,
    pub file_size: nat,
    pub layout: LayoutView,
    pub lazyness: ReaderLazyness,
    pub ignored: Option<Seq<char>>,
    pub stats: ReaderStats,
}

impl<T> View for Reader<T> {
    type V = ReaderView;

    open spec fn view(&self) -> ReaderView {
        ReaderView {
            rbf_file: self.rbf_file@,
            file_size: self.file_size as nat,
            layout: self.layout@,
            lazyness: self.lazyness,
            ignored: match self.ignored {
                Some(p) => Some(p@),
                None => None,
            },
            stats: self.stats,
        }
    }
}

/// What becomes of a line.
#[derive(Debug)]
pub enum Outcome<T> {
    /// The line belongs to a record: here it is, filled from the line.
    Yield(Record<T>),
    /// The line is one of those to ignore.
    Ignored,
    /// The line belongs to no record and was skipped.
    Skipped,
    /// The line belongs to no record and the reader is strict.
    Failed(RbfError),
}

/// The mathematical content of an outcome.
pub enum OutcomeView {
    Yield(RecordView),
    Ignored,
    Skipped,
    Failed(ErrorView),
}

impl<T> View for Outcome<T> {
    type V = OutcomeView;

    open spec fn view(&self) -> OutcomeView {
        match self {
            Outcome::Yield(r) => OutcomeView::Yield(r@),
            Outcome::Ignored => OutcomeView::Ignored,
            Outcome::Skipped => OutcomeView::Skipped,
            Outcome::Failed(e) => OutcomeView::Failed(e@),
        }
    }
}

/// What reading a run of lines gave.
pub struct Harvest {
    /// The records handed out, in the order of their lines.
    pub records: Seq<RecordView>,
    /// How many lines were ignored.
    pub ignored: nat,
    /// How many lines were skipped.
    pub skipped: nat,
    /// How many lines were read, whatever became of them.
    pub read: nat,
    /// The counters after the last line read.
    pub stats: ReaderStats,
    /// The failure on which the reading stopped, if it did.
    pub failure: Option<ErrorView>,
}

impl ReaderView {
    /// Whether the counters leave room for `line`.
    pub open spec fn has_room(self, line: Seq<char>) -> bool {
        &&& self.stats.nb_lines_read < usize::MAX
        &&& self.stats.nb_lines_skipped < usize::MAX
        &&& self.stats.nb_chars_read + vstd::utf8::encode_utf8(line).len() <= usize::MAX
    }

    /// Whether the line is to be ignored.
    pub open spec fn ignores(self, line: Seq<char>) -> bool {
        self.ignored is Some && matched(self.ignored->0, line) == Some(true)
    }

    /// What becomes of `line`, the next line read.
    pub open spec fn outcome(self, line: Seq<char>) -> OutcomeView {
        let name = self.layout.mapper.map(line);
        let place = key_position(record_names(self.layout.records), name);
        if self.ignores(line) {
            OutcomeView::Ignored
        } else if place is Some {
            OutcomeView::Yield(self.layout.records[place->0].loaded(line))
        } else if self.lazyness == ReaderLazyness::Lazy {
            OutcomeView::Skipped
        } else {
            OutcomeView::Failed(
                ErrorView::UnknownRecord((self.stats.nb_lines_read + 1) as nat, name),
            )
        }
    }

    /// The reader after `line` was read: one line more, as many bytes more
    /// as the line has, and one line more skipped if the line was.
    pub open spec fn advanced(self, line: Seq<char>) -> ReaderView {
        ReaderView {
            stats: ReaderStats {
                nb_lines_read: (self.stats.nb_lines_read + 1) as usize,
                nb_chars_read: (self.stats.nb_chars_read + vstd::utf8::encode_utf8(line).len()) as usize,
                nb_lines_skipped: if self.outcome(line) is Skipped {
                    (self.stats.nb_lines_skipped + 1) as usize
                } else {
                    self.stats.nb_lines_skipped
                },
            },
            ..self
        }
    }

    /// The reader after the lines were read, one after the other, up to the
    /// first on which the reading fails.
    pub open spec fn after(self, lines: Seq<Seq<char>>) -> ReaderView
        decreases lines.len(),
    {
        if lines.len() == 0 {
            self
        } else if self.harvest(lines.drop_last()).failure is Some {
            self.after(lines.drop_last())
        } else {
            self.after(lines.drop_last()).advanced(lines.last())
        }
    }

    /// What reading the lines gives, one after the other, up to the first on
    /// which the reading fails.
    pub open spec fn harvest(self, lines: Seq<Seq<char>>) -> Harvest
        decreases lines.len(),
    {
        if lines.len() == 0 {
            Harvest {
                records: Seq::empty(),
                ignored: 0,
                skipped: 0,
                read: 0,
                stats: self.stats,
                failure: None,
            }
        } else {
            let before = self.harvest(lines.drop_last());
            let reader = self.after(lines.drop_last());
            if before.failure is Some {
                before
            } else {
                let stats = reader.advanced(lines.last()).stats;
                let read = before.read + 1;
                match reader.outcome(lines.last()) {
                    OutcomeView::Yield(r) => Harvest {
                        records: before.records.push(r),
                        read,
                        stats,
                        ..before
                    },
                    OutcomeView::Ignored => Harvest {
                        ignored: before.ignored + 1,
                        read,
                        stats,
                        ..before
                    },
                    OutcomeView::Skipped => Harvest {
                        skipped: before.skipped + 1,
                        read,
                        stats,
                        ..before
                    },
                    OutcomeView::Failed(e) => Harvest { failure: Some(e), read, stats, ..before },
                }
            }
        }
    }

    /// Whether the counters leave room for all the lines.
    pub open spec fn has_room_for(self, lines: Seq<Seq<char>>) -> bool {
        forall|k: int|
            0 <= k < lines.len() ==> (#[trigger] self.after(lines.take(k))).has_room(lines[k])
    }

    /// Whether every record of the layout is well formed.
    pub open spec fn wf(self) -> bool {
        self.layout.sound()
    }
}

impl<T> Reader<T> where Record<T>: ReadMode {
    /// Creates a reader of the file `rbf_file`, which holds `file_size` bytes
    /// and is described by `layout`. The reader is lazy and ignores no line.
    pub fn new(rbf_file: &str, file_size: usize, layout: Layout<T>) -> (r: Reader<T>)
        ensures
            r@ == (ReaderView {
                rbf_file: rbf_file@,
                file_size: file_size as nat,
                layout: layout@,
                lazyness: ReaderLazyness::Lazy,
                ignored: None,
                stats: ReaderStats { nb_lines_read: 0, nb_lines_skipped: 0, nb_chars_read: 0 },
            }),
    {
        Reader {
            rbf_file: rbf_file.to_owned(),
            file_size,
            layout,
            lazyness: ReaderLazyness::Lazy,
            ignored: None,
            stats: ReaderStats { nb_lines_read: 0, nb_lines_skipped: 0, nb_chars_read: 0 },
        }
    }

    /// Sets what happens to a line that belongs to no record.
    pub fn set_lazyness(&mut self, lazyness: ReaderLazyness)
        ensures
            final(self)@ == (ReaderView { lazyness, ..old(self)@ }),
    {
        self.lazyness = lazyness;
    }

    /// Has the lines ignored in which `pattern` matches, if `pattern` is a
    /// regular expression; says whether it is.
    pub fn ignore_line(&mut self, pattern: &str) -> (ok: bool)
        ensures
            ok == regex_compiles(pattern@),
            ok ==> final(self)@ == (ReaderView { ignored: Some(pattern@), ..old(self)@ }),
            !ok ==> final(self)@ == old(self)@,
    {
        if is_valid_pattern(pattern) {
            self.ignored = Some(pattern.to_owned());
            true
        } else {
            false
        }
    }

    /// Tells whether the counters leave room for `line`.
    pub fn has_room(&self, line: &str) -> (b: bool)
        ensures
            b == self@.has_room(line@),
    {
        self.stats.nb_lines_read < usize::MAX && self.stats.nb_lines_skipped < usize::MAX
            && line.as_bytes().len() <= usize::MAX - self.stats.nb_chars_read
    }

    /// Tells whether the line is to be ignored.
    fn ignores(&self, line: &str) -> (b: bool)
        ensures
            b == self@.ignores(line@),
    {
        match &self.ignored {
            Some(p) => match is_match(p.as_str(), line) {
                Some(b) => b,
                None => false,
            },
            None => false,
        }
    }

    /// Reads the next line: counts it and tells what becomes of it.
    ///
    /// A line in which the expression to ignore matches is ignored. Another
    /// line is mapped to a record name; if the layout holds a record of that
    /// name, a copy of it is filled from the line and handed out. If it holds
    /// none, a lazy reader skips the line and a strict reader fails.
    pub fn read_line(&mut self, line: &str) -> (r: Outcome<T>)
        requires
            old(self)@.wf(),
            old(self)@.has_room(line@),
            <Record<T> as ReadMode>::bytewise() ==> is_ascii_chars(line@),
        ensures
            r@ == old(self)@.outcome(line@),
            final(self)@ == old(self)@.advanced(line@),
    {
        let ghost before = self@;
        self.stats.nb_lines_read = self.stats.nb_lines_read + 1;
        self.stats.nb_chars_read = self.stats.nb_chars_read + line.as_bytes().len();
        if self.ignores(line) {
            return Outcome::Ignored;
        }
        let name = self.layout.mapper.call(line);
        match self.layout.get(name.as_str()) {
            Some(template) => {
                proof {
                    let place = key_position(record_names(before.layout.records), name@)->0;
                    lemma_key_position(record_names(before.layout.records), name@);
                    assert(before.layout.records[place].wf());
                }
                let mut rec = template.clone();
                rec.set_value(line);
                Outcome::Yield(rec)
            },
            None => {
                match self.lazyness {
                    ReaderLazyness::Lazy => {
                        self.stats.nb_lines_skipped = self.stats.nb_lines_skipped + 1;
                        Outcome::Skipped
                    },
                    ReaderLazyness::Strict => Outcome::Failed(
                        RbfError::UnknownRecord(self.stats.nb_lines_read, name),
                    ),
                }
            },
        }
    }
}

impl<T> Reader<T> where Record<T>: ReadMode {
    /// Reads the lines, one after the other, up to the first on which the
    /// reading fails. Returns the records handed out, in the order of their
    /// lines, and the failure if there was one.
    pub fn read_lines(&mut self, lines: &Vec<&str>) -> (r: (Vec<Record<T>>, Option<RbfError>))
        requires
            old(self)@.wf(),
            old(self)@.has_room_for(texts(lines@)),
            <Record<T> as ReadMode>::bytewise() ==> forall|k: int|
                0 <= k < lines.len() ==> is_ascii_chars(#[trigger] lines[k]@),
        ensures
            r.0@.map_values(|r: Record<T>| r@) == old(self)@.harvest(texts(lines@)).records,
            match r.1 {
                Some(e) => old(self)@.harvest(texts(lines@)).failure == Some(e@),
                None => old(self)@.harvest(texts(lines@)).failure is None,
            },
            final(self)@ == old(self)@.after(texts(lines@)),
    {
        let ghost before = self@;
        let ghost all = texts(lines@);
        let mut records: Vec<Record<T>> = Vec::new();
        let mut i: usize = 0;
        assert(all.take(0) =~= Seq::<Seq<char>>::empty());
        assert(records@.map_values(|r: Record<T>| r@) =~= Seq::<RecordView>::empty());
        while i < lines.len()
            invariant
                i <= lines.len(),
                all == texts(lines@),
                before == old(self)@,
                before.wf(),
                before.has_room_for(all),
                <Record<T> as ReadMode>::bytewise() ==> forall|k: int|
                    0 <= k < lines.len() ==> is_ascii_chars(#[trigger] lines[k]@),
                self@ == before.after(all.take(i as int)),
                self@.layout == before.layout,
                before.harvest(all.take(i as int)).failure is None,
                records@.map_values(|r: Record<T>| r@) == before.harvest(all.take(i as int)).records,
            decreases lines.len() - i,
        {
            assert(all.take(i + 1).drop_last() =~= all.take(i as int));
            assert(all.take(i + 1).last() == lines[i as int]@);
            assert(all[i as int] == lines[i as int]@);
            assert(before.after(all.take(i as int)).has_room(all[i as int]));
            match self.read_line(lines[i]) {
                Outcome::Yield(rec) => {
                    let ghost done = records@.map_values(|r: Record<T>| r@);
                    records.push(rec);
                    assert(records@.map_values(|r: Record<T>| r@) =~= done.push(rec@));
                },
                Outcome::Ignored => {},
                Outcome::Skipped => {},
                Outcome::Failed(e) => {
                    proof {
                        assert(before.harvest(all.take(i + 1)).failure == Some(e@));
                        assert(before.harvest(all.take(i + 1)).records == before.harvest(
                            all.take(i as int),
                        ).records);
                        lemma_reading_stops(before, all, i + 1);
                    }
                    return (records, Some(e));
                },
            }
            i += 1;
        }
        assert(all.take(i as int) =~= all);
        (records, None)
    }
}

/// Once the reading has failed, further lines change nothing.
pub proof fn lemma_reading_stops(reader: ReaderView, lines: Seq<Seq<char>>, k: int)
    requires
        0 <= k <= lines.len(),
        reader.harvest(lines.take(k)).failure is Some,
    ensures
        reader.harvest(lines) == reader.harvest(lines.take(k)),
        reader.after(lines) == reader.after(lines.take(k)),
    decreases lines.len() - k,
{
    if k < lines.len() {
        assert(lines.take(k + 1).drop_last() =~= lines.take(k));
        lemma_reading_stops(reader, lines, k + 1);
    } else {
        assert(lines.take(k) =~= lines);
    }
}

/// Reading changes the counters of the reader and nothing else.
pub proof fn lemma_reading_keeps(reader: ReaderView, lines: Seq<Seq<char>>)
    ensures
        reader.after(lines) == (ReaderView { stats: reader.after(lines).stats, ..reader }),
        reader.after(lines).stats == reader.harvest(lines).stats,
    decreases lines.len(),
{
    if lines.len() > 0 {
        lemma_reading_keeps(reader, lines.drop_last());
    }
}

/// Every line that is read is accounted for, and the records come out in
/// the order of their lines.
///
/// Of the lines read, each was handed out as a record, skipped, ignored, or
/// is the one on which the reading failed. A lazy reader never fails, so
/// that it reads all lines and the records handed out, the lines skipped and
/// the lines ignored are as many as the lines. The records that the first
/// `k` lines give are the first of the records that all lines give.
pub proof fn lemma_every_line_counts(reader: ReaderView, lines: Seq<Seq<char>>, k: int)
    requires
        0 <= k <= lines.len(),
    ensures
        ({
            let h = reader.harvest(lines);
            let part = reader.harvest(lines.take(k));
            &&& h.read <= lines.len()
            &&& h.failure is None ==> h.read == lines.len() && h.records.len() + h.skipped
                + h.ignored == lines.len()
            &&& h.failure is Some ==> h.records.len() + h.skipped + h.ignored + 1 == h.read
            &&& reader.lazyness == ReaderLazyness::Lazy ==> h.failure is None
            &&& part.records.len() <= h.records.len()
            &&& part.records == h.records.take(part.records.len() as int)
        }),
    decreases lines.len(),
{
    let h = reader.harvest(lines);
    if lines.len() == 0 {
        assert(lines.take(k) =~= lines);
        assert(h.records.take(0) =~= h.records);
    } else if k == lines.len() {
        assert(lines.take(k) =~= lines);
        assert(h.records.take(h.records.len() as int) =~= h.records);
        lemma_every_line_counts(reader, lines.drop_last(), 0);
        lemma_reading_keeps(reader, lines.drop_last());
    } else {
        let rest = lines.drop_last();
        assert(rest.take(k) =~= lines.take(k));
        lemma_every_line_counts(reader, rest, k);
        lemma_reading_keeps(reader, rest);
        let part = reader.harvest(lines.take(k));
        let before = reader.harvest(rest);
        assert(part.records =~= h.records.take(part.records.len() as int)) by {
            assert(part.records == before.records.take(part.records.len() as int));
            assert forall|j: int| 0 <= j < part.records.len() implies h.records[j]
                == before.records[j] by {}
        }
    }
}

/// While the counters have room, they count what the reading gave: the
/// lines read and the lines skipped.
pub proof fn lemma_counters(reader: ReaderView, lines: Seq<Seq<char>>)
    requires
        reader.has_room_for(lines),
    ensures
        reader.harvest(lines).stats.nb_lines_read == reader.stats.nb_lines_read + reader.harvest(
            lines,
        ).read,
        reader.harvest(lines).stats.nb_lines_skipped == reader.stats.nb_lines_skipped
            + reader.harvest(lines).skipped,
    decreases lines.len(),
{
    if lines.len() > 0 {
        let rest = lines.drop_last();
        assert forall|k: int| 0 <= k < rest.len() implies (#[trigger] reader.after(
            rest.take(k),
        )).has_room(rest[k]) by {
            assert(rest.take(k) =~= lines.take(k));
            assert(rest[k] == lines[k]);
        }
        lemma_counters(reader, rest);
        lemma_reading_keeps(reader, rest);
        assert(lines.take(lines.len() - 1) =~= rest);
        assert(reader.after(lines.take(lines.len() - 1)).has_room(lines[lines.len() - 1]));
    }
}

} // verus!
