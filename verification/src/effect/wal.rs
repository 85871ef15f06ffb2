//! The write-ahead log: one record per line, appended before the act.

use super::recovery::{self, compact, RecoverySummary};
use super::{wal_error, wal_failure, EffectRecord, EffectView};
use crate::error::{ErrorView, PluginError};
use crate::text;
use vstd::prelude::*;

verus! {

/// Default number of appends between automatic compactions.
pub const DEFAULT_COMPACTION_THRESHOLD: usize = 1024;

/// Where a log is kept, and when it is next compacted.
#[derive(Debug)]
pub struct FileEffectLog {
    path: String,
    appends_since_compaction: usize,
    compaction_threshold: usize,
}

/// The count of appends after one more, and whether compaction is due. A
/// threshold of zero means that it never is.
pub open spec fn next_append(count: nat, threshold: nat) -> (nat, bool) {
    if threshold == 0 {
        (count, false)
    } else if count + 1 >= threshold {
        (0, true)
    } else {
        (count + 1, false)
    }
}

impl FileEffectLog {
    #[verifier::type_invariant]
    spec fn count_fits(self) -> bool {
        self.appends_since_compaction < usize::MAX
    }

    /// The path.
    pub closed spec fn path_text(self) -> Seq<char> {
        self.path@
    }

    /// The number of appends since the last compaction.
    pub closed spec fn count(self) -> nat {
        self.appends_since_compaction as nat
    }

    /// The number of appends that makes compaction due.
    pub closed spec fn threshold(self) -> nat {
        self.compaction_threshold as nat
    }

    /// A log at `path`, compacted automatically every
    /// [`DEFAULT_COMPACTION_THRESHOLD`] appends.
    pub fn new(path: &str) -> (r: Self)
        ensures
            r.path_text() == path@,
            r.count() == 0,
            r.threshold() == DEFAULT_COMPACTION_THRESHOLD,
    {
        FileEffectLog {
            path: path.to_owned(),
            appends_since_compaction: 0,
            compaction_threshold: DEFAULT_COMPACTION_THRESHOLD,
        }
    }

    /// The same log with another compaction threshold. Zero switches automatic
    /// compaction off.
    pub fn with_compaction_threshold(self, threshold: usize) -> (r: Self)
        ensures
            r.path_text() == self.path_text(),
            r.count() == self.count(),
            r.threshold() == threshold,
    {
        proof {
            use_type_invariant(&self);
        }
        FileEffectLog {
            path: self.path,
            appends_since_compaction: self.appends_since_compaction,
            compaction_threshold: threshold,
        }
    }

    /// Where the log is kept.
    pub fn path(&self) -> (r: &str)
        ensures
            r@ == self.path_text(),
    {
        self.path.as_str()
    }

    /// Counts a record that was durably appended. Returns whether the log is to
    /// be compacted now.
    pub fn note_append(&mut self) -> (r: bool)
        ensures
            final(self).path_text() == old(self).path_text(),
            final(self).threshold() == old(self).threshold(),
            (final(self).count(), r) == next_append(old(self).count(), old(self).threshold()),
    {
        proof {
            use_type_invariant(&*self);
        }
        if self.compaction_threshold == 0 {
            return false;
        }
        let n: usize = self.appends_since_compaction + 1;
        if n >= self.compaction_threshold {
            self.appends_since_compaction = 0;
            true
        } else {
            self.appends_since_compaction = n;
            false
        }
    }
}

/// The count after a number of appends.
pub open spec fn count_after(count: nat, threshold: nat, appends: nat) -> nat
    decreases appends,
{
    if appends == 0 {
        count
    } else {
        next_append(count_after(count, threshold, (appends - 1) as nat), threshold).0
    }
}

/// With a threshold, the number of appends that have not been compacted stays
/// below it; with a threshold of zero, compaction is never due.
pub proof fn appends_between_compactions_are_bounded(count: nat, threshold: nat, appends: nat)
    requires
        appends > 0,
    ensures
        threshold > 0 ==> count_after(count, threshold, appends) < threshold,
        threshold == 0 ==> !next_append(count, threshold).1,
{
}

/// Where the first newline is, or the length.
pub open spec fn newline_at(s: Seq<char>) -> int
    decreases s.len(),
{
    if s.len() == 0 || s[0] == '\n' {
        0
    } else {
        1 + newline_at(s.skip(1))
    }
}

/// A line without the carriage return before its newline.
pub open spec fn without_cr(line: Seq<char>) -> Seq<char> {
    if line.len() > 0 && line.last() == '\r' {
        line.drop_last()
    } else {
        line
    }
}

/// The lines of a text. A line ends at a newline, with or without a carriage
/// return before it; the last one may also end with the text.
pub open spec fn lines(s: Seq<char>) -> Seq<Seq<char>>
    decreases s.len(),
{
    if s.len() == 0 {
        Seq::empty()
    } else if newline_at(s) >= s.len() {
        seq![s]
    } else {
        proof {
            lemma_newline_at(s);
        }
        seq![without_cr(s.take(newline_at(s)))] + lines(s.skip(newline_at(s) + 1))
    }
}

/// Whether a line holds nothing but white space.
pub open spec fn blank(line: Seq<char>) -> bool {
    forall|i: int| 0 <= i < line.len() ==> text::whitespace(#[trigger] line[i])
}

/// A line of the log and its number, counted from one.
#[derive(Debug)]
pub struct WalLine {
    /// The number of the line.
    pub number: usize,
    /// What it holds.
    pub text: String,
}

/// The contents of a [`WalLine`].
pub struct LineView {
    pub number: nat,
    pub text: Seq<char>,
}

impl View for WalLine {
    type V = LineView;

    open spec fn view(&self) -> LineView {
        LineView { number: self.number as nat, text: self.text@ }
    }
}

/// The lines that hold a record, with their numbers.
pub open spec fn record_lines(lines: Seq<Seq<char>>) -> Seq<LineView>
    decreases lines.len(),
{
    if lines.len() == 0 {
        Seq::empty()
    } else {
        let rest = record_lines(lines.drop_last());
        if blank(lines.last()) {
            rest
        } else {
            rest.push(LineView { number: lines.len(), text: lines.last() })
        }
    }
}

/// The first newline is where it is said to be, or there is none.
pub proof fn lemma_newline_at(s: Seq<char>)
    ensures
        0 <= newline_at(s) <= s.len(),
        newline_at(s) < s.len() ==> s[newline_at(s)] == '\n',
        forall|i: int| 0 <= i < newline_at(s) ==> s[i] != '\n',
    decreases s.len(),
{
    if s.len() > 0 && s[0] != '\n' {
        lemma_newline_at(s.skip(1));
        let n = newline_at(s.skip(1));
        assert forall|i: int| 0 <= i < newline_at(s) implies s[i] != '\n' by {
            if i > 0 {
                assert(s.skip(1)[i - 1] == s[i]);
            }
        }
        if n < s.skip(1).len() {
            assert(s.skip(1)[n] == s[n + 1]);
        }
    }
}

/// The first newline at or behind a position.
fn find_newline(chars: &Vec<char>, from: usize) -> (r: usize)
    requires
        from <= chars@.len(),
    ensures
        r == from + newline_at(chars@.skip(from as int)),
        from <= r <= chars@.len(),
{
    let mut i: usize = from;
    while i < chars.len() && chars[i] != '\n'
        invariant
            from <= i <= chars@.len(),
            from + newline_at(chars@.skip(from as int)) == i + newline_at(chars@.skip(i as int)),
        decreases chars.len() - i,
    {
        proof {
            let s = chars@.skip(i as int);
            assert(s[0] == chars@[i as int]);
            assert(s.skip(1) =~= chars@.skip(i + 1));
        }
        i += 1;
    }
    proof {
        lemma_newline_at(chars@.skip(from as int));
        if i < chars.len() {
            assert(chars@.skip(i as int)[0] == chars@[i as int]);
        }
    }
    i
}

/// The characters of a range as a string.
fn collect(chars: &Vec<char>, from: usize, to: usize) -> (r: String)
    requires
        from <= to <= chars@.len(),
    ensures
        r@ == chars@.subrange(from as int, to as int),
{
    let mut s: String = String::new();
    let mut i: usize = from;
    assert(chars@.subrange(from as int, from as int) =~= Seq::empty());
    while i < to
        invariant
            from <= i <= to <= chars@.len(),
            s@ == chars@.subrange(from as int, i as int),
        decreases to - i,
    {
        text::push_char(&mut s, chars[i]);
        assert(chars@.subrange(from as int, i + 1) =~= chars@.subrange(from as int, i as int).push(
            chars@[i as int],
        ));
        i += 1;
    }
    s
}

/// Whether a range holds nothing but white space.
fn is_blank(chars: &Vec<char>, from: usize, to: usize) -> (r: bool)
    requires
        from <= to <= chars@.len(),
    ensures
        r == blank(chars@.subrange(from as int, to as int)),
{
    let ghost line = chars@.subrange(from as int, to as int);
    let mut i: usize = from;
    while i < to
        invariant
            from <= i <= to <= chars@.len(),
            line == chars@.subrange(from as int, to as int),
            forall|j: int| 0 <= j < i - from ==> text::whitespace(#[trigger] line[j]),
        decreases to - i,
    {
        assert(line[i - from] == chars@[i as int]);
        if !text::is_whitespace(chars[i]) {
            return false;
        }
        i += 1;
    }
    true
}

/// Splits the contents of a log into the lines that hold a record.
pub fn wal_lines(data: &str) -> (r: Vec<WalLine>)
    ensures
        text::views(r@) == record_lines(lines(data@)),
{
    let chars: Vec<char> = text::to_chars(data);
    let ghost all = chars@;
    let mut out: Vec<WalLine> = Vec::new();
    let mut start: usize = 0;
    let mut number: usize = 0;
    let ghost mut done: Seq<Seq<char>> = Seq::empty();
    proof {
        assert(all.skip(0) =~= all);
        assert(done + lines(all.skip(0)) =~= lines(all));
        assert(text::views(out@) =~= Seq::empty());
    }
    while start < chars.len()
        invariant
            start <= chars@.len(),
            all == chars@,
            number <= start,
            number == done.len(),
            lines(all) == done + lines(all.skip(start as int)),
            text::views(out@) == record_lines(done),
        decreases chars.len() - start,
    {
        broadcast use text::lemma_views_push;

        let ghost rest = all.skip(start as int);
        let end: usize = find_newline(&chars, start);
        let mut stop: usize = end;
        if end < chars.len() && end > start && chars[end - 1] == '\r' {
            stop = end - 1;
        }
        let ghost line = all.subrange(start as int, stop as int);
        proof {
            let n = newline_at(rest);
            if n < rest.len() {
                assert(rest.take(n) =~= all.subrange(start as int, end as int));
                if end > start {
                    assert(rest.take(n).last() == all[end - 1]);
                }
                assert(without_cr(rest.take(n)) =~= line);
                assert(rest.skip(n + 1) =~= all.skip(end + 1));
                assert(lines(all) =~= done.push(line) + lines(all.skip(end + 1)));
            } else {
                assert(rest =~= line);
                assert(all.skip(all.len() as int) =~= Seq::empty());
                assert(lines(all) =~= done.push(line) + lines(all.skip(all.len() as int)));
            }
            assert(done.push(line).drop_last() =~= done);
        }
        number += 1;
        if !is_blank(&chars, start, stop) {
            out.push(WalLine { number, text: collect(&chars, start, stop) });
        }
        proof {
            done = done.push(line);
        }
        if end < chars.len() {
            start = end + 1;
        } else {
            start = end;
        }
    }
    proof {
        assert(all.skip(start as int) =~= Seq::empty());
        assert(done + lines(all.skip(start as int)) =~= done);
    }
    out
}

/// A record as it is written to the log.
pub open spec fn framed(line: Seq<char>) -> Seq<char> {
    line.push('\n')
}

/// Writes a record as a line.
pub fn frame(record: &str) -> (r: String)
    ensures
        r@ == framed(record@),
{
    let mut s: String = record.to_owned();
    text::push_char(&mut s, '\n');
    s
}

/// Records as they are written to the log, one after the other.
pub open spec fn framed_all(records: Seq<Seq<char>>) -> Seq<char>
    decreases records.len(),
{
    if records.len() == 0 {
        Seq::empty()
    } else {
        framed(records[0]) + framed_all(records.drop_first())
    }
}

proof fn lemma_framed_push(records: Seq<Seq<char>>, r: Seq<char>)
    ensures
        framed_all(records.push(r)) == framed_all(records) + framed(r),
    decreases records.len(),
{
    let all = records.push(r);
    if records.len() == 0 {
        assert(all.drop_first() =~= Seq::empty());
        assert(framed_all(all.drop_first()) =~= Seq::empty());
        assert(framed_all(all) =~= framed_all(records) + framed(r));
    } else {
        assert(all.drop_first() =~= records.drop_first().push(r));
        lemma_framed_push(records.drop_first(), r);
        assert(framed_all(all) =~= framed_all(records) + framed(r));
    }
}

/// Writes records as the contents of a log.
pub fn frame_all(records: &Vec<String>) -> (r: String)
    ensures
        r@ == framed_all(text::views(records@)),
{
    let ghost all = text::views(records@);
    let mut s: String = String::new();
    let mut i: usize = 0;
    assert(all.take(0) =~= Seq::empty());
    while i < records.len()
        invariant
            i <= records@.len(),
            all == text::views(records@),
            s@ == framed_all(all.take(i as int)),
        decreases records.len() - i,
    {
        s.append(records[i].as_str());
        text::push_char(&mut s, '\n');
        proof {
            assert(all.take(i + 1) =~= all.take(i as int).push(records@[i as int]@));
            lemma_framed_push(all.take(i as int), records@[i as int]@);
            assert(s@ =~= framed_all(all.take(i + 1)));
        }
        i += 1;
    }
    assert(all.take(i as int) =~= all);
    s
}

/// Whether a record fits on a line: it has no newline in it, does not end in a
/// carriage return, and is not blank.
pub open spec fn fits_line(record: Seq<char>) -> bool {
    &&& forall|i: int| 0 <= i < record.len() ==> record[i] != '\n'
    &&& record.len() > 0 ==> record.last() != '\r'
    &&& !blank(record)
}

proof fn lemma_newline_behind(line: Seq<char>, rest: Seq<char>)
    requires
        forall|i: int| 0 <= i < line.len() ==> line[i] != '\n',
    ensures
        newline_at(framed(line) + rest) == line.len(),
{
    let s = framed(line) + rest;
    lemma_newline_at(s);
    assert(s[line.len() as int] == '\n');
    assert forall|i: int| 0 <= i < line.len() implies s[i] != '\n' by {
        assert(s[i] == line[i]);
    }
}

proof fn lemma_lines_of_framed(records: Seq<Seq<char>>)
    requires
        forall|i: int| 0 <= i < records.len() ==> fits_line(#[trigger] records[i]),
    ensures
        lines(framed_all(records)) == records,
    decreases records.len(),
{
    if records.len() == 0 {
        assert(lines(framed_all(records)) =~= records);
    } else {
        let first = records[0];
        let rest = records.drop_first();
        assert forall|i: int| 0 <= i < rest.len() implies fits_line(#[trigger] rest[i]) by {
            assert(rest[i] == records[i + 1]);
        }
        lemma_lines_of_framed(rest);
        assert(fits_line(first));
        lemma_newline_behind(first, framed_all(rest));
        let s = framed_all(records);
        let n = first.len() as int;
        assert(s.take(n) =~= first);
        assert(s.skip(n + 1) =~= framed_all(rest));
        assert(without_cr(first) == first);
        assert(lines(s) =~= seq![first] + rest);
        assert(seq![first] + rest =~= records);
    }
}

/// What is written to the log is read back from it: the lines of appended
/// records are these records, in order, numbered from one, for records that fit
/// on a line.
pub proof fn appended_records_are_read_back(records: Seq<Seq<char>>)
    requires
        forall|i: int| 0 <= i < records.len() ==> fits_line(#[trigger] records[i]),
    ensures
        record_lines(lines(framed_all(records))).len() == records.len(),
        forall|i: int|
            0 <= i < records.len() ==> #[trigger] record_lines(lines(framed_all(records)))[i] == (
            LineView { number: (i + 1) as nat, text: records[i] }),
{
    lemma_lines_of_framed(records);
    lemma_numbering(records);
}

proof fn lemma_numbering(records: Seq<Seq<char>>)
    requires
        forall|i: int| 0 <= i < records.len() ==> !blank(#[trigger] records[i]),
    ensures
        record_lines(records).len() == records.len(),
        forall|i: int|
            0 <= i < records.len() ==> #[trigger] record_lines(records)[i] == (LineView {
                number: (i + 1) as nat,
                text: records[i],
            }),
    decreases records.len(),
{
    if records.len() > 0 {
        let t = records.drop_last();
        assert forall|i: int| 0 <= i < t.len() implies !blank(#[trigger] t[i]) by {
            assert(t[i] == records[i]);
        }
        lemma_numbering(t);
        assert(!blank(records[records.len() - 1]));
    }
}

/// The error for a line that holds no record.
pub open spec fn parse_failure(number: nat, source: Seq<char>) -> ErrorView {
    wal_failure("parse WAL line "@ + text::decimal_text(number), Some(source))
}

/// The records of a log whose lines were parsed one by one, or the error for the
/// first that could not be.
pub open spec fn parsed_records(
    lines: Seq<LineView>,
    parsed: Seq<Result<EffectView, Seq<char>>>,
) -> Result<Seq<EffectView>, ErrorView>
    decreases parsed.len(),
{
    if parsed.len() == 0 {
        Ok(Seq::empty())
    } else {
        match parsed_records(lines, parsed.drop_last()) {
            Ok(rest) => match parsed.last() {
                Ok(r) => Ok(rest.push(r)),
                Err(source) => Err(parse_failure(lines[parsed.len() - 1].number, source)),
            },
            Err(e) => Err(e),
        }
    }
}

/// The contents of parse results.
pub open spec fn parsed_views(parsed: Seq<Result<EffectRecord, String>>) -> Seq<
    Result<EffectView, Seq<char>>,
> {
    Seq::new(
        parsed.len(),
        |i: int|
            match parsed[i] {
                Ok(r) => Ok(r@),
                Err(e) => Err(e@),
            },
    )
}

/// Collects the records of a log whose lines were parsed one by one. The first
/// line that could not be parsed gives the error.
fn collect_records(
    lines: &Vec<WalLine>,
    parsed: Vec<Result<EffectRecord, String>>,
) -> (r: Result<Vec<EffectRecord>, PluginError>)
    requires
        parsed@.len() == lines@.len(),
    ensures
        match r {
            Ok(records) => parsed_records(text::views(lines@), parsed_views(parsed@)) == Ok::<
                Seq<EffectView>,
                ErrorView,
            >(text::views(records@)),
            Err(e) => parsed_records(text::views(lines@), parsed_views(parsed@)) == Err::<
                Seq<EffectView>,
                ErrorView,
            >(e@),
        },
{
    let ghost numbered = text::views(lines@);
    let ghost all = parsed_views(parsed@);
    let mut rest: Vec<Result<EffectRecord, String>> = parsed;
    let mut records: Vec<EffectRecord> = Vec::new();
    let mut i: usize = 0;
    proof {
        assert(all.take(0) =~= Seq::empty());
        assert(all.skip(0) =~= all);
        assert(text::views(records@) =~= Seq::empty());
    }
    while i < lines.len()
        invariant
            i <= lines@.len(),
            all.len() == lines@.len(),
            all == parsed_views(parsed@),
            numbered == text::views(lines@),
            parsed_views(rest@) == all.skip(i as int),
            parsed_records(numbered, all.take(i as int)) == Ok::<Seq<EffectView>, ErrorView>(
                text::views(records@),
            ),
        decreases lines.len() - i,
    {
        broadcast use text::lemma_views_push;

        let ghost r0 = parsed_views(rest@);
        assert(r0.len() == all.len() - i);
        let next: Result<EffectRecord, String> = rest.remove(0);
        proof {
            assert(r0[0] == all[i as int]);
            assert(parsed_views(rest@) =~= r0.remove(0));
            assert(r0.remove(0) =~= all.skip(i + 1));
            assert(all.take(i + 1).drop_last() =~= all.take(i as int));
            assert(all.take(i + 1).last() == all[i as int]);
            assert(numbered[i as int] == lines@[i as int]@);
        }
        match next {
            Ok(record) => records.push(record),
            Err(source) => {
                let what: String = String::from_str("parse WAL line ").concat(
                    text::decimal(lines[i].number as u64).as_str(),
                );
                let e: PluginError = wal_error(what.as_str(), Some(source));
                proof {
                    assert(r0[0] == Err::<EffectView, Seq<char>>(source@));
                    assert(e@ == parse_failure(numbered[i as int].number, source@));
                    lemma_failure_stays(numbered, all, i + 1);
                }
                return Err(e);
            },
        }
        i += 1;
    }
    assert(all.take(i as int) =~= all);
    Ok(records)
}

proof fn lemma_failure_stays(
    lines: Seq<LineView>,
    parsed: Seq<Result<EffectView, Seq<char>>>,
    upto: int,
)
    requires
        0 <= upto <= parsed.len(),
        parsed_records(lines, parsed.take(upto)) is Err,
    ensures
        parsed_records(lines, parsed) == parsed_records(lines, parsed.take(upto)),
    decreases parsed.len() - upto,
{
    if upto == parsed.len() {
        assert(parsed.take(upto) =~= parsed);
    } else {
        assert(parsed.take(upto + 1).drop_last() =~= parsed.take(upto));
        lemma_failure_stays(lines, parsed, upto + 1);
    }
}

impl FileEffectLog {
    /// Recovers a log whose lines were parsed one by one: the error for the
    /// first line that holds no record, or what is still open in all of them.
    /// The log is then to be rewritten with what is still open. A log that does
    /// not exist has no lines.
    pub fn recover(
        &self,
        lines: &Vec<WalLine>,
        parsed: Vec<Result<EffectRecord, String>>,
    ) -> (r: Result<RecoverySummary, PluginError>)
        requires
            parsed@.len() == lines@.len(),
        ensures
            match parsed_records(text::views(lines@), parsed_views(parsed@)) {
                Ok(records) => r matches Ok(s) && s@ == recovery::recovered(records),
                Err(e) => r matches Err(got) && got@ == e,
            },
    {
        match collect_records(lines, parsed) {
            Ok(records) => Ok(compact(&records)),
            Err(e) => Err(e),
        }
    }
}

/// Compaction is due once as many records were appended as the threshold says, and
/// then counting starts anew. With a threshold of zero nothing is counted and nothing
/// is due.
pub proof fn compaction_is_due_at_the_threshold(count: nat, threshold: nat)
    ensures
        next_append(count, threshold).1 == (threshold > 0 && count + 1 >= threshold),
        next_append(count, threshold).1 ==> next_append(count, threshold).0 == 0,
        threshold > 0 && !next_append(count, threshold).1 ==> next_append(count, threshold).0
            == count + 1,
        threshold == 0 ==> next_append(count, threshold).0 == count,
{
}

/// From a fresh log on, compaction is due at every append whose number is a multiple
/// of the threshold, and at no other.
pub proof fn compaction_comes_with_every_multiple(threshold: nat, appends: nat)
    requires
        threshold > 0,
    ensures
        count_after(0, threshold, appends) == appends % threshold,
        next_append(count_after(0, threshold, appends), threshold).1 == ((appends + 1) % threshold
            == 0),
    decreases appends,
{
    let t = threshold as int;
    if appends > 0 {
        let n = (appends - 1) as nat;
        compaction_comes_with_every_multiple(threshold, n);
        lemma_next_remainder(n as int, t);
    } else {
        vstd::arithmetic::div_mod::lemma_small_mod(0, threshold);
    }
    lemma_next_remainder(appends as int, t);
}

proof fn lemma_next_remainder(n: int, t: int)
    requires
        0 <= n,
        0 < t,
    ensures
        0 <= n % t < t,
        n % t + 1 < t ==> (n + 1) % t == n % t + 1,
        n % t + 1 == t ==> (n + 1) % t == 0,
{
    vstd::arithmetic::div_mod::lemma_fundamental_div_mod(n, t);
    vstd::arithmetic::div_mod::lemma_mod_bound(n, t);
    let q = n / t;
    vstd::arithmetic::mul::lemma_mul_is_commutative(t, q);
    if n % t + 1 < t {
        vstd::arithmetic::div_mod::lemma_fundamental_div_mod_converse(n + 1, t, q, n % t + 1);
    } else {
        assert(t * (q + 1) == t * q + t) by (nonlinear_arith);
        vstd::arithmetic::mul::lemma_mul_is_commutative(t, q + 1);
        vstd::arithmetic::div_mod::lemma_fundamental_div_mod_converse(n + 1, t, q + 1, 0);
    }
}

/// A line goes up to its newline, and the lines of what follows come behind it. A
/// carriage return before the newline is not part of the line.
pub proof fn a_line_ends_at_its_newline(line: Seq<char>, rest: Seq<char>)
    requires
        forall|i: int| 0 <= i < line.len() ==> line[i] != '\n',
    ensures
        line.len() == 0 || line.last() != '\r' ==> lines(line.push('\n') + rest) == seq![line]
            + lines(rest),
        lines(line.push('\r').push('\n') + rest) == seq![line] + lines(rest),
{
    lemma_newline_behind(line, rest);
    let s = framed(line) + rest;
    assert(s.take(line.len() as int) =~= line);
    assert(s.skip(line.len() as int + 1) =~= rest);
    let returned = line.push('\r');
    lemma_newline_behind(returned, rest);
    let t = framed(returned) + rest;
    assert(t.take(returned.len() as int) =~= returned);
    assert(t.skip(returned.len() as int + 1) =~= rest);
    assert(returned.drop_last() =~= line);
}

/// The last line needs no newline, and an empty text has no line.
pub proof fn the_last_line_needs_no_newline(line: Seq<char>)
    requires
        forall|i: int| 0 <= i < line.len() ==> line[i] != '\n',
    ensures
        lines(line) == if line.len() == 0 {
            Seq::empty()
        } else {
            seq![line]
        },
{
    lemma_newline_at(line);
}

/// A line that holds nothing but white space holds no record, but counts as a line.
/// Any other is a record under its number, counted from one.
pub proof fn blank_lines_are_counted_and_skipped(lines: Seq<Seq<char>>, line: Seq<char>)
    ensures
        record_lines(Seq::empty()).len() == 0,
        record_lines(lines.push(line)) == if forall|i: int|
            0 <= i < line.len() ==> text::whitespace(#[trigger] line[i]) {
            record_lines(lines)
        } else {
            record_lines(lines).push(LineView { number: lines.len() + 1, text: line })
        },
{
    assert(lines.push(line).drop_last() =~= lines);
}

/// A record is written as itself and a newline, one record behind the other.
pub proof fn records_are_written_line_by_line(records: Seq<Seq<char>>, record: Seq<char>)
    ensures
        framed(record) == record.push('\n'),
        framed_all(Seq::empty()).len() == 0,
        framed_all(records.push(record)) == framed_all(records) + record.push('\n'),
{
    lemma_framed_push(records, record);
}

/// Where every line was parsed, the records are those of the lines, in order.
pub proof fn parsed_lines_are_the_records(
    lines: Seq<LineView>,
    parsed: Seq<Result<EffectView, Seq<char>>>,
)
    requires
        forall|i: int| 0 <= i < parsed.len() ==> (#[trigger] parsed[i]) is Ok,
    ensures
        parsed_records(lines, parsed) == Ok::<Seq<EffectView>, ErrorView>(
            parsed.map_values(|p: Result<EffectView, Seq<char>>| p->Ok_0),
        ),
    decreases parsed.len(),
{
    let f = |p: Result<EffectView, Seq<char>>| p->Ok_0;
    if parsed.len() == 0 {
        assert(parsed.map_values(f) =~= Seq::empty());
    } else {
        let t = parsed.drop_last();
        assert forall|i: int| 0 <= i < t.len() implies (#[trigger] t[i]) is Ok by {
            assert(t[i] == parsed[i]);
        }
        parsed_lines_are_the_records(lines, t);
        assert(parsed[parsed.len() - 1] is Ok);
        assert(t.map_values(f).push(parsed.last()->Ok_0) =~= parsed.map_values(f));
    }
}

/// The first line that could not be parsed is the failure, under its number and with
/// its cause, whatever follows it.
pub proof fn the_first_unreadable_line_is_the_failure(
    lines: Seq<LineView>,
    parsed: Seq<Result<EffectView, Seq<char>>>,
    at: int,
)
    requires
        0 <= at < parsed.len(),
        parsed[at] is Err,
        forall|i: int| 0 <= i < at ==> (#[trigger] parsed[i]) is Ok,
    ensures
        parsed_records(lines, parsed) == Err::<Seq<EffectView>, ErrorView>(
            ErrorView::Execution {
                plugin_name: "effect-wal"@,
                message: "effect WAL: "@ + ("parse WAL line "@ + text::decimal_text(
                    lines[at].number,
                )),
                source: Some(parsed[at]->Err_0),
                code: Some("effect_wal_failed"@),
                details: Map::empty(),
                proto_error_code: None,
            },
        ),
{
    let upto = parsed.take(at + 1);
    let before = parsed.take(at);
    assert forall|i: int| 0 <= i < before.len() implies (#[trigger] before[i]) is Ok by {
        assert(before[i] == parsed[i]);
    }
    parsed_lines_are_the_records(lines, before);
    assert(upto.drop_last() =~= before);
    assert(upto.last() == parsed[at]);
    lemma_failure_stays(lines, parsed, at + 1);
}

} // verus!
