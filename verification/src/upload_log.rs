//! The upload log that another file host leaves behind: one line for each
//! upload, with tab-separated fields for time, address, size, name and slug.

use vstd::prelude::*;
use vstd::string::*;

use crate::bytes::copy_range;
use crate::ip::IpAddr;
use crate::ip_text;
use crate::ip_text::parse_ip;
use crate::text;
use crate::text::{lossy_text, parse_u64, same_text, split_text, trim_text, Trim};
use crate::timestamp;
use crate::timestamp::Timestamp;
use crate::util::parse_rfc3339;

verus! {

/// What the log says of one upload.
#[derive(Debug)]
pub struct LogEntry {
    pub upload_timestamp: Timestamp,
    pub uploader_ip: Option<IpAddr>,
    pub original_name: String,
    /// Mostly not logged.
    pub file_size: Option<u64>,
}

/// The values of a log entry.
pub struct EntryView {
    pub upload_timestamp: Timestamp,
    pub uploader_ip: Option<IpAddr>,
    pub original_name: Seq<char>,
    pub file_size: Option<u64>,
}

impl View for LogEntry {
    type V = EntryView;

    open spec fn view(&self) -> EntryView {
        EntryView {
            upload_timestamp: self.upload_timestamp,
            uploader_ip: self.uploader_ip,
            original_name: self.original_name@,
            file_size: self.file_size,
        }
    }
}

/// A log entry with its slug.
#[derive(Debug)]
pub struct LogRow {
    pub slug: String,
    pub entry: LogEntry,
}

/// The slug and the entry that the five fields of a line and the reading of
/// its time give.
pub open spec fn row_of(fields: Seq<Seq<char>>, at: Option<Timestamp>) -> Option<
    (Seq<char>, EntryView),
> {
    match at {
        Some(ts) => if fields.len() == 5 {
            Some(
                (
                    fields[4],
                    EntryView {
                        upload_timestamp: ts,
                        uploader_ip: ip_text::ip_value(fields[1]),
                        original_name: text::trim_both(fields[3], Trim::Only('\'')),
                        file_size: text::u64_value(fields[2]),
                    },
                ),
            )
        } else {
            None
        },
        None => None,
    }
}

/// The view of an optional log row.
pub open spec fn row_view(row: Option<LogRow>) -> Option<(Seq<char>, EntryView)> {
    match row {
        Some(r) => Some((r.slug@, r.entry@)),
        None => None,
    }
}

/// The entry that the fields of a line and the reading of its time give.
/// Quotes around the name are taken off; an address or a size that cannot be
/// read is left out.
pub fn read_fields(fields: &Vec<String>, at: Option<Timestamp>) -> (r: Option<LogRow>)
    ensures
        row_view(r) == row_of(fields.deep_view(), at),
        r is Some <==> fields@.len() == 5 && at is Some,
        r matches Some(row) ==> {
            &&& row.slug@ == fields@[4]@
            &&& Some(row.entry.upload_timestamp) == at
            &&& row.entry.uploader_ip == ip_text::ip_value(fields@[1]@)
            &&& row.entry.original_name@ == text::trim_both(fields@[3]@, Trim::Only('\''))
            &&& row.entry.file_size == text::u64_value(fields@[2]@)
        },
{
    let ghost views = fields.deep_view();
    assert(views.len() == fields@.len());
    if fields.len() != 5 {
        return None;
    }
    match at {
        Some(ts) => {
            assert(views[1] == fields@[1]@ && views[2] == fields@[2]@ && views[3] == fields@[3]@
                && views[4] == fields@[4]@);
            Some(
                LogRow {
                    slug: fields[4].clone(),
                    entry: LogEntry {
                        upload_timestamp: ts,
                        uploader_ip: parse_ip(fields[1].as_str()),
                        original_name: trim_text(fields[3].as_str(), &Trim::Only('\'')),
                        file_size: parse_u64(fields[2].as_str()),
                    },
                },
            )
        },
        None => None,
    }
}

/// A line without the line end characters at its end.
pub open spec fn chomped(line: Seq<u8>) -> Seq<u8>
    decreases line.len(),
{
    if line.len() > 0 && (line.last() == 0x0a || line.last() == 0x0d) {
        chomped(line.drop_last())
    } else {
        line
    }
}

/// The time that a text gives.
pub open spec fn time_value(s: Seq<char>) -> Option<Timestamp> {
    match timestamp::rfc3339_value(s) {
        Some(nanos) => Some(Timestamp { nanos }),
        None => None,
    }
}

/// The slug and the entry that a line gives.
pub open spec fn line_row(line: Seq<u8>) -> Option<(Seq<char>, EntryView)> {
    let fields = text::pieces(text::lossy_utf8(chomped(line)), '\t', 5);
    row_of(fields, time_value(fields[0]))
}

fn line_end(line: &[u8]) -> (r: usize)
    ensures
        r <= line@.len(),
        line@.take(r as int) == chomped(line@),
{
    let mut n: usize = line.len();
    assert(line@.take(n as int) =~= line@);
    while n > 0 && (line[n - 1] == 0x0a || line[n - 1] == 0x0d)
        invariant
            n <= line@.len(),
            chomped(line@.take(n as int)) == chomped(line@),
        decreases n,
    {
        assert(line@.take(n as int).drop_last() =~= line@.take(n - 1));
        n -= 1;
    }
    n
}

/// Reads one line. Bytes that are no text are replaced, so that a damaged
/// name does not lose its line; a line without five fields or without a
/// readable time is left out.
pub fn parse_line(line: &[u8]) -> (r: Option<LogRow>)
    ensures
        row_view(r) == line_row(line@),
        r matches Some(row) ==> row.entry.upload_timestamp.valid(),
        ({
            let fields = text::pieces(text::lossy_utf8(chomped(line@)), '\t', 5);
            &&& r is Some <==> fields.len() == 5 && timestamp::rfc3339_parts(fields[0]) is Some
            &&& r matches Some(row) ==> {
                &&& row.slug@ == fields[4]
                &&& row.entry.upload_timestamp.nanos == timestamp::rfc3339_parts(
                    fields[0],
                )->Some_0.0
                &&& row.entry.uploader_ip == ip_text::ip_value(fields[1])
                &&& row.entry.original_name@ == text::trim_both(fields[3], Trim::Only('\''))
                &&& row.entry.file_size == text::u64_value(fields[2])
            }
        }),
{
    let n: usize = line_end(line);
    let kept = copy_range(line, 0, n);
    assert(kept@ =~= chomped(line@));
    let whole = lossy_text(kept.as_slice());
    let fields = split_text(whole.as_str(), '\t', 5);
    assert(fields.deep_view().len() == fields@.len());
    assert(fields.deep_view()[0] == fields@[0]@);
    let at = parse_rfc3339(fields[0].as_str());
    proof {
        if fields@.len() == 5 {
            let views = fields.deep_view();
            assert(views[1] == fields@[1]@ && views[2] == fields@[2]@ && views[3] == fields@[3]@
                && views[4] == fields@[4]@);
        }
    }
    read_fields(&fields, at)
}

/// The position of the first line feed, or the length without one.
pub open spec fn first_feed(b: Seq<u8>) -> int
    decreases b.len(),
{
    if b.len() == 0 {
        0
    } else if b[0] == 0x0a {
        0
    } else {
        1 + first_feed(b.skip(1))
    }
}

/// The lines of a log, between line feeds.
pub open spec fn log_lines(b: Seq<u8>) -> Seq<Seq<u8>>
    decreases b.len(),
{
    let k = first_feed(b);
    if 0 <= k < b.len() {
        seq![b.take(k)] + log_lines(b.skip(k + 1))
    } else {
        seq![b]
    }
}

/// What a log says of each slug: lines are read in order, and a line replaces
/// what an earlier one says of its slug.
pub open spec fn log_map(lines: Seq<Seq<u8>>) -> Map<Seq<char>, EntryView>
    decreases lines.len(),
{
    if lines.len() == 0 {
        Map::empty()
    } else {
        let before = log_map(lines.drop_last());
        match line_row(lines.last()) {
            Some((slug, entry)) => before.insert(slug, entry),
            None => before,
        }
    }
}

/// What the log says of each slug.
pub struct LogTable {
    rows: Vec<LogRow>,
}

/// The entries of a list of rows.
pub open spec fn rows_map(rows: Seq<LogRow>) -> Map<Seq<char>, EntryView>
    decreases rows.len(),
{
    if rows.len() == 0 {
        Map::empty()
    } else {
        rows_map(rows.drop_last()).insert(rows.last().slug@, rows.last().entry@)
    }
}

/// No slug has two rows.
pub open spec fn one_row_each(rows: Seq<LogRow>) -> bool {
    forall|i: int, j: int|
        0 <= i < j < rows.len() ==> #[trigger] rows[i].slug@ != #[trigger] rows[j].slug@
}

proof fn lemma_rows_lookup(rows: Seq<LogRow>, i: int)
    requires
        one_row_each(rows),
        0 <= i < rows.len(),
    ensures
        rows_map(rows).dom().contains(rows[i].slug@),
        rows_map(rows)[rows[i].slug@] == rows[i].entry@,
    decreases rows.len(),
{
    if i < rows.len() - 1 {
        let front = rows.drop_last();
        assert(forall|a: int, b: int|
            0 <= a < b < front.len() ==> #[trigger] front[a].slug@ != #[trigger] front[b].slug@) by {
            assert forall|a: int, b: int| 0 <= a < b < front.len() implies #[trigger] front[a].slug@
                != #[trigger] front[b].slug@ by {
                assert(rows[a].slug@ != rows[b].slug@);
            }
        }
        lemma_rows_lookup(front, i);
        assert(front[i] == rows[i]);
        assert(rows[i].slug@ != rows[rows.len() - 1].slug@);
    }
}

proof fn lemma_rows_absent(rows: Seq<LogRow>, slug: Seq<char>)
    requires
        forall|i: int| 0 <= i < rows.len() ==> #[trigger] rows[i].slug@ != slug,
    ensures
        !rows_map(rows).dom().contains(slug),
    decreases rows.len(),
{
    if rows.len() > 0 {
        let front = rows.drop_last();
        assert forall|i: int| 0 <= i < front.len() implies #[trigger] front[i].slug@ != slug by {
            assert(rows[i].slug@ != slug);
        }
        lemma_rows_absent(front, slug);
        assert(rows[rows.len() - 1].slug@ != slug);
    }
}

proof fn lemma_rows_present(rows: Seq<LogRow>, slug: Seq<char>)
    requires
        rows_map(rows).dom().contains(slug),
    ensures
        exists|i: int| 0 <= i < rows.len() && #[trigger] rows[i].slug@ == slug,
{
    if !(exists|i: int| 0 <= i < rows.len() && #[trigger] rows[i].slug@ == slug) {
        lemma_rows_absent(rows, slug);
    }
}

proof fn lemma_rows_update(rows: Seq<LogRow>, i: int, row: LogRow)
    requires
        one_row_each(rows),
        0 <= i < rows.len(),
        row.slug@ == rows[i].slug@,
    ensures
        one_row_each(rows.update(i, row)),
        rows_map(rows.update(i, row)) == rows_map(rows).insert(row.slug@, row.entry@),
    decreases rows.len(),
{
    let after = rows.update(i, row);
    assert forall|a: int, b: int| 0 <= a < b < after.len() implies #[trigger] after[a].slug@
        != #[trigger] after[b].slug@ by {
        assert(rows[a].slug@ != rows[b].slug@);
    }
    let front = rows.drop_last();
    if i == rows.len() - 1 {
        assert(after.drop_last() =~= front);
        assert(rows_map(after) =~= rows_map(rows).insert(row.slug@, row.entry@));
    } else {
        assert forall|a: int, b: int| 0 <= a < b < front.len() implies #[trigger] front[a].slug@
            != #[trigger] front[b].slug@ by {
            assert(rows[a].slug@ != rows[b].slug@);
        }
        lemma_rows_update(front, i, row);
        assert(after.drop_last() =~= front.update(i, row));
        assert(after.last() == rows.last());
        assert(rows[i].slug@ != rows[rows.len() - 1].slug@);
        assert(rows_map(after) =~= rows_map(rows).insert(row.slug@, row.entry@));
    }
}

impl View for LogTable {
    type V = Map<Seq<char>, EntryView>;

    closed spec fn view(&self) -> Map<Seq<char>, EntryView> {
        rows_map(self.rows@)
    }
}

impl LogTable {
    pub closed spec fn wf(&self) -> bool {
        &&& one_row_each(self.rows@)
        &&& forall|i: int|
            0 <= i < self.rows@.len() ==> (#[trigger] self.rows@[i]).entry.upload_timestamp.valid()
    }

    /// The slugs in the log, in order of their first line.
    pub closed spec fn slugs(&self) -> Seq<Seq<char>> {
        self.rows@.map_values(|r: LogRow| r.slug@)
    }

    /// An empty log.
    pub fn new() -> (r: LogTable)
        ensures
            r.wf(),
            r@ == Map::<Seq<char>, EntryView>::empty(),
    {
        LogTable { rows: Vec::new() }
    }

    fn find(&self, slug: &str) -> (r: Option<usize>)
        requires
            self.wf(),
        ensures
            (match r {
                Some(i) => i < self.rows@.len() && self.rows@[i as int].slug@ == slug@
                    && self@.dom().contains(slug@) && self@[slug@] == self.rows@[i as int].entry@,
                None => !self@.dom().contains(slug@) && forall|j: int|
                    0 <= j < self.rows@.len() ==> #[trigger] self.rows@[j].slug@ != slug@,
            }),
    {
        let n: usize = self.rows.len();
        for i in 0..n
            invariant
                n == self.rows@.len(),
                self.wf(),
                forall|j: int| 0 <= j < i ==> #[trigger] self.rows@[j].slug@ != slug@,
        {
            if same_text(self.rows[i].slug.as_str(), slug) {
                proof {
                    lemma_rows_lookup(self.rows@, i as int);
                }
                return Some(i);
            }
        }
        proof {
            lemma_rows_absent(self.rows@, slug@);
        }
        None
    }

    /// What the log says of a slug.
    pub fn get(&self, slug: &str) -> (r: Option<&LogEntry>)
        requires
            self.wf(),
        ensures
            (match r {
                Some(e) => self@.dom().contains(slug@) && e@ == self@[slug@]
                    && e.upload_timestamp.valid(),
                None => !self@.dom().contains(slug@),
            }),
    {
        match self.find(slug) {
            Some(i) => Some(&self.rows[i].entry),
            None => None,
        }
    }

    /// Notes an entry; it replaces what was noted for its slug before.
    pub fn insert(&mut self, row: LogRow)
        requires
            old(self).wf(),
            row.entry.upload_timestamp.valid(),
        ensures
            final(self).wf(),
            final(self)@ == old(self)@.insert(row.slug@, row.entry@),
    {
        let ghost rows = self.rows@;
        match self.find(row.slug.as_str()) {
            Some(i) => {
                proof {
                    lemma_rows_update(rows, i as int, row);
                }
                self.rows.set(i, row);
            },
            None => {
                self.rows.push(row);
                proof {
                    let after = rows.push(row);
                    assert(after.drop_last() =~= rows);
                    assert forall|a: int, b: int|
                        0 <= a < b < after.len() implies #[trigger] after[a].slug@
                        != #[trigger] after[b].slug@ by {
                        if b < rows.len() {
                            assert(rows[a].slug@ != rows[b].slug@);
                        } else {
                            assert(rows[a].slug@ != row.slug@);
                        }
                    }
                }
            },
        }
    }

    /// How many slugs the log speaks of.
    pub fn len(&self) -> (r: usize)
        ensures
            r == self.slugs().len(),
    {
        self.rows.len()
    }

    /// The row with a number.
    pub fn row(&self, i: usize) -> (r: &LogRow)
        requires
            self.wf(),
            i < self.slugs().len(),
        ensures
            r.slug@ == self.slugs()[i as int],
            self@.dom().contains(r.slug@),
            r.entry@ == self@[r.slug@],
            r.entry.upload_timestamp.valid(),
    {
        proof {
            lemma_rows_lookup(self.rows@, i as int);
        }
        &self.rows[i]
    }
}

/// The slugs of a log are those that its map holds, and none comes twice.
pub proof fn lemma_slugs(log: LogTable)
    requires
        log.wf(),
    ensures
        log.slugs().no_duplicates(),
        forall|slug: Seq<char>| log.slugs().contains(slug) <==> log@.dom().contains(slug),
{
    let rows = log.rows@;
    assert forall|i: int, j: int|
        0 <= i < log.slugs().len() && 0 <= j < log.slugs().len() && i != j implies log.slugs()[i]
        != log.slugs()[j] by {
        if i < j {
            assert(rows[i].slug@ != rows[j].slug@);
        } else {
            assert(rows[j].slug@ != rows[i].slug@);
        }
    }
    assert forall|slug: Seq<char>| log.slugs().contains(slug) <==> log@.dom().contains(slug) by {
        if log.slugs().contains(slug) {
            let i = choose|i: int| 0 <= i < log.slugs().len() && log.slugs()[i] == slug;
            lemma_rows_lookup(rows, i);
        }
        if log@.dom().contains(slug) {
            lemma_rows_present(rows, slug);
            let i = choose|i: int| 0 <= i < rows.len() && #[trigger] rows[i].slug@ == slug;
            assert(log.slugs()[i] == slug);
        }
    }
}

proof fn lemma_first_feed(b: Seq<u8>, k: int)
    requires
        0 <= k <= b.len(),
        forall|j: int| 0 <= j < k ==> b[j] != 0x0a,
        k < b.len() ==> b[k] == 0x0a,
    ensures
        first_feed(b) == k,
    decreases b.len(),
{
    if k > 0 {
        assert forall|j: int| 0 <= j < k - 1 implies b.skip(1)[j] != 0x0a by {
            assert(b.skip(1)[j] == b[j + 1]);
        }
        lemma_first_feed(b.skip(1), k - 1);
    }
}

/// The map of a log, given that of the lines before.
pub open spec fn log_map_onto(
    before: Map<Seq<char>, EntryView>,
    lines: Seq<Seq<u8>>,
) -> Map<Seq<char>, EntryView>
    decreases lines.len(),
{
    if lines.len() == 0 {
        before
    } else {
        log_map_onto(
            match line_row(lines[0]) {
                Some((slug, entry)) => before.insert(slug, entry),
                None => before,
            },
            lines.skip(1),
        )
    }
}

proof fn lemma_log_map_onto(done: Seq<Seq<u8>>, lines: Seq<Seq<u8>>)
    ensures
        log_map_onto(log_map(done), lines) == log_map(done + lines),
    decreases lines.len(),
{
    if lines.len() == 0 {
        assert(done + lines =~= done);
    } else {
        let more = done.push(lines[0]);
        assert(more.drop_last() =~= done);
        lemma_log_map_onto(more, lines.skip(1));
        assert(more + lines.skip(1) =~= done + lines);
    }
}

/// Reads a log.
pub fn parse_log(log: &[u8]) -> (r: LogTable)
    ensures
        r.wf(),
        r@ == log_map(log_lines(log@)),
{
    let n: usize = log.len();
    let mut table = LogTable::new();
    let mut from: usize = 0;
    proof {
        assert(log@.skip(0) =~= log@);
        lemma_log_map_onto(Seq::empty(), log_lines(log@));
        assert(Seq::<Seq<u8>>::empty() + log_lines(log@) =~= log_lines(log@));
    }
    loop
        invariant
            n == log@.len(),
            from <= n,
            table.wf(),
            log_map_onto(table@, log_lines(log@.skip(from as int))) == log_map(log_lines(log@)),
        decreases n - from,
    {
        let ghost rest = log@.skip(from as int);
        let mut k: usize = from;
        while k < n && log[k] != 0x0a
            invariant
                n == log@.len(),
                from <= k <= n,
                forall|j: int| from <= j < k ==> log@[j] != 0x0a,
            decreases n - k,
        {
            k += 1;
        }
        proof {
            assert forall|j: int| 0 <= j < k - from implies rest[j] != 0x0a by {
                assert(rest[j] == log@[from + j]);
            }
            lemma_first_feed(rest, k - from);
        }
        let line = copy_range(log, from, k);
        assert(line@ =~= rest.take(k - from));
        let ghost lines = log_lines(rest);
        proof {
            if k == n {
                assert(rest.take(k - from) =~= rest);
                assert(lines =~= seq![line@]);
            }
            assert(lines[0] == line@);
        }
        match parse_line(line.as_slice()) {
            Some(row) => {
                table.insert(row);
            },
            None => {},
        }
        if k == n {
            assert(lines.skip(1) =~= Seq::<Seq<u8>>::empty());
            assert(log_map_onto(table@, lines.skip(1)) == table@);
            return table;
        }
        proof {
            assert(rest.skip(k - from + 1) =~= log@.skip(k + 1));
            assert(lines.skip(1) =~= log_lines(log@.skip(k + 1)));
        }
        from = k + 1;
    }
}

/// The last line on a slug wins: what a log says of a slug is what the last
/// line with that slug says.
pub proof fn lemma_last_line_wins(lines: Seq<Seq<u8>>, i: int, slug: Seq<char>, entry: EntryView)
    requires
        0 <= i < lines.len(),
        line_row(lines[i]) == Some((slug, entry)),
        forall|j: int|
            i < j < lines.len() ==> (match #[trigger] line_row(lines[j]) {
                Some((other, _)) => other != slug,
                None => true,
            }),
    ensures
        log_map(lines).dom().contains(slug),
        log_map(lines)[slug] == entry,
    decreases lines.len(),
{
    let front = lines.drop_last();
    if i < lines.len() - 1 {
        assert(line_row(lines[lines.len() - 1]) == line_row(lines.last()));
        assert forall|j: int| i < j < front.len() implies (match #[trigger] line_row(front[j]) {
            Some((other, _)) => other != slug,
            None => true,
        }) by {
            assert(front[j] == lines[j]);
        }
        lemma_last_line_wins(front, i, slug, entry);
    }
}

/// A line that gives no entry costs no other line: a log says the same with
/// and without it.
pub proof fn lemma_damaged_line_is_harmless(lines: Seq<Seq<u8>>, i: int)
    requires
        0 <= i < lines.len(),
        line_row(lines[i]) is None,
    ensures
        log_map(lines.remove(i)) == log_map(lines),
    decreases lines.len(),
{
    let rest = lines.remove(i);
    if i == lines.len() - 1 {
        assert(rest =~= lines.drop_last());
    } else {
        let front = lines.drop_last();
        assert(front[i] == lines[i]);
        lemma_damaged_line_is_harmless(front, i);
        assert(rest.drop_last() =~= front.remove(i));
        assert(rest.last() == lines.last());
    }
}

// ---------------------------------------------------------------- fields

/// A line with its five fields: time, address, size, quoted name and slug.
pub open spec fn written_line(
    time: Seq<char>,
    address: Seq<char>,
    size: Seq<char>,
    name: Seq<char>,
    slug: Seq<char>,
) -> Seq<char> {
    time + seq!['\t'] + address + seq!['\t'] + size + seq!['\t', '\''] + name + seq![
        '\'',
        '\t',
    ] + slug
}

/// The text is written in a log line as it is: it holds no tab.
pub open spec fn loggable(s: Seq<char>) -> bool {
    !s.contains('\t')
}

/// What stands in the five fields of a line is what the log says: of the slug
/// in the last, the time in the first, the address in the second, the size in
/// the third and the name in the fourth without its quotes. An address or a
/// size that cannot be read is left out.
pub proof fn lemma_line_says_its_fields(
    line: Seq<u8>,
    time: Seq<char>,
    address: Seq<char>,
    size: Seq<char>,
    name: Seq<char>,
    slug: Seq<char>,
)
    requires
        text::lossy_utf8(chomped(line)) == written_line(time, address, size, name, slug),
        loggable(time) && loggable(address) && loggable(size) && loggable(name),
        name.len() > 0 ==> name[0] != '\'' && name.last() != '\'',
    ensures
        line_row(line) is Some <==> timestamp::rfc3339_parts(time) is Some,
        line_row(line) matches Some((key, entry)) ==> {
            &&& key == slug
            &&& entry.upload_timestamp.nanos == timestamp::rfc3339_parts(time)->Some_0.0
            &&& entry.uploader_ip == ip_text::ip_value(address)
            &&& entry.original_name == name
            &&& entry.file_size == text::u64_value(size)
        },
{
    let quoted = seq!['\''] + name + seq!['\''];
    let parts = seq![time, address, size, quoted, slug];
    let s = written_line(time, address, size, name, slug);
    reveal_with_fuel(crate::ip_text_laws::join, 6);
    assert(parts.skip(1) =~= seq![address, size, quoted, slug]);
    assert(parts.skip(1).skip(1) =~= seq![size, quoted, slug]);
    assert(parts.skip(1).skip(1).skip(1) =~= seq![quoted, slug]);
    assert(parts.skip(1).skip(1).skip(1).skip(1) =~= seq![slug]);
    assert(crate::ip_text_laws::join(parts, '\t') =~= s);
    assert forall|i: int, j: int|
        0 <= i < parts.len() && 0 <= j < parts[i].len() && (i < parts.len() - 1 || parts.len()
            < 5) implies #[trigger] parts[i][j] != '\t' by {
        if i == 0 {
            assert(time.contains(time[j]));
        } else if i == 1 {
            assert(address.contains(address[j]));
        } else if i == 2 {
            assert(size.contains(size[j]));
        } else if 0 < j <= name.len() {
            assert(quoted[j] == name[j - 1]);
            assert(name.contains(name[j - 1]));
        }
    }
    crate::text_laws::lemma_joined_then_split(parts, '\t', 5);
    text::lemma_trim_leaves_the_middle(seq!['\''], name, seq!['\''], Trim::Only('\''));
}

/// A line says something exactly where it has five fields and the first is a
/// time.
pub proof fn lemma_lines_that_count(line: Seq<u8>)
    ensures
        ({
            let fields = text::pieces(text::lossy_utf8(chomped(line)), '\t', 5);
            line_row(line) is Some <==> fields.len() == 5 && timestamp::rfc3339_parts(fields[0])
                is Some
        }),
{
}

/// The characters that end a line are not part of it: carriage returns and
/// line feeds at its end are taken off, and nothing else.
pub proof fn lemma_line_end_is_taken_off(line: Seq<u8>, end: Seq<u8>)
    requires
        line.len() > 0 ==> line.last() != 10 && line.last() != 13,
        forall|i: int| 0 <= i < end.len() ==> #[trigger] end[i] == 10 || end[i] == 13,
    ensures
        chomped(line + end) == line,
    decreases end.len(),
{
    let s = line + end;
    if end.len() == 0 {
        assert(s =~= line);
    } else {
        assert(s.last() == end[end.len() - 1]);
        assert(s.drop_last() =~= line + end.drop_last());
        assert forall|i: int| 0 <= i < end.drop_last().len() implies #[trigger] end.drop_last()[i]
            == 10 || end.drop_last()[i] == 13 by {
            assert(end.drop_last()[i] == end[i]);
        }
        lemma_line_end_is_taken_off(line, end.drop_last());
    }
}

/// Lines with line feeds between them.
pub open spec fn with_feeds(lines: Seq<Seq<u8>>) -> Seq<u8>
    decreases lines.len(),
{
    if lines.len() == 0 {
        Seq::empty()
    } else if lines.len() == 1 {
        lines[0]
    } else {
        lines[0] + seq![10u8] + with_feeds(lines.skip(1))
    }
}

/// A log is read as the lines that it was written from.
pub proof fn lemma_log_is_its_lines(lines: Seq<Seq<u8>>)
    requires
        lines.len() > 0,
        forall|i: int| 0 <= i < lines.len() ==> !(#[trigger] lines[i]).contains(10u8),
    ensures
        log_lines(with_feeds(lines)) == lines,
    decreases lines.len(),
{
    let b = with_feeds(lines);
    let head = lines[0];
    let k = head.len() as int;
    assert forall|j: int| 0 <= j < k implies b[j] != 0x0a by {
        assert(b[j] == head[j]);
        assert(!lines[0].contains(10u8));
        if head[j] == 10u8 {
            assert(head.contains(10u8));
        }
    }
    if lines.len() == 1 {
        lemma_first_feed(b, k);
        assert(log_lines(b) =~= lines);
    } else {
        assert(b[k] == 10u8);
        lemma_first_feed(b, k);
        let rest = lines.skip(1);
        assert forall|i: int| 0 <= i < rest.len() implies !(#[trigger] rest[i]).contains(10u8) by {
            assert(rest[i] == lines[i + 1]);
        }
        lemma_log_is_its_lines(rest);
        assert(b.take(k) =~= head);
        assert(b.skip(k + 1) =~= with_feeds(rest));
        assert(log_lines(b) =~= lines);
    }
}

/// A log speaks of a slug only where one of its lines does, and says of it
/// what such a line says.
pub proof fn lemma_log_invents_nothing(lines: Seq<Seq<u8>>, slug: Seq<char>)
    requires
        log_map(lines).dom().contains(slug),
    ensures
        exists|i: int|
            0 <= i < lines.len() && #[trigger] line_row(lines[i]) == Some(
                (slug, log_map(lines)[slug]),
            ),
    decreases lines.len(),
{
    if lines.len() > 0 {
        let front = lines.drop_last();
        let last = lines.len() - 1;
        let takes = line_row(lines.last()) is Some && line_row(lines.last())->Some_0.0 == slug;
        if takes {
            assert(line_row(lines[last]) == Some((slug, log_map(lines)[slug])));
        } else {
            lemma_log_invents_nothing(front, slug);
            let i = choose|i: int|
                0 <= i < front.len() && #[trigger] line_row(front[i]) == Some(
                    (slug, log_map(front)[slug]),
                );
            assert(lines[i] == front[i]);
            assert(line_row(lines[i]) == Some((slug, log_map(lines)[slug])));
        }
    }
}

/// The time of a line is the one that its text gives, its offset left out.
pub proof fn lemma_time_without_offset(s: Seq<char>)
    ensures
        time_value(s) is Some <==> timestamp::rfc3339_parts(s) is Some,
        timestamp::rfc3339_parts(s) matches Some((nanos, offset)) ==> time_value(s) == Some(
            Timestamp { nanos },
        ),
{
}

/// What a log entry holds is what is told of it.
pub proof fn lemma_entry_values(e: LogEntry, row: LogRow)
    ensures
        e@.upload_timestamp == e.upload_timestamp,
        e@.uploader_ip == e.uploader_ip,
        e@.original_name == e.original_name@,
        e@.file_size == e.file_size,
        row_view(Some(row)) == Some((row.slug@, row.entry@)),
        row_view(None) is None,
{
}

} // verus!
