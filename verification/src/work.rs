//! The collection of entries that is loaded from the files of a database.
//!
//! The entries of all files are put in order, the most recent first, and
//! numbered from 1 in that order. A range may then be given to keep only the
//! entries that have something in common with it; they keep their numbers.

use vstd::prelude::*;
use crate::entry::Entry;
use crate::entry::TimeEntry;
use crate::error::Error;
use crate::parser::entry_of;
use crate::parser::Line;
use crate::range::range_view;
use crate::range::Interval;
use crate::range::Range;
use crate::text::decimal;
use crate::text::push_decimal;
use crate::time::digit;
use crate::time::is_digit;
use crate::time::Duration;
use crate::time::Instant;

verus! {

/// The sequence `sorted` with `e` put in after the entries that do not
/// begin before it: before the first entry that begins earlier than `e`.
pub open spec fn insert_desc(sorted: Seq<Entry>, e: Entry) -> Seq<Entry>
    decreases sorted.len(),
{
    if sorted.len() == 0 {
        seq![e]
    } else if sorted[0].range.from >= e.range.from {
        seq![sorted[0]] + insert_desc(sorted.drop_first(), e)
    } else {
        seq![e] + sorted
    }
}

/// The entries of `s` in the order of their beginnings, the latest first;
/// entries that begin at the same moment keep the order that they have in
/// `s`.
pub open spec fn sort_desc(s: Seq<Entry>) -> Seq<Entry>
    decreases s.len(),
{
    if s.len() == 0 {
        Seq::empty()
    } else {
        insert_desc(sort_desc(s.drop_last()), s.last())
    }
}

/// Whether no entry of `s` begins after an entry that stands before it.
pub open spec fn latest_first(s: Seq<Entry>) -> bool {
    forall|i: int, j: int| 0 <= i <= j < s.len() ==> s[i].range.from >= s[j].range.from
}

/// The entries of `s`, numbered from 1 in their order.
pub open spec fn numbered(s: Seq<Entry>) -> Seq<Entry> {
    Seq::new(s.len(), |i: int| Entry { id: (i + 1) as nat, ..s[i] })
}

/// Whether an entry has something in common with the interval `filter`.
pub open spec fn overlaps(filter: Interval) -> spec_fn(Entry) -> bool {
    |e: Entry| e.range.intersection(filter) is Some
}

/// The entries of `s` that have something in common with `filter`, or all
/// of them where no filter is given.
pub open spec fn overlapping(s: Seq<Entry>, filter: Option<Interval>) -> Seq<Entry> {
    match filter {
        Some(f) => s.filter(overlaps(f)),
        None => s,
    }
}

/// The collection that is made of the entries `s`: put in order, numbered,
/// and then reduced to the entries that `filter` lets through.
pub open spec fn assemble(s: Seq<Entry>, filter: Option<Interval>) -> Seq<Entry> {
    overlapping(numbered(sort_desc(s)), filter)
}

/// Putting an entry in at the place before which no entry begins earlier
/// than it, and at which one does, is what [`insert_desc`] does.
pub proof fn lemma_insert_desc_at(sorted: Seq<Entry>, e: Entry, p: int)
    requires
        0 <= p <= sorted.len(),
        forall|i: int| 0 <= i < p ==> sorted[i].range.from >= e.range.from,
        p < sorted.len() ==> sorted[p].range.from < e.range.from,
    ensures
        insert_desc(sorted, e) == sorted.insert(p, e),
    decreases sorted.len(),
{
    if sorted.len() == 0 {
        assert(seq![e] =~= sorted.insert(p, e));
    } else if p == 0 {
        assert(seq![e] + sorted =~= sorted.insert(0, e));
    } else {
        let rest = sorted.drop_first();
        lemma_insert_desc_at(rest, e, p - 1);
        assert(seq![sorted[0]] + rest.insert(p - 1, e) =~= sorted.insert(p, e));
    }
}

/// Putting an entry into a sequence that has the latest first leaves it
/// so, and adds the entry and nothing else.
pub proof fn lemma_insert_desc_keeps_order(sorted: Seq<Entry>, e: Entry)
    requires
        latest_first(sorted),
    ensures
        latest_first(insert_desc(sorted, e)),
        insert_desc(sorted, e).to_multiset() == sorted.to_multiset().insert(e),
        insert_desc(sorted, e).len() == sorted.len() + 1,
    decreases sorted.len(),
{
    broadcast use vstd::seq_lib::group_to_multiset_ensures;

    if sorted.len() == 0 {
        assert(seq![e] =~= Seq::<Entry>::empty().push(e));
        assert(sorted =~= Seq::<Entry>::empty());
    } else if sorted[0].range.from >= e.range.from {
        let rest = sorted.drop_first();
        assert forall|i: int, j: int| 0 <= i <= j < rest.len() implies rest[i].range.from
            >= rest[j].range.from by {
            assert(rest[i] == sorted[i + 1] && rest[j] == sorted[j + 1]);
        }
        lemma_insert_desc_keeps_order(rest, e);
        let tail = insert_desc(rest, e);
        let whole = seq![sorted[0]] + tail;
        assert forall|i: int, j: int| 0 <= i <= j < whole.len() implies whole[i].range.from
            >= whole[j].range.from by {
            if i > 0 {
                assert(whole[i] == tail[i - 1] && whole[j] == tail[j - 1]);
            } else if j > 0 {
                let x = tail[j - 1];
                assert(whole[j] == x);
                assert(tail.to_multiset().count(x) > 0);
                if x != e {
                    assert(rest.to_multiset().count(x) > 0);
                    let k = choose|k: int| 0 <= k < rest.len() && rest[k] == x;
                    assert(sorted[k + 1] == x);
                }
            }
        }
        assert(sorted =~= seq![sorted[0]] + rest);
        vstd::seq_lib::lemma_multiset_commutative(seq![sorted[0]], tail);
        vstd::seq_lib::lemma_multiset_commutative(seq![sorted[0]], rest);
        assert(whole.to_multiset() =~= sorted.to_multiset().insert(e));
    } else {
        let whole = seq![e] + sorted;
        assert forall|i: int, j: int| 0 <= i <= j < whole.len() implies whole[i].range.from
            >= whole[j].range.from by {
            if i > 0 {
                assert(whole[i] == sorted[i - 1] && whole[j] == sorted[j - 1]);
            } else if j > 0 {
                assert(whole[j] == sorted[j - 1]);
                assert(sorted[0].range.from >= sorted[j - 1].range.from);
            }
        }
        vstd::seq_lib::lemma_multiset_commutative(seq![e], sorted);
        assert(seq![e] =~= Seq::<Entry>::empty().push(e));
        assert(whole.to_multiset() =~= sorted.to_multiset().insert(e));
    }
}

/// The sorted entries have the latest first and are the given entries,
/// each as often as it was given.
pub proof fn lemma_sort_desc(s: Seq<Entry>)
    ensures
        latest_first(sort_desc(s)),
        sort_desc(s).to_multiset() == s.to_multiset(),
        sort_desc(s).len() == s.len(),
    decreases s.len(),
{
    broadcast use vstd::seq_lib::group_to_multiset_ensures;

    if s.len() > 0 {
        lemma_sort_desc(s.drop_last());
        lemma_insert_desc_keeps_order(sort_desc(s.drop_last()), s.last());
        assert(s =~= s.drop_last().push(s.last()));
    }
}

/// Whether `name` is the name of a file of the database: four digits for
/// the year, a hyphen, two digits for the month, and the ending `.data`.
pub open spec fn data_file_name(name: Seq<char>) -> bool {
    &&& name.len() == 12
    &&& forall|i: int| 0 <= i < 4 ==> is_digit(#[trigger] name[i])
    &&& name[4] == '-'
    &&& is_digit(name[5])
    &&& is_digit(name[6])
    &&& name.subrange(7, 12) == seq!['.', 'd', 'a', 't', 'a']
}

/// Whether `name` is the name of a file of the database.
pub fn is_data_file_name(name: &str) -> (r: bool)
    ensures
        r == data_file_name(name@),
{
    let line = Line::new(name);
    let ending: Vec<char> = vec!['.', 'd', 'a', 't', 'a'];
    line.len() == 12 && digit(line.char_at(0)) && digit(line.char_at(1)) && digit(line.char_at(2))
        && digit(line.char_at(3)) && line.char_at(4) == '-' && digit(line.char_at(5)) && digit(
        line.char_at(6),
    ) && line.has_at(7, &ending)
}

/// A file as it was read: its name and its lines, without their line ends.
#[derive(Debug, PartialEq, Eq)]
pub struct DataFile {
    /// The name of the file, without the directory.
    pub name: String,
    /// The lines of the file, in their order.
    pub lines: Vec<String>,
}

/// The texts of the lines of a file.
pub open spec fn line_texts(lines: Seq<String>) -> Seq<Seq<char>> {
    Seq::new(lines.len(), |i: int| lines[i]@)
}

/// Whether a line can be read: it is empty or writes an entry.
pub open spec fn readable(line: Seq<char>) -> bool {
    line.len() == 0 || entry_of(line) is Some
}

/// Whether a line is read in one way only: it is empty or writes an entry
/// with the moments of its range.
pub open spec fn literal_line(line: Seq<char>) -> bool {
    line.len() == 0 || Entry::literal(line) is Some
}

/// Whether `entries` are what the lines write, one entry for each line
/// that is not empty. Of a range that is named after the present day this
/// says only what [`Entry::written_by`] says.
pub open spec fn written(lines: Seq<Seq<char>>, entries: Seq<Entry>) -> bool
    decreases lines.len(),
{
    if lines.len() == 0 {
        entries.len() == 0
    } else if lines.last().len() == 0 {
        written(lines.drop_last(), entries)
    } else {
        &&& entries.len() > 0
        &&& entries.last().written_by(lines.last())
        &&& written(lines.drop_last(), entries.drop_last())
    }
}

/// The entries that the lines write with the moments of their ranges.
pub open spec fn literal_entries(lines: Seq<Seq<char>>) -> Seq<Entry>
    decreases lines.len(),
{
    if lines.len() == 0 {
        Seq::empty()
    } else {
        match Entry::literal(lines.last()) {
            Some(e) => literal_entries(lines.drop_last()).push(e),
            None => literal_entries(lines.drop_last()),
        }
    }
}

/// Whether every line is read in one way only.
pub open spec fn all_literal(lines: Seq<Seq<char>>) -> bool {
    forall|i: int| 0 <= i < lines.len() ==> literal_line(#[trigger] lines[i])
}

/// Whether `e` is the error of the first line of a file that is not read:
/// it names the file and the line, the line is not read in one way only,
/// and every line before it can be read.
pub open spec fn first_failure(file: Seq<char>, lines: Seq<Seq<char>>, e: Error) -> bool {
    exists|k: int|
        {
            &&& 0 <= k < lines.len()
            &&& e.is_parse_of(Some(file), #[trigger] lines[k])
            &&& !literal_line(lines[k])
            &&& forall|j: int| 0 <= j < k ==> readable(#[trigger] lines[j])
        }
}

/// The lines of the files of the database among `files`, in their order.
pub open spec fn database_lines(files: Seq<DataFile>) -> Seq<Seq<char>>
    decreases files.len(),
{
    if files.len() == 0 {
        Seq::empty()
    } else if data_file_name(files.last().name@) {
        database_lines(files.drop_last()) + line_texts(files.last().lines@)
    } else {
        database_lines(files.drop_last())
    }
}

/// Whether `e` is the error of the first line that is not read, in the
/// first file of the database that has one.
pub open spec fn first_failure_among(files: Seq<DataFile>, e: Error) -> bool {
    exists|f: int|
        {
            &&& 0 <= f < files.len()
            &&& data_file_name((#[trigger] files[f]).name@)
            &&& first_failure(files[f].name@, line_texts(files[f].lines@), e)
            &&& forall|j: int|
                0 <= j < database_lines(files.take(f)).len() ==> readable(
                    #[trigger] database_lines(files.take(f))[j],
                )
        }
}

/// Lines that are written by some entries and are each read in one way
/// only are written by the entries of [`literal_entries`].
pub proof fn lemma_written_literal(lines: Seq<Seq<char>>, entries: Seq<Entry>)
    requires
        written(lines, entries),
        all_literal(lines),
    ensures
        entries == literal_entries(lines),
    decreases lines.len(),
{
    if lines.len() == 0 {
        assert(entries =~= Seq::<Entry>::empty());
    } else {
        assert(literal_line(lines.last()));
        assert forall|i: int| 0 <= i < lines.drop_last().len() implies literal_line(
            #[trigger] lines.drop_last()[i],
        ) by {
            assert(lines.drop_last()[i] == lines[i]);
        }
        if lines.last().len() == 0 {
            lemma_written_literal(lines.drop_last(), entries);
            lemma_empty_line_writes_nothing(lines.last());
        } else {
            lemma_written_literal(lines.drop_last(), entries.drop_last());
            assert(entries =~= entries.drop_last().push(entries.last()));
        }
    }
}

/// An empty line writes no entry.
pub proof fn lemma_empty_line_writes_nothing(line: Seq<char>)
    requires
        line.len() == 0,
    ensures
        entry_of(line) is None,
{
}

/// What lines write, put after what other lines write, is what all the
/// lines together write.
pub proof fn lemma_written_concat(
    first: Seq<Seq<char>>,
    first_entries: Seq<Entry>,
    second: Seq<Seq<char>>,
    second_entries: Seq<Entry>,
)
    requires
        written(first, first_entries),
        written(second, second_entries),
    ensures
        written(first + second, first_entries + second_entries),
    decreases second.len(),
{
    if second.len() == 0 {
        assert(first + second =~= first);
        assert(first_entries + second_entries =~= first_entries);
    } else {
        assert((first + second).drop_last() =~= first + second.drop_last());
        assert((first + second).last() == second.last());
        if second.last().len() == 0 {
            lemma_written_concat(first, first_entries, second.drop_last(), second_entries);
        } else {
            lemma_written_concat(
                first,
                first_entries,
                second.drop_last(),
                second_entries.drop_last(),
            );
            assert((first_entries + second_entries).drop_last() =~= first_entries
                + second_entries.drop_last());
            assert((first_entries + second_entries).last() == second_entries.last());
        }
    }
}

/// Reads the lines of the file `file`: one entry for each line that is
/// not empty. The first line that cannot be read ends the reading with an
/// error that names the file and the line.
pub fn read_lines(file: &str, lines: &Vec<String>) -> (r: Result<Vec<TimeEntry>, Error>)
    ensures
        match r {
            Ok(entries) => {
                &&& entries_valid(entries@)
                &&& written(line_texts(lines@), entries_view(entries@))
            },
            Err(e) => first_failure(file@, line_texts(lines@), e),
        },
        all_literal(line_texts(lines@)) ==> r is Ok,
{
    let ghost texts = line_texts(lines@);
    let mut entries: Vec<TimeEntry> = Vec::new();
    let mut i: usize = 0;
    proof {
        assert(texts.take(0) =~= Seq::<Seq<char>>::empty());
    }
    while i < lines.len()
        invariant
            texts == line_texts(lines@),
            i <= lines@.len(),
            entries_valid(entries@),
            written(texts.take(i as int), entries_view(entries@)),
            forall|j: int| 0 <= j < i ==> readable(#[trigger] texts[j]),
        decreases lines@.len() - i,
    {
        let line = lines[i].as_str();
        let ghost before = entries_view(entries@);
        proof {
            assert(texts.take(i + 1).drop_last() =~= texts.take(i as int));
            assert(texts.take(i + 1).last() == line@);
            assert(texts[i as int] == line@);
        }
        if !line.is_empty() {
            match TimeEntry::parse(line) {
                Ok(entry) => {
                    entries.push(entry);
                    proof {
                        assert(entries_view(entries@).drop_last() =~= before);
                    }
                },
                Err(_) => {
                    return Err(Error::parse_in(file, line));
                },
            }
        }
        i = i + 1;
    }
    proof {
        assert(texts.take(lines@.len() as int) =~= texts);
    }
    Ok(entries)
}

/// The time that the entries take together, with `now` for the end of an
/// open range.
pub open spec fn total_duration(s: Seq<Entry>, now: int) -> int
    decreases s.len(),
{
    if s.len() == 0 {
        0
    } else {
        total_duration(s.drop_last(), now) + s.last().range.duration_at(now)
    }
}

/// Whether the time of the first `k` entries fits in 128 bits.
pub open spec fn total_fits(s: Seq<Entry>, k: int, now: int) -> bool {
    i128::MIN <= total_duration(s.take(k), now) <= i128::MAX
}

/// Whether the time of the first entries fits in 128 bits, however many
/// of them are taken.
pub open spec fn totals_fit(s: Seq<Entry>, now: int) -> bool {
    forall|k: int| 0 <= k <= s.len() ==> #[trigger] total_fits(s, k, now)
}

/// Whether `total` is the time that the entries take together at the
/// moment `now`: their sum where the sums of the first entries all fit in
/// 128 bits, and nothing where one of them does not.
pub open spec fn total_at(s: Seq<Entry>, now: int, total: Option<Duration>) -> bool {
    &&& total is Some <==> totals_fit(s, now)
    &&& total matches Some(d) ==> d@ == total_duration(s, now)
}

/// The longest time that `n` entries can take together, in nanoseconds:
/// `n` times the span of time that the library handles.
pub open spec fn longest(n: int) -> int {
    n * 16_544_868_105_599_999_999_999
}

/// The number of entries up to which the sum of their times always fits
/// in 128 bits.
pub open spec fn summable() -> int {
    1_000_000_000_000_000
}

/// The time that entries take together is at most the longest time for
/// each of them, where their ranges and `now` lie in the span of time that
/// the library handles.
pub proof fn lemma_total_bound(s: Seq<Entry>, now: int)
    requires
        forall|i: int| 0 <= i < s.len() ==> (#[trigger] s[i]).range.in_span(),
        crate::time::min_nanos() <= now <= crate::time::max_nanos(),
    ensures
        -longest(s.len() as int) <= total_duration(s, now) <= longest(s.len() as int),
    decreases s.len(),
{
    if s.len() > 0 {
        let rest = s.drop_last();
        assert forall|i: int| 0 <= i < rest.len() implies (#[trigger] rest[i]).range.in_span() by {
            assert(rest[i] == s[i]);
        }
        lemma_total_bound(rest, now);
        assert(s.last() == s[s.len() - 1]);
        assert(s.last().range.in_span());
        assert(-longest(1) <= s.last().range.duration_at(now) <= longest(1));
    }
}

/// The times of up to [`summable`] entries can be added: every sum of the
/// first entries fits in 128 bits.
pub proof fn lemma_totals_fit(s: Seq<Entry>, now: int)
    requires
        forall|i: int| 0 <= i < s.len() ==> (#[trigger] s[i]).range.in_span(),
        crate::time::min_nanos() <= now <= crate::time::max_nanos(),
        s.len() <= summable(),
    ensures
        totals_fit(s, now),
{
    assert forall|k: int| 0 <= k <= s.len() implies #[trigger] total_fits(s, k, now) by {
        let first = s.take(k);
        assert forall|i: int| 0 <= i < first.len() implies (#[trigger] first[i]).range.in_span() by {
            assert(first[i] == s[i]);
        }
        lemma_total_bound(first, now);
    }
}

/// What is shown of a collection of `n` entries.
pub open spec fn loaded_text(n: nat) -> Seq<char> {
    decimal(n) + seq![' ', 'e', 'n', 't', 'r', 'i', 'e', 's', ' ', 'l', 'o', 'a', 'd', 'e', 'd']
}

/// What a list of entries stands for.
pub open spec fn entries_view(entries: Seq<TimeEntry>) -> Seq<Entry> {
    Seq::new(entries.len(), |i: int| entries[i]@)
}

/// Whether every entry of a list keeps the rules of its type.
pub open spec fn entries_valid(entries: Seq<TimeEntry>) -> bool {
    forall|i: int| 0 <= i < entries.len() ==> (#[trigger] entries[i]).valid()
}

/// The entries of the database, the most recent first.
#[derive(Debug)]
pub struct Work {
    entries: Vec<TimeEntry>,
}

impl View for Work {
    type V = Seq<Entry>;

    closed spec fn view(&self) -> Seq<Entry> {
        entries_view(self.entries@)
    }
}

/// Whether the numbers of the entries are 1 or more and grow along the
/// sequence.
pub open spec fn numbers_grow(s: Seq<Entry>) -> bool {
    &&& forall|i: int| 0 <= i < s.len() ==> (#[trigger] s[i]).id >= i + 1
    &&& forall|i: int, j: int| 0 <= i < j < s.len() ==> s[i].id < s[j].id
}

impl Work {
    /// Whether the collection keeps the rules of its type: every entry
    /// keeps its own, no entry begins after one that stands before it, and
    /// the numbers grow along the collection.
    pub closed spec fn valid(&self) -> bool {
        &&& entries_valid(self.entries@)
        &&& latest_first(self@)
        &&& numbers_grow(self@)
    }

    /// What [`Work::valid`] says of the entries as a sequence.
    pub proof fn lemma_valid(&self)
        requires
            self.valid(),
        ensures
            latest_first(self@),
            numbers_grow(self@),
            forall|i: int|
                0 <= i < self@.len() ==> (#[trigger] self@[i]).range.in_span()
                    && self@[i].range.long_enough(),
    {
        assert forall|i: int| 0 <= i < self@.len() implies (#[trigger] self@[i]).range.in_span()
            && self@[i].range.long_enough() by {
            assert(self.entries@[i].valid());
            self.entries@[i].lemma_valid();
        }
    }

    /// The collection made of the given entries: they are put in order,
    /// the most recent first, and numbered from 1 in that order; then only
    /// those that have something in common with `range` are kept, with the
    /// numbers that they have. Without a range all are kept.
    pub fn from_entries(entries: Vec<TimeEntry>, range: Option<Range>) -> (work: Work)
        requires
            entries_valid(entries@),
            range matches Some(r) ==> r.valid(),
        ensures
            work.valid(),
            work@ == assemble(entries_view(entries@), range_view(range)),
    {
        let ghost given = entries_view(entries@);
        let ghost filter = range_view(range);
        let mut ascending = Self::earliest_first(entries);
        let ghost sorted = sort_desc(given);
        let ghost all = numbered(sorted);
        let total = ascending.len();
        let mut kept: Vec<TimeEntry> = Vec::new();
        let mut count: usize = 0;
        proof {
            lemma_sort_desc(given);
            assert(all.take(0) =~= Seq::<Entry>::empty());
            assert(entries_view(kept@) =~= Seq::<Entry>::empty());
            lemma_overlapping_empty(filter);
        }
        while count < total
            invariant
                range matches Some(r) ==> r.valid(),
                filter == range_view(range),
                sorted == sort_desc(given),
                all == numbered(sorted),
                latest_first(sorted),
                total == sorted.len(),
                count <= total,
                ascending@.len() == total - count,
                entries_valid(ascending@),
                forall|i: int|
                    0 <= i < total - count ==> (#[trigger] ascending@[i])@ == sorted[total - 1 - i],
                entries_valid(kept@),
                entries_view(kept@) == overlapping(all.take(count as int), filter),
                forall|m: int|
                    0 <= m < kept@.len() ==> 1 <= (#[trigger] kept@[m])@.id <= count && kept@[m]@
                        == all[kept@[m]@.id - 1],
                forall|m: int, n: int|
                    0 <= m < n < kept@.len() ==> (#[trigger] kept@[m])@.id
                        < (#[trigger] kept@[n])@.id,
                forall|m: int| 0 <= m < kept@.len() ==> (#[trigger] kept@[m])@.id >= m + 1,
            decreases total - count,
        {
            let ghost before = entries_view(kept@);
            let entry = ascending.pop().unwrap().with_id(count + 1);
            assert(entry@ == all[count as int]);
            let keep = match &range {
                Some(r) => entry.range().intersection(r).is_some(),
                None => true,
            };
            proof {
                lemma_overlapping_push(all.take(count as int), all[count as int], filter);
                assert(all.take(count + 1) =~= all.take(count as int).push(all[count as int]));
            }
            if keep {
                kept.push(entry);
                assert(entries_view(kept@) =~= before.push(all[count as int]));
            }
            count = count + 1;
        }
        proof {
            assert(all.take(total as int) =~= all);
            assert forall|i: int, j: int| 0 <= i <= j < kept@.len() implies entries_view(
                kept@,
            )[i].range.from >= entries_view(kept@)[j].range.from by {
                let a = kept@[i]@.id - 1;
                let b = kept@[j]@.id - 1;
                assert(kept@[i]@ == all[a] && kept@[j]@ == all[b]);
                assert(sorted[a].range.from >= sorted[b].range.from);
            }
        }
        Work { entries: kept }
    }

    /// The given entries with the earliest first: the reverse of
    /// [`sort_desc`].
    fn earliest_first(entries: Vec<TimeEntry>) -> (ascending: Vec<TimeEntry>)
        requires
            entries_valid(entries@),
        ensures
            entries_valid(ascending@),
            ascending@.len() == entries@.len(),
            sort_desc(entries_view(entries@)).len() == entries@.len(),
            forall|i: int|
                0 <= i < ascending@.len() ==> (#[trigger] ascending@[i])@ == sort_desc(
                    entries_view(entries@),
                )[ascending@.len() - 1 - i],
    {
        let ghost given = entries_view(entries@);
        let ghost valid = entries@;
        let mut ascending: Vec<TimeEntry> = Vec::new();
        let ghost mut sorted: Seq<Entry> = Seq::empty();
        proof {
            assert(given.take(0) =~= Seq::<Entry>::empty());
        }
        for entry in it: entries
            invariant
                it.seq() == valid,
                entries_valid(valid),
                given == entries_view(valid),
                sorted == sort_desc(given.take(it.index() as int)),
                ascending@.len() == it.index(),
                sorted.len() == it.index(),
                entries_valid(ascending@),
                forall|i: int|
                    0 <= i < ascending@.len() ==> (#[trigger] ascending@[i])@
                        == sorted[ascending@.len() - 1 - i],
        {
            let ghost index = it.index() as int;
            assert(entry == valid[index]);
            assert(entry.valid());
            let begins = entry.range().start().nanos();
            let mut place: usize = ascending.len();
            while place > 0 && ascending[place - 1].range().start().nanos() >= begins
                invariant
                    entries_valid(ascending@),
                    place <= ascending@.len(),
                    begins == entry@.range.from,
                    forall|k: int|
                        place <= k < ascending@.len() ==> (#[trigger] ascending@[k])@.range.from
                            >= begins,
                decreases place,
            {
                place = place - 1;
            }
            proof {
                let size = ascending@.len() as int;
                assert forall|i: int| 0 <= i < size - place implies sorted[i].range.from
                    >= entry@.range.from by {
                    assert(ascending@[size - 1 - i]@ == sorted[i]);
                }
                if place > 0 {
                    assert(ascending@[place - 1]@ == sorted[size - place]);
                }
                lemma_insert_desc_at(sorted, entry@, size - place);
                assert(given.take(index + 1).drop_last() =~= given.take(index));
                sorted = sorted.insert(size - place, entry@);
            }
            ascending.insert(place, entry);
        }
        proof {
            assert(given.take(valid.len() as int) =~= given);
        }
        ascending
    }

    /// Loads the database from its files as they were read. Files whose
    /// names are not those of the database are passed over, and so are
    /// empty lines. The first line that cannot be read ends the loading with
    /// an error that names the file and the line; nothing is loaded then.
    /// The entries are put together as [`Work::from_entries`] says.
    pub fn load_range(files: &Vec<DataFile>, range: Option<Range>) -> (r: Result<Work, Error>)
        requires
            range matches Some(r) ==> r.valid(),
        ensures
            match r {
                Ok(work) => {
                    &&& work.valid()
                    &&& exists|entries: Seq<Entry>|
                        {
                            &&& written(database_lines(files@), entries)
                            &&& work@ == #[trigger] assemble(entries, range_view(range))
                        }
                },
                Err(e) => first_failure_among(files@, e),
            },
            all_literal(database_lines(files@)) ==> (r matches Ok(work) && work@ == assemble(
                literal_entries(database_lines(files@)),
                range_view(range),
            )),
    {
        let mut entries: Vec<TimeEntry> = Vec::new();
        let mut f: usize = 0;
        proof {
            assert(files@.take(0) =~= Seq::<DataFile>::empty());
        }
        while f < files.len()
            invariant
                f <= files@.len(),
                entries_valid(entries@),
                written(database_lines(files@.take(f as int)), entries_view(entries@)),
                forall|j: int|
                    0 <= j < database_lines(files@.take(f as int)).len() ==> readable(
                        #[trigger] database_lines(files@.take(f as int))[j],
                    ),
            decreases files@.len() - f,
        {
            let file = &files[f];
            let ghost earlier = database_lines(files@.take(f as int));
            let ghost before = entries_view(entries@);
            proof {
                assert(files@.take(f + 1).drop_last() =~= files@.take(f as int));
                assert(files@.take(f + 1).last() == files@[f as int]);
            }
            if is_data_file_name(file.name.as_str()) {
                match read_lines(file.name.as_str(), &file.lines) {
                    Ok(mut more) => {
                        let ghost added = entries_view(more@);
                        proof {
                            lemma_written_concat(earlier, before, line_texts(file.lines@), added);
                            lemma_written_readable(line_texts(file.lines@), added);
                        }
                        entries.append(&mut more);
                        proof {
                            assert(entries_view(entries@) =~= before + added);
                        }
                    },
                    Err(e) => {
                        proof {
                            lemma_not_all_literal(files@, f as int, e);
                        }
                        return Err(e);
                    },
                }
            }
            f = f + 1;
        }
        proof {
            assert(files@.take(files@.len() as int) =~= files@);
            if all_literal(database_lines(files@)) {
                lemma_written_literal(database_lines(files@), entries_view(entries@));
            }
        }
        Ok(Work::from_entries(entries, range))
    }

    /// Loads the whole database: [`Work::load_range`] without a range.
    pub fn load_all(files: &Vec<DataFile>) -> (r: Result<Work, Error>)
        ensures
            match r {
                Ok(work) => {
                    &&& work.valid()
                    &&& exists|entries: Seq<Entry>|
                        {
                            &&& written(database_lines(files@), entries)
                            &&& work@ == #[trigger] assemble(entries, None)
                        }
                },
                Err(e) => first_failure_among(files@, e),
            },
            all_literal(database_lines(files@)) ==> (r matches Ok(work) && work@ == assemble(
                literal_entries(database_lines(files@)),
                None,
            )),
    {
        Work::load_range(files, None)
    }

    /// The number of entries.
    pub fn len(&self) -> (n: usize)
        ensures
            n == self@.len(),
    {
        self.entries.len()
    }

    /// The time that the entries take together, with `now` for the end of
    /// an open range; `None` where the sum of the first entries leaves 128
    /// bits.
    pub fn duration_as_of(&self, now: Instant) -> (total: Option<Duration>)
        requires
            self.valid(),
            now.valid(),
        ensures
            total_at(self@, now@, total),
            self@.len() <= summable() ==> total is Some,
    {
        proof {
            self.lemma_valid();
            if self@.len() <= summable() {
                lemma_totals_fit(self@, now@);
            }
        }
        let mut sum = Duration::zero();
        let mut i: usize = 0;
        proof {
            assert(self@.take(0) =~= Seq::<Entry>::empty());
        }
        while i < self.entries.len()
            invariant
                self.valid(),
                now.valid(),
                i <= self@.len(),
                sum@ == total_duration(self@.take(i as int), now@),
                forall|k: int| 0 <= k <= i ==> #[trigger] total_fits(self@, k, now@),
                self@.len() <= summable() ==> totals_fit(self@, now@),
            decreases self@.len() - i,
        {
            assert(self.entries@[i as int].valid());
            let length = self.entries[i].range().duration_as_of(now);
            proof {
                assert(self@.take(i + 1).drop_last() =~= self@.take(i as int));
                assert(self@.take(i + 1).last() == self@[i as int]);
                assert(self@[i as int] == self.entries@[i as int]@);
                assert(total_duration(self@.take(i + 1), now@) == sum@ + length@);
            }
            match sum.checked_add(length) {
                Some(next) => {
                    sum = next;
                },
                None => {
                    assert(!total_fits(self@, i + 1, now@));
                    return None;
                },
            }
            i = i + 1;
            proof {
                Duration::lemma_fits(sum);
            }
        }
        proof {
            assert(self@.take(self@.len() as int) =~= self@);
        }
        Some(sum)
    }

    /// The time that the entries take together: the sum of the times of
    /// all entries, where an open range is taken to end at the moment of the
    /// call. The sum is `None` where the sum of the first entries leaves 128
    /// bits, which does not happen with [`summable`] entries or fewer.
    pub fn duration(&self) -> (total: Option<Duration>)
        requires
            self.valid(),
        ensures
            exists|now: Instant| now.valid() && #[trigger] total_at(self@, now@, total),
            self@.len() <= summable() ==> total is Some,
    {
        let now = crate::clock::now();
        let total = self.duration_as_of(now);
        assert(total_at(self@, now@, total));
        total
    }

    /// What is shown of the collection: the number of its entries and the
    /// words `entries loaded`.
    pub fn to_text(&self) -> (text: String)
        ensures
            text@ == loaded_text(self@.len()),
    {
        proof {
            reveal_strlit(" entries loaded");
        }
        let mut text = String::new();
        push_decimal(&mut text, self.entries.len() as u128);
        text.append(" entries loaded");
        assert(text@ =~= loaded_text(self@.len()));
        text
    }

    /// The entries of the collection, the most recent first.
    pub fn entries(&self) -> (entries: &[TimeEntry])
        ensures
            entries_view(entries@) == self@,
            self.valid() ==> entries_valid(entries@),
    {
        self.entries.as_slice()
    }
}

/// Nothing is kept of no entries.
pub proof fn lemma_overlapping_empty(filter: Option<Interval>)
    ensures
        overlapping(Seq::<Entry>::empty(), filter) == Seq::<Entry>::empty(),
{
    reveal(Seq::filter);
}

/// Of a sequence with one more entry, that entry is kept after those that
/// are kept of the sequence, where it has something in common with the
/// filter or there is no filter.
pub proof fn lemma_overlapping_push(s: Seq<Entry>, e: Entry, filter: Option<Interval>)
    ensures
        overlapping(s.push(e), filter) == match filter {
            Some(f) => if e.range.intersection(f) is Some {
                overlapping(s, filter).push(e)
            } else {
                overlapping(s, filter)
            },
            None => overlapping(s, filter).push(e),
        },
{
    reveal(Seq::filter);
    assert(s.push(e).drop_last() =~= s);
}

/// Lines that are written by some entries can each be read.
pub proof fn lemma_written_readable(lines: Seq<Seq<char>>, entries: Seq<Entry>)
    requires
        written(lines, entries),
    ensures
        forall|j: int| 0 <= j < lines.len() ==> readable(#[trigger] lines[j]),
    decreases lines.len(),
{
    if lines.len() > 0 {
        if lines.last().len() == 0 {
            lemma_written_readable(lines.drop_last(), entries);
        } else {
            lemma_written_readable(lines.drop_last(), entries.drop_last());
        }
        assert forall|j: int| 0 <= j < lines.len() implies readable(#[trigger] lines[j]) by {
            if j < lines.len() - 1 {
                assert(lines.drop_last()[j] == lines[j]);
            }
        }
    }
}

/// The lines of a file of the database are among the lines of the
/// database.
pub proof fn lemma_database_lines_hold(files: Seq<DataFile>, f: int, k: int)
    requires
        0 <= f < files.len(),
        data_file_name(files[f].name@),
        0 <= k < files[f].lines@.len(),
    ensures
        exists|j: int|
            0 <= j < database_lines(files).len() && #[trigger] database_lines(files)[j]
                == files[f].lines@[k]@,
    decreases files.len(),
{
    let rest = database_lines(files.drop_last());
    if f == files.len() - 1 {
        let lines = line_texts(files[f].lines@);
        assert(database_lines(files)[rest.len() + k] == lines[k]);
    } else {
        assert(files.drop_last()[f] == files[f]);
        lemma_database_lines_hold(files.drop_last(), f, k);
        let j = choose|j: int|
            0 <= j < rest.len() && #[trigger] rest[j] == files[f].lines@[k]@;
        assert(database_lines(files)[j] == rest[j]);
    }
}

/// Where reading a file of the database fails, the error is that of the
/// first failure among the files, and not every line of the database is
/// read in one way only.
proof fn lemma_not_all_literal(files: Seq<DataFile>, f: int, e: Error)
    requires
        0 <= f < files.len(),
        data_file_name(files[f].name@),
        first_failure(files[f].name@, line_texts(files[f].lines@), e),
        forall|j: int|
            0 <= j < database_lines(files.take(f)).len() ==> readable(
                #[trigger] database_lines(files.take(f))[j],
            ),
    ensures
        first_failure_among(files, e),
        !all_literal(database_lines(files)),
{
    let lines = line_texts(files[f].lines@);
    let k = choose|k: int|
        {
            &&& 0 <= k < lines.len()
            &&& e.is_parse_of(Some(files[f].name@), #[trigger] lines[k])
            &&& !literal_line(lines[k])
            &&& forall|j: int| 0 <= j < k ==> readable(#[trigger] lines[j])
        };
    lemma_database_lines_hold(files, f, k);
    let j = choose|j: int|
        0 <= j < database_lines(files).len() && #[trigger] database_lines(files)[j]
            == files[f].lines@[k]@;
    assert(!literal_line(database_lines(files)[j]));
}

/// Without a filter every entry is kept, and the numbers run from 1 in
/// the order of the collection.
pub proof fn lemma_assemble_all(s: Seq<Entry>)
    ensures
        assemble(s, None).len() == s.len(),
        latest_first(assemble(s, None)),
        forall|i: int| 0 <= i < s.len() ==> (#[trigger] assemble(s, None)[i]).id == i + 1,
        forall|i: int|
            0 <= i < s.len() ==> (#[trigger] assemble(s, None)[i]) == (Entry {
                id: (i + 1) as nat,
                ..sort_desc(s)[i]
            }),
{
    lemma_sort_desc(s);
}

/// A filter takes entries away and changes none: every entry that is kept
/// has something in common with the filter and is the entry that has its
/// number in the collection without a filter.
pub proof fn lemma_assemble_keeps_numbers(s: Seq<Entry>, filter: Interval)
    ensures
        assemble(s, Some(filter)).len() <= s.len(),
        forall|i: int|
            0 <= i < assemble(s, Some(filter)).len() ==> {
                let e = #[trigger] assemble(s, Some(filter))[i];
                &&& e.range.intersection(filter) is Some
                &&& 1 <= e.id <= s.len()
                &&& e == assemble(s, None)[e.id - 1]
            },
{
    lemma_sort_desc(s);
    let all = numbered(sort_desc(s));
    let kept = all.filter(overlaps(filter));
    all.lemma_filter_len(overlaps(filter));
    assert forall|i: int| 0 <= i < kept.len() implies {
        let e = #[trigger] kept[i];
        &&& e.range.intersection(filter) is Some
        &&& 1 <= e.id <= s.len()
        &&& e == all[e.id - 1]
    } by {
        let e = kept[i];
        all.lemma_filter_pred(overlaps(filter), i);
        assert(kept.contains(e));
        all.lemma_filter_contains_rev(overlaps(filter), e);
        let j = choose|j: int| 0 <= j < all.len() && all[j] == e;
        assert(all[j].id == j + 1);
    }
}

} // verus!
