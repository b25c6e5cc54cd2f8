//! The entries of the database: a range of time with its tags.

use vstd::prelude::*;
use crate::calendar::Date;
use crate::clock::date_shown;
use crate::clock::date_view;
use crate::clock::zone_offset;
use crate::error::Error;
use crate::parser::entry_of;
use crate::parser::parse_entry;
use crate::parser::texts;
use crate::parser::RangeSyntax;
use crate::parser::Written;
use crate::range::shown_at;
use crate::range::Period;
use crate::range::Interval;
use crate::range::Range;
use crate::time::Instant;

verus! {

/// What a [`TimeEntry`] stands for.
pub ghost struct Entry {
    /// The interval of time that the entry covers.
    pub range: Interval,
    /// The tags of the entry, in the order in which they were written.
    pub tags: Seq<Seq<char>>,
    /// The number under which the entry is shown, 0 before it has one.
    pub id: nat,
}

impl Entry {
    /// Whether the interval of the entry is that of a range which
    /// [`Range::from_period`] may find for the period, as
    /// [`Period::answer_some_day`] says it.
    pub open spec fn found_for(self, period: Period) -> bool {
        exists|found: Range|
            #[trigger] period.answer_some_day(Ok::<Range, Error>(found)) && self.range == found@
    }

    /// Whether the entry is what the line `line` writes: it has the tags
    /// of the line and no number, and its interval is the one that the line
    /// writes with its moments, or one that is found for the period that the
    /// line names.
    pub open spec fn written_by(self, line: Seq<char>) -> bool {
        match entry_of(line) {
            Some((range, tags)) => {
                &&& self.tags == tags
                &&& self.id == 0
                &&& match range {
                    Written::Literal(interval) => self.range == interval,
                    Written::Named(period) => !self.range.is_open() && self.found_for(period),
                }
            },
            None => false,
        }
    }

    /// The entry that the line `line` writes with the moments of its range.
    pub open spec fn literal(line: Seq<char>) -> Option<Entry> {
        match entry_of(line) {
            Some((Written::Literal(interval), tags)) => Some(
                Entry { range: interval, tags, id: 0 },
            ),
            _ => None,
        }
    }
}

/// A list of tags as the `Debug` of `std` writes a list of strings.
pub uninterp spec fn debug_text(tags: Seq<Seq<char>>) -> Seq<char>;

/// Writes the tags with the `Debug` of `std` for a slice of strings,
/// through `format!`. The text depends on the tags alone; nothing more is
/// claimed of it.
#[verifier::external_body]
fn tags_text(tags: &Vec<String>) -> (text: String)
    ensures
        text@ == debug_text(texts(tags@)),
{
    format!("{:?}", tags)
}

/// The text of an entry, given the text of its range and that of its tags:
/// the two with a colon and a space between them.
pub open spec fn entry_text(range: Seq<char>, tags: Seq<char>) -> Seq<char> {
    range + seq![':', ' '] + tags
}

/// Whether `r` is what reading the line `line` gives. A line that writes
/// an entry with the moments of its range is read as that entry, without a
/// number. A line that names a period is read as an entry with the tags of
/// the line and a range that ends, or refused. Any other line is refused.
/// A refusal is a parse error that names the line.
pub open spec fn read_from(line: Seq<char>, r: Result<TimeEntry, Error>) -> bool {
    &&& match r {
        Ok(entry) => entry.valid() && entry@.written_by(line),
        Err(e) => e.is_parse_of(None, line) && match entry_of(line) {
            Some((Written::Literal(_), _)) => false,
            Some((Written::Named(period), _)) => exists|found: Result<Range, Error>|
                found is Err && #[trigger] period.answer_some_day(found),
            None => true,
        },
    }
    &&& Entry::literal(line) matches Some(entry) ==> (r matches Ok(read) && read@ == entry)
}

/// Whether `r` is the entry with the tags `tags` and the range that was
/// found for a period: `found` stands for what [`Range::from_period`]
/// returns. Where no range was found, the entry is refused with the same
/// error.
pub open spec fn looked_up(
    found: Result<Range, Error>,
    tags: Seq<Seq<char>>,
    r: Result<TimeEntry, Error>,
) -> bool {
    match found {
        Ok(range) => r matches Ok(entry) && entry@ == (Entry { range: range@, tags, id: 0 }),
        Err(refusal) => r matches Err(e) && e == refusal,
    }
}

/// An entry of the database: a range of time, the tags given to it, and
/// the number under which it is shown.
#[derive(Debug, PartialEq, Eq)]
pub struct TimeEntry {
    range: Range,
    tags: Vec<String>,
    id: usize,
}

impl View for TimeEntry {
    type V = Entry;

    closed spec fn view(&self) -> Entry {
        Entry { range: self.range@, tags: texts(self.tags@), id: self.id as nat }
    }
}

impl Clone for TimeEntry {
    fn clone(&self) -> (copy: TimeEntry)
        ensures
            copy@ == self@,
            self.valid() ==> copy.valid(),
    {
        let mut tags: Vec<String> = Vec::new();
        let mut i: usize = 0;
        while i < self.tags.len()
            invariant
                i <= self.tags.len(),
                tags@.len() == i,
                forall|k: int| 0 <= k < i ==> tags@[k]@ == self.tags@[k]@,
            decreases self.tags.len() - i,
        {
            tags.push(self.tags[i].clone());
            i = i + 1;
        }
        assert(texts(tags@) =~= texts(self.tags@));
        TimeEntry { range: self.range, tags, id: self.id }
    }
}

impl TimeEntry {
    /// Whether the range of the entry keeps the rules of its type.
    pub closed spec fn valid(&self) -> bool {
        self.range.valid()
    }

    /// What [`TimeEntry::valid`] says of the entry's interval.
    pub proof fn lemma_valid(&self)
        requires
            self.valid(),
        ensures
            self@.range.in_span(),
            self@.range.long_enough(),
    {
    }

    /// An entry with the given range and tags and without a number.
    pub fn new(range: Range, tags: Vec<String>) -> (entry: TimeEntry)
        requires
            range.valid(),
        ensures
            entry.valid(),
            entry@ == (Entry { range: range@, tags: texts(tags@), id: 0 }),
    {
        TimeEntry { range, tags, id: 0 }
    }

    /// The range of time of the entry. It is open while the entry is being
    /// tracked.
    pub fn range(&self) -> (range: &Range)
        ensures
            range@ == self@.range,
            self.valid() ==> range.valid(),
    {
        &self.range
    }

    /// The tags of the entry, in the order in which they were written.
    pub fn tags(&self) -> (tags: &[String])
        ensures
            texts(tags@) == self@.tags,
    {
        self.tags.as_slice()
    }

    /// The number under which the entry is shown: 1 for the most recent
    /// entry of the database it was loaded with, 0 before it was given one.
    pub fn id(&self) -> (id: usize)
        ensures
            id == self@.id,
    {
        self.id
    }

    /// The same entry under the number `id`.
    pub fn with_id(self, id: usize) -> (entry: TimeEntry)
        ensures
            entry@ == (Entry { id: id as nat, ..self@ }),
            self.valid() ==> entry.valid(),
    {
        TimeEntry { range: self.range, tags: self.tags, id }
    }

    /// The day of the local calendar on which the entry begins; `None`
    /// where it lies outside the days that the library handles.
    pub fn day(&self) -> (day: Option<Date>)
        requires
            self.valid(),
        ensures
            exists|offset: i32|
                zone_offset(offset as int) && date_view(day) == #[trigger] date_shown(
                    self@.range.from,
                    offset as int,
                ),
            day matches Some(d) ==> d.valid(),
    {
        let from = self.range.start();
        let day = crate::clock::local_date(from);
        proof {
            let offset = choose|offset: i32|
                zone_offset(offset as int) && date_view(day) == #[trigger] date_shown(
                    from@,
                    offset as int,
                );
            assert(zone_offset(offset as int) && date_view(day) == date_shown(
                self@.range.from,
                offset as int,
            ));
        }
        day
    }

    /// The text of an entry, given the text of its range and that of its
    /// tags.
    pub fn render(range: &str, tags: &str) -> (text: String)
        ensures
            text@ == entry_text(range@, tags@),
    {
        proof {
            reveal_strlit(": ");
        }
        let mut text = String::new();
        text.append(range);
        text.append(": ");
        text.append(tags);
        assert(text@ =~= entry_text(range@, tags@));
        text
    }

    /// The entry as a text for a reader: its range as
    /// [`Range::to_text`] writes it, and its tags.
    pub fn to_text(&self) -> (text: String)
        requires
            self.valid(),
        ensures
            exists|now: Instant, range: Seq<char>|
                now.valid() && #[trigger] shown_at(self@.range, now@, range) && text@ == entry_text(
                    range,
                    debug_text(self@.tags),
                ),
    {
        let now = crate::clock::now();
        let range = self.range.to_text_as_of(now);
        let tags = tags_text(&self.tags);
        let text = Self::render(range.as_str(), tags.as_str());
        assert(now.valid() && shown_at(self@.range, now@, range@) && text@ == entry_text(
            range@,
            debug_text(self@.tags),
        ));
        text
    }

    /// The entry with the range and the tags that were read from a line.
    /// A range that is named after the present day is looked up in the
    /// calendar with [`Range::from_period`]; where that finds none, the entry
    /// is refused with the same error.
    pub fn resolve(range: RangeSyntax, tags: Vec<String>) -> (r: Result<TimeEntry, Error>)
        requires
            range.valid(),
        ensures
            match range {
                RangeSyntax::Literal(literal) => r matches Ok(entry) && entry@ == (Entry {
                    range: literal@,
                    tags: texts(tags@),
                    id: 0,
                }),
                RangeSyntax::Named(period) => exists|found: Result<Range, Error>|
                    #[trigger] period.answer_some_day(found) && looked_up(found, texts(tags@), r),
            },
            r matches Ok(entry) ==> {
                &&& entry.valid()
                &&& entry@.tags == texts(tags@)
                &&& entry@.id == 0
                &&& range is Named ==> !entry@.range.is_open()
            },
            r matches Err(e) ==> e is Validation,
    {
        match range {
            RangeSyntax::Literal(range) => Ok(TimeEntry::new(range, tags)),
            RangeSyntax::Named(period) => {
                let found = Range::from_period(period);
                let ghost looked = found;
                let ghost wanted = texts(tags@);
                let r = match found {
                    Ok(range) => Ok(TimeEntry::new(range, tags)),
                    Err(e) => Err(e),
                };
                assert(period.answer_some_day(looked) && looked_up(looked, wanted, r));
                r
            },
        }
    }

    /// Reads an entry from a line of the database. A line that does not
    /// follow the grammar is refused with an error that names it, and so is
    /// a line that names a period for which no range is found.
    pub fn parse(line: &str) -> (r: Result<TimeEntry, Error>)
        ensures
            read_from(line@, r),
    {
        match parse_entry(line) {
            Some((range, tags)) => {
                let ghost wanted = texts(tags@);
                let resolved = Self::resolve(range, tags);
                proof {
                    if let RangeSyntax::Named(period) = range {
                        let found = choose|found: Result<Range, Error>|
                            #[trigger] period.answer_some_day(found) && looked_up(
                                found,
                                wanted,
                                resolved,
                            );
                        match found {
                            Ok(x) => {
                                assert(period.answer_some_day(Ok::<Range, Error>(x))
                                    && resolved->Ok_0@.range == x@);
                            },
                            Err(_) => {
                                assert(found is Err && period.answer_some_day(found));
                            },
                        }
                    }
                }
                match resolved {
                    Ok(entry) => Ok(entry),
                    Err(_) => Err(Error::parse(line)),
                }
            },
            None => Err(Error::parse(line)),
        }
    }
}

impl std::str::FromStr for TimeEntry {
    type Err = Error;

    /// Reads an entry from a line of the database, as [`TimeEntry::parse`]
    /// does.
    fn from_str(line: &str) -> (r: Result<TimeEntry, Error>)
        ensures
            read_from(line@, r),
    {
        TimeEntry::parse(line)
    }
}

} // verus!
