//! The grammar of the database's lines.
//!
//! ```text
//! entry  := "inc " range " # " tags
//! range  := moment " - " moment | moment | ":" period
//! moment := YYYYMMDDThhmmssZ
//! period := today | yesterday | week | lastweek | month | lastmonth
//! tags   := tag (" " tag)*            (or nothing)
//! tag    := '"' any character but '"' ... '"' | characters but ' ' and '"'
//! ```
//!
//! The grammar is stated on sequences of characters by the spec functions of
//! this module; the functions that read a text return what those say. Of the
//! three forms of a range the first that fits is taken.

use vstd::prelude::*;
use crate::range::Interval;
use crate::range::Period;
use crate::range::Range;
use crate::text::chars_of;
use crate::time::is_digit;
use crate::time::literal_shaped;
use crate::time::literal_value;
use crate::time::Instant;
use crate::time::NANOS_PER_SECOND;

verus! {

/// The characters at which a run of characters ends.
#[derive(Clone, Copy, Debug, PartialEq, Eq, Structural)]
pub enum Stop {
    /// A space.
    Space,
    /// A space or a double quote.
    SpaceOrQuote,
    /// A double quote.
    Quote,
    /// Anything but a letter of the English alphabet or a digit.
    Other,
}

/// Whether `c` is a letter of the English alphabet or a digit.
pub open spec fn is_alphanumeric(c: char) -> bool {
    is_digit(c) || 'a' <= c <= 'z' || 'A' <= c <= 'Z'
}

impl Stop {
    /// Whether a run that ends at `self` ends at the character `c`.
    pub open spec fn at(self, c: char) -> bool {
        match self {
            Stop::Space => c == ' ',
            Stop::SpaceOrQuote => c == ' ' || c == '"',
            Stop::Quote => c == '"',
            Stop::Other => !is_alphanumeric(c),
        }
    }

    /// Whether a run that ends at `self` ends at the character `c`.
    pub fn stops_at(self, c: char) -> (r: bool)
        ensures
            r == self.at(c),
    {
        match self {
            Stop::Space => c == ' ',
            Stop::SpaceOrQuote => c == ' ' || c == '"',
            Stop::Quote => c == '"',
            Stop::Other => !(('0' <= c && c <= '9') || ('a' <= c && c <= 'z') || ('A' <= c && c
                <= 'Z')),
        }
    }
}

/// The place at which the run of characters that begins at `i` ends: the
/// first place from `i` on that holds a character at which the run stops,
/// or the end of the text.
pub open spec fn run_end(s: Seq<char>, i: int, stop: Stop) -> int
    decreases s.len() - i,
{
    if i < 0 || i >= s.len() || stop.at(s[i]) {
        i
    } else {
        run_end(s, i + 1, stop)
    }
}

/// A run ends at or after its beginning and within the text, holds no
/// character at which it stops, and is followed by one unless the text ends.
pub proof fn lemma_run_end(s: Seq<char>, i: int, stop: Stop)
    requires
        0 <= i <= s.len(),
    ensures
        i <= run_end(s, i, stop) <= s.len(),
        forall|k: int| i <= k < run_end(s, i, stop) ==> !stop.at(#[trigger] s[k]),
        run_end(s, i, stop) < s.len() ==> stop.at(s[run_end(s, i, stop)]),
    decreases s.len() - i,
{
    if i < s.len() && !stop.at(s[i]) {
        lemma_run_end(s, i + 1, stop);
    }
}

/// Whether the text `s` holds the word `word` at the place `i`.
pub open spec fn has_at(s: Seq<char>, i: int, word: Seq<char>) -> bool {
    0 <= i && i + word.len() <= s.len() && s.subrange(i, i + word.len()) == word
}

/// The word that begins an entry.
pub open spec fn entry_prefix() -> Seq<char> {
    seq!['i', 'n', 'c', ' ']
}

/// The word between the two moments of a range.
pub open spec fn range_separator() -> Seq<char> {
    seq![' ', '-', ' ']
}

/// The word between the range and the tags of an entry.
pub open spec fn tags_separator() -> Seq<char> {
    seq![' ', '#', ' ']
}

impl Period {
    /// The word that names the period.
    pub open spec fn name(self) -> Seq<char> {
        match self {
            Period::Today => seq!['t', 'o', 'd', 'a', 'y'],
            Period::Yesterday => seq!['y', 'e', 's', 't', 'e', 'r', 'd', 'a', 'y'],
            Period::Week => seq!['w', 'e', 'e', 'k'],
            Period::LastWeek => seq!['l', 'a', 's', 't', 'w', 'e', 'e', 'k'],
            Period::Month => seq!['m', 'o', 'n', 't', 'h'],
            Period::LastMonth => seq!['l', 'a', 's', 't', 'm', 'o', 'n', 't', 'h'],
        }
    }

    /// The period that `word` names, if it names one.
    pub open spec fn named(word: Seq<char>) -> Option<Period> {
        if word == Period::Today.name() {
            Some(Period::Today)
        } else if word == Period::Yesterday.name() {
            Some(Period::Yesterday)
        } else if word == Period::Week.name() {
            Some(Period::Week)
        } else if word == Period::LastWeek.name() {
            Some(Period::LastWeek)
        } else if word == Period::Month.name() {
            Some(Period::Month)
        } else if word == Period::LastMonth.name() {
            Some(Period::LastMonth)
        } else {
            None
        }
    }
}

impl Period {
    /// The word that names the period.
    pub fn word(self) -> (w: Vec<char>)
        ensures
            w@ == self.name(),
    {
        match self {
            Period::Today => vec!['t', 'o', 'd', 'a', 'y'],
            Period::Yesterday => vec!['y', 'e', 's', 't', 'e', 'r', 'd', 'a', 'y'],
            Period::Week => vec!['w', 'e', 'e', 'k'],
            Period::LastWeek => vec!['l', 'a', 's', 't', 'w', 'e', 'e', 'k'],
            Period::Month => vec!['m', 'o', 'n', 't', 'h'],
            Period::LastMonth => vec!['l', 'a', 's', 't', 'm', 'o', 'n', 't', 'h'],
        }
    }
}

/// The word that begins an entry.
pub fn entry_prefix_word() -> (w: Vec<char>)
    ensures
        w@ == entry_prefix(),
        w@.len() == 4,
{
    vec!['i', 'n', 'c', ' ']
}

/// The word between the two moments of a range.
pub fn range_separator_word() -> (w: Vec<char>)
    ensures
        w@ == range_separator(),
        w@.len() == 3,
{
    vec![' ', '-', ' ']
}

/// The word between the range and the tags of an entry.
pub fn tags_separator_word() -> (w: Vec<char>)
    ensures
        w@ == tags_separator(),
        w@.len() == 3,
{
    vec![' ', '#', ' ']
}

/// What the text of a range says, before a period is looked up in the
/// calendar.
pub ghost enum Written {
    /// The range is written with its moments.
    Literal(Interval),
    /// The range is named after the present day.
    Named(Period),
}

/// The moment written at the place `i`, with the place at which its text
/// ends. The text of the moment runs up to the next space.
pub open spec fn moment_at(s: Seq<char>, i: int) -> Option<(int, int)> {
    let end = run_end(s, i, Stop::Space);
    match literal_value(s.subrange(i, end)) {
        Some(t) => Some((t, end)),
        None => None,
    }
}

/// The range with two moments of which the first, `from`, ends at the
/// place `end`; nothing where no second moment follows or the range would
/// last less than a second.
pub open spec fn closed_range_at(s: Seq<char>, from: int, end: int) -> Option<(Written, int)> {
    if has_at(s, end, range_separator()) {
        match moment_at(s, end + 3) {
            Some((to, stop)) => if from + NANOS_PER_SECOND <= to {
                Some((Written::Literal(Interval { from, to: Some(to) }), stop))
            } else {
                None
            },
            None => None,
        }
    } else {
        None
    }
}

/// The period named at the place `i`, after a colon.
pub open spec fn period_at(s: Seq<char>, i: int) -> Option<(Written, int)> {
    if 0 <= i < s.len() && s[i] == ':' {
        let end = run_end(s, i + 1, Stop::Other);
        match Period::named(s.subrange(i + 1, end)) {
            Some(p) => Some((Written::Named(p), end)),
            None => None,
        }
    } else {
        None
    }
}

/// The range written at the place `i`, with the place at which its text
/// ends: two moments, or else one moment, or else a period.
pub open spec fn range_at(s: Seq<char>, i: int) -> Option<(Written, int)> {
    match moment_at(s, i) {
        Some((from, end)) => match closed_range_at(s, from, end) {
            Some(closed) => Some(closed),
            None => Some((Written::Literal(Interval { from, to: None }), end)),
        },
        None => period_at(s, i),
    }
}

/// The range that the whole text `s` writes.
pub open spec fn range_of(s: Seq<char>) -> Option<Written> {
    match range_at(s, 0) {
        Some((range, end)) => if end == s.len() {
            Some(range)
        } else {
            None
        },
        None => None,
    }
}

/// The tag written at the place `i`, with the place at which its text
/// ends. A tag that begins with a double quote runs up to the next double
/// quote and leaves both out; another tag runs up to the next space or
/// double quote and is not empty.
pub open spec fn tag_at(s: Seq<char>, i: int) -> Option<(Seq<char>, int)> {
    if 0 <= i < s.len() && s[i] == '"' {
        let close = run_end(s, i + 1, Stop::Quote);
        if close < s.len() {
            Some((s.subrange(i + 1, close), close + 1))
        } else {
            None
        }
    } else {
        let end = run_end(s, i, Stop::SpaceOrQuote);
        if end > i {
            Some((s.subrange(i, end), end))
        } else {
            None
        }
    }
}

/// The tags that follow a tag which ends at the place `i`, each after one
/// space, with the place at which the last of them ends.
pub open spec fn more_tags(s: Seq<char>, i: int) -> (Seq<Seq<char>>, int)
    decreases s.len() - i,
    via more_tags_decreases
{
    if 0 <= i < s.len() && s[i] == ' ' {
        match tag_at(s, i + 1) {
            Some((tag, end)) => {
                let (rest, stop) = more_tags(s, end);
                (seq![tag] + rest, stop)
            },
            None => (Seq::empty(), i),
        }
    } else {
        (Seq::empty(), i)
    }
}

#[via_fn]
proof fn more_tags_decreases(s: Seq<char>, i: int) {
    if 0 <= i < s.len() && s[i] == ' ' {
        lemma_tag_at(s, i + 1);
    }
}

/// A tag ends after its beginning and within the text.
pub proof fn lemma_tag_at(s: Seq<char>, i: int)
    requires
        0 <= i <= s.len(),
    ensures
        tag_at(s, i) matches Some((tag, end)) ==> i < end <= s.len(),
{
    if i < s.len() && s[i] == '"' {
        lemma_run_end(s, i + 1, Stop::Quote);
    } else {
        lemma_run_end(s, i, Stop::SpaceOrQuote);
    }
}

/// The tags written from the place `i` on, with the place at which the
/// last of them ends: none, or one and those that follow it.
pub open spec fn tags_at(s: Seq<char>, i: int) -> (Seq<Seq<char>>, int) {
    match tag_at(s, i) {
        Some((tag, end)) => {
            let (rest, stop) = more_tags(s, end);
            (seq![tag] + rest, stop)
        },
        None => (Seq::empty(), i),
    }
}

/// The range and the tags that the line `s` writes. The line is read to
/// its end: a line with anything after its last tag writes no entry.
pub open spec fn entry_of(s: Seq<char>) -> Option<(Written, Seq<Seq<char>>)> {
    if has_at(s, 0, entry_prefix()) {
        match range_at(s, 4) {
            Some((range, end)) => if has_at(s, end, tags_separator()) && tags_at(s, end + 3).1
                == s.len() {
                Some((range, tags_at(s, end + 3).0))
            } else {
                None
            },
            None => None,
        }
    } else {
        None
    }
}

/// A run ends at the place `end` where no character before `end` stops
/// it and the character at `end` does, or the text ends there.
pub proof fn lemma_run_end_is(s: Seq<char>, i: int, end: int, stop: Stop)
    requires
        0 <= i <= end <= s.len(),
        forall|k: int| i <= k < end ==> !stop.at(#[trigger] s[k]),
        end < s.len() ==> stop.at(s[end]),
    ensures
        run_end(s, i, stop) == end,
    decreases end - i,
{
    if i < end {
        assert(!stop.at(s[i]));
        lemma_run_end_is(s, i + 1, end, stop);
    }
}

/// The text of a moment is read as that moment wherever it stands in a
/// text, followed by a space or by the end of the text.
pub proof fn lemma_moment_is_read(s: Seq<char>, i: int, literal: Seq<char>)
    requires
        literal_value(literal) is Some,
        has_at(s, i, literal),
        i + 16 < s.len() ==> s[i + 16] == ' ',
    ensures
        moment_at(s, i) == Some((literal_value(literal)->0, i + 16)),
{
    assert(literal_shaped(literal));
    assert forall|k: int| i <= k < i + 16 implies !Stop::Space.at(#[trigger] s[k]) by {
        assert(s[k] == s.subrange(i, i + 16)[k - i]);
        assert(s[k] == literal[k - i]);
        if k - i != 8 && k - i != 15 {
            assert(is_digit(literal[k - i]));
        }
    }
    lemma_run_end_is(s, i, i + 16, Stop::Space);
}

/// Reading gives back what was written: the text of a moment, ` - `, and
/// the text of a moment that lies a second or more after the first are read
/// as the range between the two moments.
pub proof fn lemma_written_range_is_read(first: Seq<char>, second: Seq<char>)
    requires
        literal_value(first) is Some,
        literal_value(second) is Some,
        literal_value(first)->0 + NANOS_PER_SECOND <= literal_value(second)->0,
    ensures
        range_of(first + range_separator() + second) == Some(
            Written::Literal(
                Interval { from: literal_value(first)->0, to: Some(literal_value(second)->0) },
            ),
        ),
{
    let s = first + range_separator() + second;
    assert(literal_shaped(first) && literal_shaped(second));
    assert(s.len() == 35);
    assert(s.subrange(0, 16) =~= first);
    assert(s.subrange(16, 19) =~= range_separator());
    assert(s.subrange(19, 35) =~= second);
    assert(s[16] == ' ');
    lemma_moment_is_read(s, 0, first);
    lemma_moment_is_read(s, 19, second);
}

/// Reading gives back what was written: the text of a moment alone is
/// read as the open range that begins at that moment.
pub proof fn lemma_written_open_range_is_read(first: Seq<char>)
    requires
        literal_value(first) is Some,
    ensures
        range_of(first) == Some(
            Written::Literal(Interval { from: literal_value(first)->0, to: None }),
        ),
{
    assert(literal_shaped(first));
    assert(first.subrange(0, 16) =~= first);
    lemma_moment_is_read(first, 0, first);
}

/// What the text of a range says: the range itself, or the name of a
/// period.
#[derive(Clone, Copy, Debug, PartialEq, Eq)]
pub enum RangeSyntax {
    /// The range is written with its moments.
    Literal(Range),
    /// The range is named after the present day.
    Named(Period),
}

impl View for RangeSyntax {
    type V = Written;

    open spec fn view(&self) -> Written {
        match self {
            RangeSyntax::Literal(r) => Written::Literal(r@),
            RangeSyntax::Named(p) => Written::Named(*p),
        }
    }
}

impl RangeSyntax {
    /// Whether a range that is written out keeps the rules of its type.
    pub open spec fn valid(&self) -> bool {
        self matches RangeSyntax::Literal(r) ==> r.valid()
    }
}

/// The texts of a list of strings.
pub open spec fn texts(tags: Seq<String>) -> Seq<Seq<char>> {
    Seq::new(tags.len(), |i: int| tags[i]@)
}

/// What was read at a place of a text, with the place at which it ends.
pub open spec fn read_view(r: Option<(RangeSyntax, usize)>) -> Option<(Written, int)> {
    match r {
        Some((range, end)) => Some((range@, end as int)),
        None => None,
    }
}

/// A line of text that is being read, held also as its characters.
pub struct Line<'a> {
    text: &'a str,
    chars: Vec<char>,
}

impl<'a> View for Line<'a> {
    type V = Seq<char>;

    closed spec fn view(&self) -> Seq<char> {
        self.text@
    }
}

impl<'a> Line<'a> {
    /// Whether the characters are those of the text.
    pub closed spec fn valid(&self) -> bool {
        self.chars@ == self.text@
    }

    /// The line with the given text.
    pub fn new(text: &'a str) -> (line: Line<'a>)
        ensures
            line.valid(),
            line@ == text@,
    {
        Line { text, chars: chars_of(text) }
    }

    /// The number of characters of the line.
    pub fn len(&self) -> (n: usize)
        requires
            self.valid(),
        ensures
            n == self@.len(),
    {
        self.chars.len()
    }

    /// The character at the place `i`.
    pub fn char_at(&self, i: usize) -> (c: char)
        requires
            self.valid(),
            i < self@.len(),
        ensures
            c == self@[i as int],
    {
        self.chars[i]
    }

    /// The place at which the run of characters that begins at `from`
    /// ends.
    pub fn run_end(&self, from: usize, stop: Stop) -> (end: usize)
        requires
            self.valid(),
            from <= self@.len(),
        ensures
            end == run_end(self@, from as int, stop),
            from <= end <= self@.len(),
    {
        let mut i: usize = from;
        while i < self.chars.len() && !stop.stops_at(self.chars[i])
            invariant
                self.valid(),
                from <= i <= self@.len(),
                run_end(self@, i as int, stop) == run_end(self@, from as int, stop),
            decreases self@.len() - i,
        {
            i = i + 1;
        }
        i
    }

    /// Whether the line holds the word `word` at the place `at`.
    pub fn has_at(&self, at: usize, word: &Vec<char>) -> (r: bool)
        requires
            self.valid(),
        ensures
            r == has_at(self@, at as int, word@),
    {
        let n = word.len();
        if at > self.chars.len() || n > self.chars.len() - at {
            return false;
        }
        let mut k: usize = 0;
        while k < n
            invariant
                self.valid(),
                n == word@.len(),
                at + n <= self.chars.len(),
                self.chars.len() == self@.len(),
                k <= n,
                forall|j: int| 0 <= j < k ==> self@[at + j] == word@[j],
            decreases n - k,
        {
            if self.chars[at + k] != word[k] {
                assert(self@.subrange(at as int, at + n)[k as int] != word@[k as int]);
                return false;
            }
            k = k + 1;
        }
        assert(self@.subrange(at as int, at + n) =~= word@);
        true
    }

    /// Whether the part of the line from the place `from` up to the place
    /// `to` is the word `word`.
    pub fn is_word(&self, from: usize, to: usize, word: &Vec<char>) -> (r: bool)
        requires
            self.valid(),
            from <= to <= self@.len(),
        ensures
            r == (self@.subrange(from as int, to as int) == word@),
    {
        if to - from != word.len() {
            return false;
        }
        self.has_at(from, word)
    }

    /// The text of the line from the place `from` up to the place `to`.
    pub fn slice(&self, from: usize, to: usize) -> (part: &str)
        requires
            self.valid(),
            from <= to <= self@.len(),
        ensures
            part@ == self@.subrange(from as int, to as int),
    {
        self.text.substring_char(from, to)
    }

    /// The moment written at the place `at`, with the place at which its
    /// text ends.
    pub fn moment_at(&self, at: usize) -> (r: Option<(Instant, usize)>)
        requires
            self.valid(),
            at <= self@.len(),
        ensures
            match r {
                Some((t, end)) => {
                    &&& t.valid()
                    &&& at <= end <= self@.len()
                    &&& moment_at(self@, at as int) == Some((t@, end as int))
                },
                None => moment_at(self@, at as int) is None,
            },
    {
        let end = self.run_end(at, Stop::Space);
        match Instant::parse(self.slice(at, end)) {
            Some(t) => Some((t, end)),
            None => None,
        }
    }

    /// The period named at the place `at`, after a colon, with the place
    /// at which its name ends.
    pub fn period_at(&self, at: usize) -> (r: Option<(RangeSyntax, usize)>)
        requires
            self.valid(),
            at <= self@.len(),
        ensures
            read_view(r) == period_at(self@, at as int),
            r matches Some((range, end)) ==> at <= end <= self@.len() && range.valid(),
    {
        if at >= self.chars.len() || self.chars[at] != ':' {
            return None;
        }
        let end = self.run_end(at + 1, Stop::Other);
        let found = if self.is_word(at + 1, end, &Period::Today.word()) {
            Some(Period::Today)
        } else if self.is_word(at + 1, end, &Period::Yesterday.word()) {
            Some(Period::Yesterday)
        } else if self.is_word(at + 1, end, &Period::Week.word()) {
            Some(Period::Week)
        } else if self.is_word(at + 1, end, &Period::LastWeek.word()) {
            Some(Period::LastWeek)
        } else if self.is_word(at + 1, end, &Period::Month.word()) {
            Some(Period::Month)
        } else if self.is_word(at + 1, end, &Period::LastMonth.word()) {
            Some(Period::LastMonth)
        } else {
            None
        };
        match found {
            Some(p) => Some((RangeSyntax::Named(p), end)),
            None => None,
        }
    }

    /// The range written at the place `at`, with the place at which its
    /// text ends.
    pub fn range_at(&self, at: usize) -> (r: Option<(RangeSyntax, usize)>)
        requires
            self.valid(),
            at <= self@.len(),
        ensures
            read_view(r) == range_at(self@, at as int),
            r matches Some((range, end)) ==> at <= end <= self@.len() && range.valid(),
    {
        match self.moment_at(at) {
            None => self.period_at(at),
            Some((from, end)) => {
                let separator = range_separator_word();
                if self.has_at(end, &separator) {
                    assert(end + 3 <= self.chars.len());
                    if let Some((to, stop)) = self.moment_at(end + 3) {
                        if let Ok(range) = Range::new(from, Some(to)) {
                            return Some((RangeSyntax::Literal(range), stop));
                        }
                    }
                }
                match Range::new(from, None) {
                    Ok(range) => Some((RangeSyntax::Literal(range), end)),
                    Err(_) => None,
                }
            },
        }
    }

    /// The tag written at the place `at`, with the place at which its text
    /// ends.
    pub fn tag_at(&self, at: usize) -> (r: Option<(String, usize)>)
        requires
            self.valid(),
            at <= self@.len(),
        ensures
            match r {
                Some((tag, end)) => {
                    &&& at < end <= self@.len()
                    &&& tag_at(self@, at as int) == Some((tag@, end as int))
                },
                None => tag_at(self@, at as int) is None,
            },
    {
        if at < self.chars.len() && self.chars[at] == '"' {
            let close = self.run_end(at + 1, Stop::Quote);
            if close < self.chars.len() {
                Some((self.slice(at + 1, close).to_owned(), close + 1))
            } else {
                None
            }
        } else {
            let end = self.run_end(at, Stop::SpaceOrQuote);
            if end > at {
                Some((self.slice(at, end).to_owned(), end))
            } else {
                None
            }
        }
    }

    /// The tags written from the place `at` on, with the place at which
    /// the last of them ends.
    pub fn tags_at(&self, at: usize) -> (r: (Vec<String>, usize))
        requires
            self.valid(),
            at <= self@.len(),
        ensures
            (texts(r.0@), r.1 as int) == tags_at(self@, at as int),
            at <= r.1 <= self@.len(),
    {
        let mut tags: Vec<String> = Vec::new();
        let mut pos: usize = at;
        match self.tag_at(at) {
            None => {
                assert(texts(tags@) =~= Seq::<Seq<char>>::empty());
                return (tags, at);
            },
            Some((tag, end)) => {
                let ghost first = tag@;
                tags.push(tag);
                assert(texts(tags@) =~= seq![first]);
                pos = end;
            },
        }
        loop
            invariant
                self.valid(),
                at <= pos <= self@.len(),
                tags_at(self@, at as int) == (
                    texts(tags@) + more_tags(self@, pos as int).0,
                    more_tags(self@, pos as int).1,
                ),
            ensures
                (texts(tags@), pos as int) == tags_at(self@, at as int),
                at <= pos <= self@.len(),
            decreases self@.len() - pos,
        {
            if pos < self.chars.len() && self.chars[pos] == ' ' {
                match self.tag_at(pos + 1) {
                    Some((tag, end)) => {
                        let ghost before = texts(tags@);
                        let ghost rest = more_tags(self@, end as int).0;
                        tags.push(tag);
                        assert(texts(tags@) =~= before + seq![tag@]);
                        assert(before + (seq![tag@] + rest) =~= (before + seq![tag@]) + rest);
                        pos = end;
                    },
                    None => {
                        assert(texts(tags@) + Seq::<Seq<char>>::empty() =~= texts(tags@));
                        break ;
                    },
                }
            } else {
                assert(texts(tags@) + Seq::<Seq<char>>::empty() =~= texts(tags@));
                break ;
            }
        }
        (tags, pos)
    }
}

/// Reads the tags at the beginning of a text. The second part of the
/// result is the number of characters that they take.
pub fn parse_tags(text: &str) -> (r: (Vec<String>, usize))
    ensures
        (texts(r.0@), r.1 as int) == tags_at(text@, 0),
        r.1 <= text@.len(),
{
    Line::new(text).tags_at(0)
}

/// Reads the moment at the beginning of a text, which runs up to the
/// first space. The second part of the result is the number of characters
/// that it takes.
pub fn parse_date(text: &str) -> (r: Option<(Instant, usize)>)
    ensures
        match r {
            Some((t, end)) => {
                &&& t.valid()
                &&& end <= text@.len()
                &&& moment_at(text@, 0) == Some((t@, end as int))
            },
            None => moment_at(text@, 0) is None,
        },
{
    Line::new(text).moment_at(0)
}

/// Reads the range at the beginning of a text. The second part of the
/// result is the number of characters that it takes.
pub fn parse_range(text: &str) -> (r: Option<(RangeSyntax, usize)>)
    ensures
        read_view(r) == range_at(text@, 0),
        r matches Some((range, end)) ==> end <= text@.len() && range.valid(),
{
    Line::new(text).range_at(0)
}

/// Reads a line of the database: the range and the tags of an entry.
pub fn parse_entry(text: &str) -> (r: Option<(RangeSyntax, Vec<String>)>)
    ensures
        match r {
            Some((range, tags)) => range.valid() && entry_of(text@) == Some((range@, texts(tags@))),
            None => entry_of(text@) is None,
        },
{
    let line = Line::new(text);
    if !line.has_at(0, &entry_prefix_word()) {
        return None;
    }
    match line.range_at(4) {
        None => None,
        Some((range, end)) => {
            let separator = tags_separator_word();
            if !line.has_at(end, &separator) {
                return None;
            }
            assert(end + 3 <= line.chars.len());
            let (tags, stop) = line.tags_at(end + 3);
            if stop == line.len() {
                Some((range, tags))
            } else {
                None
            }
        },
    }
}

} // verus!
