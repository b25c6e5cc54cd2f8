use chrono::NaiveDateTime;
use timewarrior_rs::editor::start;
use timewarrior_rs::entry::TimeEntry;
use timewarrior_rs::error::Error;
use timewarrior_rs::parser::parse_date;
use timewarrior_rs::parser::parse_entry;
use timewarrior_rs::parser::parse_range;
use timewarrior_rs::parser::parse_tags;
use timewarrior_rs::parser::Line;
use timewarrior_rs::parser::RangeSyntax;
use timewarrior_rs::parser::Stop;
use timewarrior_rs::range::Period;
use timewarrior_rs::range::Range;
use timewarrior_rs::time::Duration;
use timewarrior_rs::time::Instant;

fn parse_date_time(date: &str) -> Instant {
    let d = NaiveDateTime::parse_from_str(date, "%Y%m%dT%H%M%SZ").unwrap().and_utc();
    Instant::from_timestamp(d.timestamp(), d.timestamp_subsec_nanos()).unwrap()
}

fn strings(tags: &[&str]) -> Vec<String> {
    tags.iter().map(|t| t.to_string()).collect()
}

#[test]
fn test_timeentry_parse() {
    let input1: TimeEntry = "inc 20220101T120000Z - 20220101T124500Z # tag1 \"tag 2\" tag3"
        .parse()
        .unwrap();

    assert_eq!(input1.range().duration(), Duration::minutes(45));
    assert_eq!(input1.tags(), vec!["tag1", "tag 2", "tag3"]);
    assert!(!input1.range().is_open());

    let input1: TimeEntry = "inc 20220101T120000Z # tag1 \"tag 2  \" \" t a g 3 \""
        .parse()
        .unwrap();

    assert_eq!(input1.range().start(), parse_date_time("20220101T120000Z"));
    assert_eq!(input1.tags(), vec!["tag1", "tag 2  ", " t a g 3 "]);
    assert!(input1.range().is_open());
}

#[test]
fn parsed_entry_has_no_number_yet() {
    let entry = TimeEntry::parse("inc 20220101T120000Z - 20220101T124500Z # a").unwrap();
    assert_eq!(entry.id(), 0);
    let numbered = entry.clone().with_id(7);
    assert_eq!(numbered.id(), 7);
    assert_eq!(numbered.range(), entry.range());
    assert_eq!(numbered.tags(), entry.tags());
    assert_eq!(entry.clone(), entry);
}

#[test]
fn entry_keeps_duplicate_tags_in_order() {
    let entry = TimeEntry::parse("inc 20220101T120000Z # b a b \"a\" ü").unwrap();
    assert_eq!(entry.tags(), vec!["b", "a", "b", "a", "ü"]);
}

#[test]
fn entry_without_tags() {
    let entry = TimeEntry::parse("inc 20220101T120000Z - 20220101T124500Z # ").unwrap();
    assert!(entry.tags().is_empty());
    let built = TimeEntry::new(*entry.range(), Vec::new());
    assert_eq!(built, entry);
}

#[test]
fn entry_with_empty_quoted_tag() {
    let entry = TimeEntry::parse("inc 20220101T120000Z # \"\" x").unwrap();
    assert_eq!(entry.tags(), vec!["", "x"]);
}

#[test]
fn entry_with_a_period() {
    let entry = TimeEntry::parse("inc :today # now").unwrap();
    assert_eq!(*entry.range(), Range::today().unwrap());
    assert_eq!(entry.tags(), vec!["now"]);
}

#[test]
fn bad_lines_are_refused_with_their_text() {
    for line in [
        "",
        "inc",
        "inc ",
        "inc 20220101T120000Z",
        "inc 20220101T120000Z - 20220101T124500Z",
        "inc 20220101T120000Z - 20220101T124500Z  # tag",
        "inc 20220101T120000Z - 20220101T124500Z #tag",
        "inc 20220101T120000Z - 20220101T124500Z #",
        "inc 20221301T120000Z - 20221301T124500Z # tag",
        "inc 20220101T124500Z - 20220101T120000Z # tag",
        "inc 20220101T120000Z - 20220101T120000Z # tag",
        "Inc 20220101T120000Z # tag",
        " inc 20220101T120000Z # tag",
        "inc  20220101T120000Z # tag",
        "inc 20220101T120000Z # tag ",
        "inc 20220101T120000Z # tag  other",
        "inc 20220101T120000Z # \"open",
        "inc 20220101T120000Z # a\"b\"",
        "inc 20220101T120000Z # \"a\"b",
        "inc 20220101T120000Z #  tag",
        "inc :never # tag",
        "inc : # tag",
        "inc :today# tag",
        "exc 20220101T120000Z # tag",
    ] {
        assert_eq!(
            TimeEntry::parse(line),
            Err(Error::Parse { file: None, text: line.to_string() }),
            "{}",
            line
        );
        assert_eq!(parse_entry(line), None, "{}", line);
    }
}

#[test]
fn parse_tags_stops_where_the_list_ends() {
    assert_eq!(parse_tags("a b c"), (strings(&["a", "b", "c"]), 5));
    assert_eq!(parse_tags(""), (strings(&[]), 0));
    assert_eq!(parse_tags(" a"), (strings(&[]), 0));
    assert_eq!(parse_tags("a  b"), (strings(&["a"]), 1));
    assert_eq!(parse_tags("a "), (strings(&["a"]), 1));
    assert_eq!(parse_tags("\"a b\" c"), (strings(&["a b", "c"]), 7));
    assert_eq!(parse_tags("\"a b"), (strings(&[]), 0));
    assert_eq!(parse_tags("x \"a b"), (strings(&["x"]), 1));
    assert_eq!(parse_tags("ab\"cd\""), (strings(&["ab"]), 2));
    assert_eq!(parse_tags("\"\""), (strings(&[""]), 2));
    assert_eq!(parse_tags("ä \"ö ü\""), (strings(&["ä", "ö ü"]), 7));
}

#[test]
fn parse_date_reads_up_to_the_next_space() {
    assert_eq!(
        parse_date("20220101T120000Z"),
        Some((parse_date_time("20220101T120000Z"), 16))
    );
    assert_eq!(
        parse_date("20220101T120000Z - x"),
        Some((parse_date_time("20220101T120000Z"), 16))
    );
    assert_eq!(parse_date("20220101T120000Zx"), None);
    assert_eq!(parse_date(" 20220101T120000Z"), None);
    assert_eq!(parse_date("20221301T120000Z"), None);
    assert_eq!(parse_date(""), None);
}

#[test]
fn parse_range_takes_the_first_form_that_fits() {
    let from = parse_date_time("20220101T120000Z");
    let to = parse_date_time("20220101T130000Z");
    assert_eq!(
        parse_range("20220101T120000Z - 20220101T130000Z # x"),
        Some((RangeSyntax::Literal(Range::new(from, Some(to)).unwrap()), 35))
    );
    // the second moment does not follow: the range is open and the rest is left
    assert_eq!(
        parse_range("20220101T130000Z - 20220101T120000Z"),
        Some((RangeSyntax::Literal(Range::new(to, None).unwrap()), 16))
    );
    assert_eq!(
        parse_range("20220101T120000Z - 2022"),
        Some((RangeSyntax::Literal(Range::new(from, None).unwrap()), 16))
    );
    assert_eq!(
        parse_range("20220101T120000Z # x"),
        Some((RangeSyntax::Literal(Range::new(from, None).unwrap()), 16))
    );
    assert_eq!(parse_range(":today"), Some((RangeSyntax::Named(Period::Today), 6)));
    assert_eq!(
        parse_range(":yesterday # x"),
        Some((RangeSyntax::Named(Period::Yesterday), 10))
    );
    assert_eq!(parse_range(":week"), Some((RangeSyntax::Named(Period::Week), 5)));
    assert_eq!(parse_range(":lastweek"), Some((RangeSyntax::Named(Period::LastWeek), 9)));
    assert_eq!(parse_range(":month"), Some((RangeSyntax::Named(Period::Month), 6)));
    assert_eq!(parse_range(":lastmonth"), Some((RangeSyntax::Named(Period::LastMonth), 10)));
    assert_eq!(parse_range(":months"), None);
    assert_eq!(parse_range(":"), None);
    assert_eq!(parse_range("today"), None);
    assert_eq!(parse_range(""), None);
}

#[test]
fn parse_entry_gives_range_and_tags() {
    let from = parse_date_time("20220101T120000Z");
    assert_eq!(
        parse_entry("inc 20220101T120000Z # a \"b c\""),
        Some((
            RangeSyntax::Literal(Range::new(from, None).unwrap()),
            strings(&["a", "b c"])
        ))
    );
    assert_eq!(
        parse_entry("inc :lastmonth # a"),
        Some((RangeSyntax::Named(Period::LastMonth), strings(&["a"])))
    );
}

#[test]
fn resolve_looks_a_period_up() {
    let entry = TimeEntry::resolve(RangeSyntax::Named(Period::Week), strings(&["w"])).unwrap();
    assert_eq!(*entry.range(), Range::current_week().unwrap());
    assert_eq!(entry.tags(), vec!["w"]);
    assert_eq!(entry.id(), 0);
}

#[test]
fn line_helpers() {
    let line = Line::new("ab \"c d\" e1:");
    assert_eq!(line.len(), 12);
    assert_eq!(line.char_at(3), '"');
    assert_eq!(line.run_end(0, Stop::Space), 2);
    assert_eq!(line.run_end(2, Stop::Space), 2);
    assert_eq!(line.run_end(4, Stop::Quote), 7);
    assert_eq!(line.run_end(4, Stop::SpaceOrQuote), 5);
    assert_eq!(line.run_end(9, Stop::Other), 11);
    assert_eq!(line.run_end(9, Stop::Quote), 12);
    assert_eq!(line.run_end(12, Stop::Space), 12);
    assert!(line.has_at(0, &vec!['a', 'b']));
    assert!(line.has_at(12, &vec![]));
    assert!(!line.has_at(11, &vec![':', ' ']));
    assert!(!line.has_at(13, &vec![]));
    assert!(line.is_word(9, 11, &vec!['e', '1']));
    assert!(!line.is_word(9, 12, &vec!['e', '1']));
    assert_eq!(line.slice(4, 7), "c d");
    assert_eq!(line.tag_at(3), Some(("c d".to_string(), 8)));
    assert_eq!(line.tag_at(0), Some(("ab".to_string(), 2)));
    assert_eq!(line.tag_at(2), None);
    assert_eq!(line.tags_at(0), (strings(&["ab", "c d", "e1:"]), 12));
    assert_eq!(line.moment_at(0), None);
    assert_eq!(line.period_at(11), None);
    assert_eq!(line.range_at(0), None);
}

#[test]
fn entry_text_joins_range_and_tags() {
    assert_eq!(TimeEntry::render("r", "[]"), "r: []");
    let entry = TimeEntry::parse("inc 20220101T120000Z - 20220101T124500Z # tag1 \"tag 2\"").unwrap();
    let text = entry.to_text();
    assert!(text.ends_with(" [00:45:00]: [\"tag1\", \"tag 2\"]"), "{}", text);
    assert!(text.starts_with(&entry.range().to_text()));
}

#[test]
fn entry_day_is_a_day_near_its_start() {
    let entry = TimeEntry::parse("inc 20220711T120000Z - 20220711T124500Z # x").unwrap();
    let day = entry.day().unwrap();
    assert_eq!(day.year(), 2022);
    assert_eq!(day.month(), 7);
    assert!(day.day() == 10 || day.day() == 11 || day.day() == 12);
}

#[test]
fn start_is_not_available() {
    assert_eq!(start("tag"), Err(Error::Unsupported));
}
