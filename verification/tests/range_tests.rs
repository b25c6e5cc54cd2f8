use chrono::NaiveDateTime;
use chrono::Utc;
use timewarrior_rs::clock::LocalMapping;
use timewarrior_rs::error::Error;
use timewarrior_rs::error::Invalid;
use timewarrior_rs::range::Period;
use timewarrior_rs::range::Range;
use timewarrior_rs::time::Duration;
use timewarrior_rs::time::Instant;

fn parse_date_time(date: &str) -> Instant {
    let d = NaiveDateTime::parse_from_str(date, "%Y%m%dT%H%M%SZ").unwrap().and_utc();
    Instant::from_timestamp(d.timestamp(), d.timestamp_subsec_nanos()).unwrap()
}

fn at(secs: i64, nanos: u32) -> Instant {
    Instant::from_timestamp(secs, nanos).unwrap()
}

#[test]
fn test_range_parse() {
    // Correct range
    assert_eq!(
        "20220101T120000Z - 20220101T130000Z".parse::<Range>().unwrap(),
        Range::new(
            parse_date_time("20220101T120000Z"),
            Some(parse_date_time("20220101T130000Z"))
        )
        .unwrap()
    );

    // from > to
    assert!("20220101T130000Z - 20220101T120000Z".parse::<Range>().is_err());

    // to not specified
    assert_eq!(
        "20220101T120000Z".parse::<Range>().unwrap(),
        Range::new(parse_date_time("20220101T120000Z"), None).unwrap()
    );

    // to not specified but from > now
    let now = Utc::now();
    let tomorrow = now + chrono::Duration::days(1);
    let range = tomorrow.format("%Y%m%dT%H%M%SZ").to_string();
    assert!(range.parse::<Range>().is_err(),);

    // Wrong format
    assert!("１日１月２０２２年".parse::<Range>().is_err())
}

#[test]
fn test_range_split() {
    let input1: Range = "20220101T120000Z - 20220101T130000Z".parse().unwrap();
    let output1: Range = "20220101T120000Z - 20220101T123000Z".parse().unwrap();
    let output2: Range = "20220101T123000Z - 20220101T130000Z".parse().unwrap();

    assert_eq!(input1.split().unwrap(), (output1, output2));

    // Check that 1s duration is not split
    let input1: Range = "20220101T120000Z - 20220101T120001Z".parse().unwrap();

    assert!(input1.split().is_err());
}

#[test]
fn test_range_split_at() {
    let input1: Range = "20220101T120000Z - 20220101T130000Z".parse().unwrap();
    let output1: Range = "20220101T120000Z - 20220101T123000Z".parse().unwrap();
    let output2: Range = "20220101T123000Z - 20220101T130000Z".parse().unwrap();

    // Correct split
    assert_eq!(
        input1.split_at(parse_date_time("20220101T123000Z")).unwrap(),
        (output1, output2)
    );

    // Split gives range < 1s
    assert!(input1.split_at(parse_date_time("20220101T120000Z")).is_err());
    assert!(input1.split_at(parse_date_time("20220101T130000Z")).is_err());

    // Split out of bounds
    assert!(input1.split_at(parse_date_time("20220101T110000Z")).is_err());
    assert!(input1.split_at(parse_date_time("20220101T150000Z")).is_err());
}

#[test]
fn test_range_intersect() {
    // Check working intersection
    let input1: Range = "20220101T120000Z - 20220101T124500Z".parse().unwrap();
    let input2: Range = "20220101T123000Z - 20220101T130000Z".parse().unwrap();
    let output2: Range = "20220101T123000Z - 20220101T124500Z".parse().unwrap();

    assert_eq!(input1.intersection(&input2), Some(output2));

    // Check close to intersection
    let input1: Range = "20220101T120000Z - 20220101T123000Z".parse().unwrap();
    let input2: Range = "20220101T123000Z - 20220101T130000Z".parse().unwrap();

    assert!(input1.intersection(&input2).is_none());

    // Check no intersection
    let input1: Range = "20220101T120000Z - 20220101T121500Z".parse().unwrap();
    let input2: Range = "20220101T124500Z - 20220101T130000Z".parse().unwrap();

    assert!(input1.intersection(&input2).is_none());

    // Check intersection with 1 opened range
    let input1: Range = "20220711T120000Z".parse().unwrap();
    let input2: Range = "20220711T000000Z - 20220712T000000Z".parse().unwrap();
    let output: Range = "20220711T120000Z - 20220712T000000Z".parse().unwrap();

    assert_eq!(input1.intersection(&input2).unwrap(), output);
    assert_eq!(input2.intersection(&input1).unwrap(), output);

    // Check intersection of non-crossing range with 1 opened range
    let input1: Range = "20220718T095832Z".parse().unwrap();
    let input2: Range = "20220711T000000Z - 20220717T235959Z".parse().unwrap();

    assert!(input1.intersection(&input2).is_none());
    assert!(input2.intersection(&input1).is_none());

    // Check intersection of 2 opened ranges
    let input1: Range = "20220718T104206Z".parse().unwrap();
    let input2: Range = "20220717T000000Z".parse().unwrap();

    assert_eq!(input1.intersection(&input2).unwrap(), input1);
    assert_eq!(input2.intersection(&input1).unwrap(), input1);
}

#[test]
fn test_range_duration() {
    let input1: Range = "20220101T120000Z - 20220101T124500Z".parse().unwrap();

    assert_eq!(input1.duration(), Duration::minutes(45));
}

#[test]
fn new_needs_one_second() {
    let from = at(1_641_038_400, 0);
    assert!(Range::new(from, Some(at(1_641_038_401, 0))).is_ok());
    assert_eq!(
        Range::new(from, Some(from)),
        Err(Error::Validation(Invalid::TooShort))
    );
    assert_eq!(
        Range::new(from, Some(at(1_641_038_400, 500_000_000))),
        Err(Error::Validation(Invalid::TooShort))
    );
    assert_eq!(
        Range::new(from, Some(at(1_641_038_400, 999_999_999))),
        Err(Error::Validation(Invalid::TooShort))
    );
    assert!(Range::new(from, Some(at(1_641_038_399, 0))).is_err());
    assert!(Range::new(from, None).is_ok());
}

#[test]
fn new_keeps_its_ends() {
    let from = at(10, 5);
    let to = at(20, 7);
    let range = Range::new(from, Some(to)).unwrap();
    assert_eq!(range.start(), from);
    assert_eq!(range.end(), Some(to));
    assert!(!range.is_open());
    let open = Range::new(from, None).unwrap();
    assert_eq!(open.start(), from);
    assert_eq!(open.end(), None);
    assert!(open.is_open());
}

#[test]
fn intersection_commutes() {
    let ranges = [
        Range::new(at(0, 0), Some(at(100, 0))).unwrap(),
        Range::new(at(50, 0), Some(at(150, 0))).unwrap(),
        Range::new(at(100, 0), Some(at(200, 0))).unwrap(),
        Range::new(at(99, 500_000_000), Some(at(300, 0))).unwrap(),
        Range::new(at(20, 0), None).unwrap(),
        Range::new(at(120, 0), None).unwrap(),
        Range::new(at(-50, 0), Some(at(0, 1))).unwrap(),
    ];
    for a in ranges.iter() {
        for b in ranges.iter() {
            assert_eq!(a.intersection(b), b.intersection(a));
        }
    }
}

#[test]
fn intersection_takes_later_start_and_earlier_end() {
    let a = Range::new(at(0, 0), Some(at(100, 0))).unwrap();
    let b = Range::new(at(50, 0), Some(at(150, 0))).unwrap();
    assert_eq!(
        a.intersection(&b),
        Some(Range::new(at(50, 0), Some(at(100, 0))).unwrap())
    );
    let inner = Range::new(at(10, 0), Some(at(20, 0))).unwrap();
    assert_eq!(a.intersection(&inner), Some(inner));
    let open = Range::new(at(99, 0), None).unwrap();
    assert_eq!(
        a.intersection(&open),
        Some(Range::new(at(99, 0), Some(at(100, 0))).unwrap())
    );
    let late = Range::new(at(99, 1), None).unwrap();
    assert_eq!(a.intersection(&late), None);
}

#[test]
fn abutting_ranges_do_not_intersect() {
    let a = Range::new(at(0, 0), Some(at(100, 0))).unwrap();
    let b = Range::new(at(100, 0), Some(at(200, 0))).unwrap();
    let c = Range::new(at(100, 0), None).unwrap();
    assert_eq!(a.intersection(&b), None);
    assert_eq!(b.intersection(&a), None);
    assert_eq!(a.intersection(&c), None);
}

#[test]
fn open_range_meets_itself() {
    let a = Range::new(at(1_000, 250), None).unwrap();
    assert_eq!(a.intersection(&a), Some(a));
}

#[test]
fn duration_as_of_uses_now_for_open_ranges() {
    let closed = Range::new(at(100, 0), Some(at(160, 500))).unwrap();
    assert_eq!(closed.duration_as_of(at(0, 0)), Duration::from_nanos(60_000_000_500));
    let open = Range::new(at(100, 0), None).unwrap();
    assert_eq!(open.duration_as_of(at(130, 0)), Duration::seconds(30));
    assert_eq!(open.duration_as_of(at(90, 0)), Duration::seconds(-10));
    assert_eq!(open.end_at(at(130, 0)), at(130, 0));
    assert_eq!(closed.end_at(at(130, 0)), at(160, 500));
}

#[test]
fn days_as_of_steps_by_whole_days() {
    let range = Range::new(at(0, 0), Some(at(2 * 86_400, 0))).unwrap();
    assert_eq!(
        range.days_as_of(at(0, 0)),
        vec![at(0, 0), at(86_400, 0), at(2 * 86_400, 0)]
    );
    let short = Range::new(at(5, 0), Some(at(86_404, 0))).unwrap();
    assert_eq!(short.days_as_of(at(0, 0)), vec![at(5, 0)]);
    let open = Range::new(at(100, 0), None).unwrap();
    assert_eq!(open.days_as_of(at(100, 0)), vec![at(100, 0)]);
    assert_eq!(open.days_as_of(at(99, 0)), Vec::<Instant>::new());
    assert_eq!(
        open.days_as_of(at(100 + 86_400, 0)),
        vec![at(100, 0), at(100 + 86_400, 0)]
    );
    assert!(!range.days().is_empty());
}

#[test]
fn split_halves_recompose() {
    let range = Range::new(at(0, 0), Some(at(3, 0))).unwrap();
    let (first, second) = range.split_as_of(at(0, 0)).unwrap();
    assert_eq!(first.start(), range.start());
    assert_eq!(first.end(), Some(at(1, 500_000_000)));
    assert_eq!(second.start(), at(1, 500_000_000));
    assert_eq!(second.end(), range.end());

    let open = Range::new(at(0, 0), None).unwrap();
    let (first, second) = open.split_as_of(at(10, 0)).unwrap();
    assert_eq!(first, Range::new(at(0, 0), Some(at(5, 0))).unwrap());
    assert_eq!(second, Range::new(at(5, 0), None).unwrap());
}

#[test]
fn split_needs_two_seconds() {
    let range = Range::new(at(0, 0), Some(at(1, 999_999_999))).unwrap();
    assert_eq!(
        range.split_as_of(at(0, 0)),
        Err(Error::Validation(Invalid::TooShort))
    );
    let range = Range::new(at(0, 0), Some(at(2, 0))).unwrap();
    assert!(range.split_as_of(at(0, 0)).is_ok());
    let open = Range::new(at(10, 0), None).unwrap();
    assert!(open.split_as_of(at(11, 999_999_999)).is_err());
    assert!(open.split_as_of(at(5, 0)).is_err());
    assert!(open.split_as_of(at(12, 0)).is_ok());
}

#[test]
fn split_at_of_open_range_leaves_second_part_open() {
    let open = Range::new(at(10, 0), None).unwrap();
    let (first, second) = open.split_at(at(20, 0)).unwrap();
    assert_eq!(first, Range::new(at(10, 0), Some(at(20, 0))).unwrap());
    assert_eq!(second, Range::new(at(20, 0), None).unwrap());
    assert!(open.split_at(at(10, 999_999_999)).is_err());
}

#[test]
fn parse_as_of_reads_the_three_forms() {
    let now = parse_date_time("20220102T000000Z");
    assert_eq!(
        Range::parse_as_of("20220101T120000Z - 20220101T130000Z", now),
        Ok(Range::new(
            parse_date_time("20220101T120000Z"),
            Some(parse_date_time("20220101T130000Z"))
        )
        .unwrap())
    );
    assert_eq!(
        Range::parse_as_of("20220101T120000Z", now),
        Ok(Range::new(parse_date_time("20220101T120000Z"), None).unwrap())
    );
    let week = Range::parse_as_of(":week", now).unwrap();
    assert!(!week.is_open());
    assert_eq!(Range::parse_as_of(":week", now), Range::current_week());
    assert_eq!(Range::parse_as_of(":today", now), Range::today());
    assert_eq!(Range::parse_as_of(":yesterday", now), Range::yesterday());
    assert_eq!(Range::parse_as_of(":lastweek", now), Range::last_week());
    assert_eq!(Range::parse_as_of(":month", now), Range::current_month());
    assert_eq!(Range::parse_as_of(":lastmonth", now), Range::last_month());
}

#[test]
fn parse_as_of_refuses_an_open_range_that_has_not_begun() {
    let text = "20220101T120000Z";
    let begins = parse_date_time(text);
    assert_eq!(
        Range::parse_as_of(text, begins),
        Err(Error::Validation(Invalid::NotBegun))
    );
    assert_eq!(
        Range::parse_as_of(text, at(begins.timestamp(), 999_999_999)),
        Err(Error::Validation(Invalid::NotBegun))
    );
    assert!(Range::parse_as_of(text, at(begins.timestamp() + 1, 0)).is_ok());
    // a range that ends may lie in the future
    assert!(Range::parse_as_of("20220101T120000Z - 20220101T130000Z", at(0, 0)).is_ok());
}

#[test]
fn parse_as_of_names_the_text_it_refuses() {
    let now = parse_date_time("20220102T000000Z");
    for text in [
        "",
        "20220101T120000Z ",
        " 20220101T120000Z",
        "20220101T120000Z - ",
        "20220101T120000Z - 20220101T120000Z",
        "20220101T130000Z - 20220101T120000Z",
        "20220101T120000Z - 20220101T130000Z trailing",
        "20221301T120000Z",
        "20220230T120000Z",
        "20220101T250000Z",
        "20220101T126000Z",
        "20220101T120060Z",
        "2022-01-01T12:00:00Z",
        "20220101t120000Z",
        "20220101T120000",
        "+0220101T120000Z",
        ":",
        ":tomorrow",
        ":today ",
        ":Today",
        "today",
    ] {
        assert_eq!(
            Range::parse_as_of(text, now),
            Err(Error::Parse { file: None, text: text.to_string() }),
            "{}",
            text
        );
    }
}

#[test]
fn written_range_is_read_back() {
    let now = parse_date_time("20300101T000000Z");
    for (first, second) in [
        ("20220101T120000Z", "20220101T120001Z"),
        ("00010101T000000Z", "99991231T235959Z"),
        ("20240229T235959Z", "20240301T000000Z"),
    ] {
        let range = Range::new(parse_date_time(first), Some(parse_date_time(second))).unwrap();
        let text = format!("{} - {}", first, second);
        assert_eq!(Range::parse_as_of(&text, now), Ok(range));
    }
}

#[test]
fn from_local_needs_two_single_moments() {
    let morning = LocalMapping::Once { secs: 1_657_497_600, nanos: 0 };
    let evening = LocalMapping::Once { secs: 1_657_583_999, nanos: 0 };
    assert_eq!(
        Range::from_local(morning, evening),
        Ok(Range::new(at(1_657_497_600, 0), Some(at(1_657_583_999, 0))).unwrap())
    );
    assert_eq!(
        Range::from_local(LocalMapping::Never, evening),
        Err(Error::Validation(Invalid::LocalTime))
    );
    assert_eq!(
        Range::from_local(LocalMapping::Twice, evening),
        Err(Error::Validation(Invalid::LocalTime))
    );
    assert_eq!(
        Range::from_local(morning, LocalMapping::Never),
        Err(Error::Validation(Invalid::LocalTime))
    );
    assert_eq!(
        Range::from_local(morning, LocalMapping::Twice),
        Err(Error::Validation(Invalid::LocalTime))
    );
    assert_eq!(
        Range::from_local(evening, morning),
        Err(Error::Validation(Invalid::TooShort))
    );
    assert_eq!(
        Range::from_local(LocalMapping::Once { secs: i64::MAX, nanos: 0 }, evening),
        Err(Error::Validation(Invalid::OutOfRange))
    );
    assert_eq!(
        Range::from_local(morning, LocalMapping::Once { secs: 1_657_583_999, nanos: 1_000_000_000 }),
        Err(Error::Validation(Invalid::OutOfRange))
    );
    assert_eq!(
        Range::from_local(LocalMapping::Twice, LocalMapping::Once { secs: i64::MAX, nanos: 0 }),
        Err(Error::Validation(Invalid::LocalTime))
    );
}

#[test]
fn periods_end_and_nest() {
    let today = Range::today().unwrap();
    let week = Range::current_week().unwrap();
    let month = Range::current_month().unwrap();
    assert!(!today.is_open());
    assert_eq!(today.intersection(&week), Some(today));
    assert_eq!(today.intersection(&month), Some(today));
    let yesterday = Range::yesterday().unwrap();
    assert_eq!(yesterday.intersection(&today), None);
    assert!(yesterday.start() < today.start());
    let last_week = Range::last_week().unwrap();
    assert_eq!(last_week.intersection(&week), None);
    let last_month = Range::last_month().unwrap();
    assert_eq!(last_month.intersection(&month), None);
    assert!(last_month.start() < month.start());
    assert_eq!(Range::from_period(Period::Today), Ok(today));
}

#[test]
fn pretty_duration_writes_hours_minutes_seconds() {
    let text = |secs: i64| Range::pretty_duration(&Duration::seconds(secs));
    assert_eq!(text(0), "00:00:00");
    assert_eq!(text(45 * 60), "00:45:00");
    assert_eq!(text(3_600 + 2 * 60 + 3), "01:02:03");
    assert_eq!(text(100 * 3_600 + 59 * 60 + 59), "100:59:59");
    assert_eq!(text(-5), "00:00:-5");
    assert_eq!(text(-3_725), "-1:-2:-5");
    assert_eq!(text(-36_000 - 11 * 60 - 12), "-10:-11:-12");
    assert_eq!(
        Range::pretty_duration(&Duration::from_nanos(1_999_999_999)),
        "00:00:01"
    );
    assert_eq!(
        Range::pretty_duration(&Duration::from_nanos(-1_999_999_999)),
        "00:00:-1"
    );
}

#[test]
fn render_puts_the_parts_together() {
    assert_eq!(
        Range::render("a", Some("b"), &Duration::minutes(45)),
        "a - b [00:45:00]"
    );
    assert_eq!(
        Range::render("begin", None, &Duration::seconds(3_661)),
        "begin - ... [01:01:01]"
    );
}

#[test]
fn to_text_shows_local_times_and_length() {
    let range = Range::new(at(1_641_038_400, 0), Some(at(1_641_041_100, 0))).unwrap();
    let text = range.to_text_as_of(at(0, 0));
    assert!(text.starts_with("2022-01-01 ") || text.starts_with("2021-12-31 ") || text.starts_with("2022-01-02 "));
    assert!(text.ends_with(" [00:45:00]"));
    assert!(text.contains(" - 202"));
    assert_eq!(range.to_text(), text);
    let open = Range::new(at(1_641_038_400, 0), None).unwrap();
    let text = open.to_text_as_of(at(1_641_038_400 + 3_600, 0));
    assert!(text.ends_with(" - ... [01:00:00]"));
}

#[test]
fn split_at_as_of_takes_now_for_the_end_of_an_open_range() {
    let open = Range::new(at(10, 0), None).unwrap();
    // the range began a second before now, and the cut lies after now
    assert_eq!(
        open.split_at_as_of(at(12, 0), at(11, 0)),
        Err(Error::Validation(Invalid::TooShort))
    );
    assert_eq!(
        open.split_at_as_of(at(11, 0), at(10, 999_999_999)),
        Err(Error::Validation(Invalid::TooShort))
    );
    // a cut at the present moment is the last that is taken
    assert_eq!(
        open.split_at_as_of(at(12, 0), at(12, 0)),
        Ok((
            Range::new(at(10, 0), Some(at(12, 0))).unwrap(),
            Range::new(at(12, 0), None).unwrap()
        ))
    );
    assert_eq!(
        open.split_at_as_of(at(11, 0), at(100, 0)),
        Ok((
            Range::new(at(10, 0), Some(at(11, 0))).unwrap(),
            Range::new(at(11, 0), None).unwrap()
        ))
    );
    // the first part needs its second, and the cut may not lie before the beginning
    assert!(open.split_at_as_of(at(10, 999_999_999), at(100, 0)).is_err());
    assert!(open.split_at_as_of(at(10, 0), at(100, 0)).is_err());
    assert!(open.split_at_as_of(at(9, 0), at(100, 0)).is_err());
    // an open range that begins after now cannot be cut
    assert!(open.split_at_as_of(at(11, 0), at(5, 0)).is_err());
}

#[test]
fn split_at_as_of_does_not_ask_now_of_a_range_that_ends() {
    let range = Range::new(at(10, 0), Some(at(20, 0))).unwrap();
    let parts = Ok((
        Range::new(at(10, 0), Some(at(15, 0))).unwrap(),
        Range::new(at(15, 0), Some(at(20, 0))).unwrap(),
    ));
    assert_eq!(range.split_at_as_of(at(15, 0), at(0, 0)), parts);
    assert_eq!(range.split_at_as_of(at(15, 0), at(12, 0)), parts);
    assert_eq!(range.split_at_as_of(at(15, 0), at(1_000, 0)), parts);
    assert_eq!(range.split_at(at(15, 0)), parts);
    assert!(range.split_at_as_of(at(19, 1), at(1_000, 0)).is_err());
    assert!(range.split_at_as_of(at(10, 999_999_999), at(1_000, 0)).is_err());
    assert!(range.split_at_as_of(at(21, 0), at(1_000, 0)).is_err());
    assert!(range.split_at_as_of(at(9, 0), at(1_000, 0)).is_err());
    assert!(range.split_at_as_of(at(11, 0), at(0, 0)).is_ok());
    assert!(range.split_at_as_of(at(19, 0), at(0, 0)).is_ok());
}

#[test]
fn split_at_refuses_a_moment_that_has_not_come() {
    let now = timewarrior_rs::clock::now();
    let open = Range::new(at(now.timestamp() - 3_600, 0), None).unwrap();
    let tomorrow = now.checked_add(Duration::seconds(86_400)).unwrap();
    assert_eq!(
        open.split_at(tomorrow),
        Err(Error::Validation(Invalid::TooShort))
    );
    let earlier = at(now.timestamp() - 1_800, 0);
    assert_eq!(
        open.split_at(earlier),
        Ok((
            Range::new(open.start(), Some(earlier)).unwrap(),
            Range::new(earlier, None).unwrap()
        ))
    );
}
