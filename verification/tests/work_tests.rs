use timewarrior_rs::entry::TimeEntry;
use timewarrior_rs::error::Error;
use timewarrior_rs::range::Range;
use timewarrior_rs::time::Duration;
use timewarrior_rs::time::Instant;
use timewarrior_rs::work::is_data_file_name;
use timewarrior_rs::work::read_lines;
use timewarrior_rs::work::DataFile;
use timewarrior_rs::work::Work;

fn file(name: &str, lines: &[&str]) -> DataFile {
    DataFile {
        name: name.to_string(),
        lines: lines.iter().map(|l| l.to_string()).collect(),
    }
}

fn at(secs: i64) -> Instant {
    Instant::from_timestamp(secs, 0).unwrap()
}

fn ids(work: &Work) -> Vec<usize> {
    work.entries().iter().map(|e| e.id()).collect()
}

fn first_tags(work: &Work) -> Vec<String> {
    work.entries().iter().map(|e| e.tags()[0].clone()).collect()
}

#[test]
fn data_file_names() {
    assert!(is_data_file_name("2022-07.data"));
    assert!(is_data_file_name("0000-00.data"));
    assert!(is_data_file_name("9999-99.data"));
    for name in [
        "",
        "2022-07.dat",
        "2022-07.data ",
        " 2022-07.data",
        "2022-07.datab",
        "2022-7.data",
        "202-07.data",
        "20220-07.data",
        "2022_07.data",
        "2022-07xdata",
        "2022-07.DATA",
        "2022-0a.data",
        "a022-07.data",
        "２022-07.data",
        "tags.data",
        "undo.data",
        "backlog.data",
        "2022-07.data.bak",
    ] {
        assert!(!is_data_file_name(name), "{}", name);
    }
}

#[test]
fn load_two_files_with_the_same_line() {
    let line = "inc 20220101T120000Z - 20220101T130000Z # work";
    let files = vec![file("2022-06.data", &[line]), file("2022-07.data", &[line])];
    let work = Work::load_all(&files).unwrap();
    assert_eq!(work.len(), 2);
    assert_eq!(work.entries().len(), 2);
    assert_eq!(ids(&work), vec![1, 2]);
    assert_eq!(work.to_text(), "2 entries loaded");
}

#[test]
fn load_puts_the_latest_first() {
    let files = vec![
        file(
            "2022-06.data",
            &[
                "inc 20220601T120000Z - 20220601T130000Z # a",
                "inc 20220615T120000Z - 20220615T130000Z # b",
            ],
        ),
        file("notes.txt", &["this is no entry"]),
        file(
            "2022-07.data",
            &[
                "inc 20220701T120000Z - 20220701T130000Z # c",
                "",
                "inc 20220610T120000Z - 20220610T130000Z # d",
                "inc 20220715T120000Z # e",
            ],
        ),
    ];
    let work = Work::load_all(&files).unwrap();
    assert_eq!(first_tags(&work), vec!["e", "c", "b", "d", "a"]);
    assert_eq!(ids(&work), vec![1, 2, 3, 4, 5]);
    let starts: Vec<Instant> = work.entries().iter().map(|e| e.range().start()).collect();
    let mut sorted = starts.clone();
    sorted.sort();
    sorted.reverse();
    assert_eq!(starts, sorted);
    assert!(work.entries()[0].range().is_open());
}

#[test]
fn entries_that_begin_together_keep_their_order() {
    let files = vec![file(
        "2022-06.data",
        &[
            "inc 20220601T120000Z - 20220601T130000Z # first",
            "inc 20220602T120000Z - 20220602T130000Z # other",
            "inc 20220601T120000Z - 20220601T140000Z # second",
            "inc 20220601T120000Z # third",
        ],
    )];
    let work = Work::load_all(&files).unwrap();
    assert_eq!(first_tags(&work), vec!["other", "first", "second", "third"]);
    assert_eq!(ids(&work), vec![1, 2, 3, 4]);
}

#[test]
fn load_range_keeps_the_numbers() {
    let files = vec![
        file(
            "2022-06.data",
            &[
                "inc 20220601T120000Z - 20220601T130000Z # a",
                "inc 20220615T120000Z - 20220615T130000Z # b",
            ],
        ),
        file(
            "2022-07.data",
            &[
                "inc 20220701T120000Z - 20220701T130000Z # c",
                "inc 20220715T120000Z - 20220715T130000Z # d",
            ],
        ),
    ];
    let june: Range = "20220601T000000Z - 20220630T235959Z".parse().unwrap();
    let work = Work::load_range(&files, Some(june)).unwrap();
    assert_eq!(first_tags(&work), vec!["b", "a"]);
    assert_eq!(ids(&work), vec![3, 4]);
    assert_eq!(work.to_text(), "2 entries loaded");

    let middle: Range = "20220615T123000Z - 20220701T120000Z".parse().unwrap();
    let work = Work::load_range(&files, Some(middle)).unwrap();
    assert_eq!(first_tags(&work), vec!["b"]);
    assert_eq!(ids(&work), vec![3]);

    let none: Range = "20230101T000000Z - 20230102T000000Z".parse().unwrap();
    let work = Work::load_range(&files, Some(none)).unwrap();
    assert_eq!(work.len(), 0);
    assert_eq!(work.to_text(), "0 entries loaded");

    let all = Work::load_range(&files, None).unwrap();
    assert_eq!(ids(&all), vec![1, 2, 3, 4]);
}

#[test]
fn load_range_with_an_open_filter() {
    let files = vec![file(
        "2022-06.data",
        &[
            "inc 20220601T120000Z - 20220601T130000Z # a",
            "inc 20220615T120000Z - 20220615T130000Z # b",
            "inc 20220620T120000Z # c",
        ],
    )];
    let since = Range::new(at(1_655_294_400), None).unwrap(); // 2022-06-15T12:00:00Z
    let work = Work::load_range(&files, Some(since)).unwrap();
    assert_eq!(first_tags(&work), vec!["c", "b"]);
    assert_eq!(ids(&work), vec![1, 2]);
}

#[test]
fn a_bad_line_fails_the_whole_load() {
    let good = "inc 20220101T120000Z - 20220101T130000Z # work";
    let no_separator = "inc 20220101T120000Z - 20220101T130000Z work";
    let bad_month = "inc 20221301T120000Z - 20221301T130000Z # work";
    let files = vec![
        file("2022-06.data", &[good, no_separator, bad_month]),
        file("2022-07.data", &[bad_month]),
    ];
    assert_eq!(
        Work::load_all(&files).unwrap_err(),
        Error::Parse {
            file: Some("2022-06.data".to_string()),
            text: no_separator.to_string()
        }
    );
    let files = vec![
        file("2022-06.data", &[good]),
        file("2022-07.data", &[good, bad_month]),
    ];
    assert_eq!(
        Work::load_range(&files, None).unwrap_err(),
        Error::Parse {
            file: Some("2022-07.data".to_string()),
            text: bad_month.to_string()
        }
    );
    // a file that is not of the database is not read
    let files = vec![file("2022-06.data", &[good]), file("2022-07.bak", &[bad_month])];
    assert_eq!(Work::load_all(&files).unwrap().len(), 1);
}

#[test]
fn read_lines_skips_empty_lines() {
    let lines = vec![
        "".to_string(),
        "inc 20220101T120000Z - 20220101T130000Z # a".to_string(),
        "".to_string(),
        "inc 20220102T120000Z # b c".to_string(),
    ];
    let entries = read_lines("2022-01.data", &lines).unwrap();
    assert_eq!(entries.len(), 2);
    assert_eq!(entries[0].tags(), vec!["a"]);
    assert_eq!(entries[1].tags(), vec!["b", "c"]);
    assert_eq!(entries[0].id(), 0);
    assert_eq!(read_lines("x", &Vec::new()), Ok(Vec::new()));
    let lines = vec![" ".to_string()];
    assert_eq!(
        read_lines("2022-01.data", &lines),
        Err(Error::Parse {
            file: Some("2022-01.data".to_string()),
            text: " ".to_string()
        })
    );
}

#[test]
fn from_entries_sorts_numbers_and_filters() {
    let entry = |from: i64, to: i64, tag: &str| {
        TimeEntry::new(
            Range::new(at(from), Some(at(to))).unwrap(),
            vec![tag.to_string()],
        )
        .with_id(99)
    };
    let entries = vec![
        entry(10, 20, "a"),
        entry(30, 40, "b"),
        entry(20, 30, "c"),
        entry(30, 35, "d"),
    ];
    let work = Work::from_entries(entries.clone(), None);
    assert_eq!(first_tags(&work), vec!["b", "d", "c", "a"]);
    assert_eq!(ids(&work), vec![1, 2, 3, 4]);
    let filter = Range::new(at(15), Some(at(31))).unwrap();
    let work = Work::from_entries(entries, Some(filter));
    assert_eq!(first_tags(&work), vec!["b", "d", "c", "a"]);
    let filter = Range::new(at(19), Some(at(30))).unwrap();
    let work = Work::from_entries(
        vec![entry(10, 20, "a"), entry(30, 40, "b"), entry(20, 30, "c")],
        Some(filter),
    );
    assert_eq!(first_tags(&work), vec!["c", "a"]);
    assert_eq!(ids(&work), vec![2, 3]);
    assert_eq!(Work::from_entries(Vec::new(), None).len(), 0);
}

#[test]
fn work_duration_adds_the_entries() {
    let files = vec![file(
        "2022-06.data",
        &[
            "inc 20220601T120000Z - 20220601T130000Z # a",
            "inc 20220615T120000Z - 20220615T124500Z # b",
        ],
    )];
    let work = Work::load_all(&files).unwrap();
    assert_eq!(work.duration(), Some(Duration::minutes(105)));
    assert_eq!(work.duration_as_of(at(0)), Some(Duration::minutes(105)));
    let empty = Work::load_all(&Vec::new()).unwrap();
    assert_eq!(empty.duration(), Some(Duration::zero()));

    let files = vec![file(
        "2022-06.data",
        &[
            "inc 20220601T120000Z - 20220601T130000Z # a",
            "inc 20220615T120000Z # b",
        ],
    )];
    let work = Work::load_all(&files).unwrap();
    // 2022-06-15T12:00:00Z is 1655294400
    assert_eq!(
        work.duration_as_of(at(1_655_294_400 + 60)),
        Some(Duration::minutes(61))
    );
    assert_eq!(
        work.duration_as_of(at(1_655_294_400 - 3_600)),
        Some(Duration::zero())
    );
}

#[test]
fn work_text_counts_the_entries() {
    let line = "inc 20220101T120000Z - 20220101T130000Z # work";
    let lines: Vec<&str> = (0..12).map(|_| line).collect();
    let work = Work::load_all(&vec![file("2022-01.data", &lines)]).unwrap();
    assert_eq!(work.to_text(), "12 entries loaded");
    assert_eq!(ids(&work), (1..=12).collect::<Vec<usize>>());
}
