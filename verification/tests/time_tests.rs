use timewarrior_rs::time::Duration;
use timewarrior_rs::time::Instant;
use timewarrior_rs::time::MAX_TIMESTAMP;
use timewarrior_rs::time::MIN_TIMESTAMP;

#[test]
fn instant_from_timestamp_checks_its_parts() {
    let t = Instant::from_timestamp(5, 7).unwrap();
    assert_eq!(t.nanos(), 5_000_000_007);
    assert_eq!(t.timestamp(), 5);
    assert_eq!(t.subsec_nanos(), 7);
    assert!(Instant::from_timestamp(5, 1_000_000_000).is_none());
    assert!(Instant::from_timestamp(MIN_TIMESTAMP, 0).is_some());
    assert!(Instant::from_timestamp(MIN_TIMESTAMP - 1, 0).is_none());
    assert!(Instant::from_timestamp(MAX_TIMESTAMP, 999_999_999).is_some());
    assert!(Instant::from_timestamp(MAX_TIMESTAMP + 1, 0).is_none());
}

#[test]
fn instant_before_the_epoch_rounds_down() {
    let t = Instant::from_timestamp(-1, 250_000_000).unwrap();
    assert_eq!(t.nanos(), -750_000_000);
    assert_eq!(t.timestamp(), -1);
    assert_eq!(t.subsec_nanos(), 250_000_000);
    let t = Instant::from_nanos(-1_000_000_000).unwrap();
    assert_eq!(t.timestamp(), -1);
    assert_eq!(t.subsec_nanos(), 0);
    let t = Instant::from_nanos(-1_000_000_001).unwrap();
    assert_eq!(t.timestamp(), -2);
    assert_eq!(t.subsec_nanos(), 999_999_999);
}

#[test]
fn instant_from_nanos_checks_the_span() {
    let least = (MIN_TIMESTAMP as i128) * 1_000_000_000;
    let most = (MAX_TIMESTAMP as i128) * 1_000_000_000 + 999_999_999;
    assert!(Instant::from_nanos(least).is_some());
    assert!(Instant::from_nanos(least - 1).is_none());
    assert!(Instant::from_nanos(most).is_some());
    assert!(Instant::from_nanos(most + 1).is_none());
}

#[test]
fn instant_arithmetic() {
    let t = Instant::from_timestamp(100, 0).unwrap();
    let later = t.checked_add(Duration::seconds(5)).unwrap();
    assert_eq!(later, Instant::from_timestamp(105, 0).unwrap());
    assert_eq!(later.since(t), Duration::seconds(5));
    assert_eq!(t.since(later), Duration::seconds(-5));
    let last = Instant::from_timestamp(MAX_TIMESTAMP, 999_999_999).unwrap();
    assert!(last.checked_add(Duration::from_nanos(1)).is_none());
    assert!(last.checked_add(Duration::from_nanos(i128::MAX)).is_none());
    assert!(last.checked_add(Duration::from_nanos(-1)).is_some());
    let first = Instant::from_timestamp(MIN_TIMESTAMP, 0).unwrap();
    assert!(first.checked_add(Duration::from_nanos(-1)).is_none());
    assert!(first < last);
}

#[test]
fn instant_parse_reads_chrono_timestamps() {
    assert_eq!(
        Instant::parse("20220101T120000Z"),
        Instant::from_timestamp(1_641_038_400, 0)
    );
    assert_eq!(Instant::parse("19700101T000000Z"), Instant::from_timestamp(0, 0));
    assert_eq!(
        Instant::parse("19691231T235959Z"),
        Instant::from_timestamp(-1, 0)
    );
    assert_eq!(
        Instant::parse("00000101T000000Z"),
        Instant::from_timestamp(-62_167_219_200, 0)
    );
    assert_eq!(
        Instant::parse("99991231T235959Z"),
        Instant::from_timestamp(253_402_300_799, 0)
    );
    assert_eq!(
        Instant::parse("20240229T000000Z"),
        Instant::from_timestamp(1_709_164_800, 0)
    );
}

#[test]
fn instant_parse_refuses_what_is_no_moment() {
    for text in [
        "",
        "20220101T120000",
        "20220101T120000Z ",
        " 20220101T120000Z",
        "2022011T120000Z",
        "20220101 120000Z",
        "20220101T120000z",
        "20221301T120000Z",
        "20220001T120000Z",
        "20220100T120000Z",
        "20220132T120000Z",
        "20230229T120000Z",
        "20220101T240000Z",
        "20220101T126000Z",
        "20220101T120060Z",
        "20220101T120061Z",
        "+2022101T120000Z",
        "２０２２0101T120000Z",
        "１日１月２０２２年",
    ] {
        assert_eq!(Instant::parse(text), None, "{}", text);
    }
}

#[test]
fn duration_constructors_and_parts() {
    assert_eq!(Duration::seconds(2).nanos(), 2_000_000_000);
    assert_eq!(Duration::minutes(45), Duration::seconds(2_700));
    assert_eq!(Duration::zero().nanos(), 0);
    assert_eq!(Duration::from_nanos(1_999_999_999).num_seconds(), 1);
    assert_eq!(Duration::from_nanos(-1_999_999_999).num_seconds(), -1);
    assert_eq!(Duration::from_nanos(-1).num_seconds(), 0);
    assert_eq!(Duration::seconds(i64::MIN).nanos(), (i64::MIN as i128) * 1_000_000_000);
}

#[test]
fn duration_checked_add_detects_overflow() {
    let one = Duration::from_nanos(1);
    assert_eq!(Duration::seconds(1).checked_add(one), Some(Duration::from_nanos(1_000_000_001)));
    assert_eq!(Duration::from_nanos(i128::MAX).checked_add(one), None);
    assert_eq!(Duration::from_nanos(i128::MIN).checked_add(Duration::from_nanos(-1)), None);
    assert_eq!(
        Duration::from_nanos(i128::MAX).checked_add(Duration::from_nanos(i128::MIN)),
        Some(Duration::from_nanos(-1))
    );
}

#[test]
fn clock_reads_a_moment_of_this_century() {
    let now = timewarrior_rs::clock::now();
    assert!(now.timestamp() > 1_700_000_000);
    assert!(now.timestamp() < 4_102_444_800);
    let again = timewarrior_rs::clock::now();
    assert!(again >= now);
}
