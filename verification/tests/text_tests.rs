use timewarrior_rs::text::chars_of;
use timewarrior_rs::text::digit_text;
use timewarrior_rs::text::push_decimal;
use timewarrior_rs::text::push_two_digits;
use timewarrior_rs::time::digit;
use timewarrior_rs::time::shaped_like_literal;

fn decimal(n: u128) -> String {
    let mut out = String::from("n=");
    push_decimal(&mut out, n);
    out
}

fn two(n: i128) -> String {
    let mut out = String::new();
    push_two_digits(&mut out, n);
    out
}

#[test]
fn chars_of_a_text() {
    assert_eq!(chars_of("aé１"), vec!['a', 'é', '１']);
    assert_eq!(chars_of(""), Vec::<char>::new());
}

#[test]
fn decimal_numbers() {
    assert_eq!(decimal(0), "n=0");
    assert_eq!(decimal(7), "n=7");
    assert_eq!(decimal(10), "n=10");
    assert_eq!(decimal(1_234_567_890), "n=1234567890");
    assert_eq!(decimal(u128::MAX), format!("n={}", u128::MAX));
    assert_eq!(digit_text(0), "0");
    assert_eq!(digit_text(9), "9");
}

#[test]
fn two_digit_numbers() {
    assert_eq!(two(0), "00");
    assert_eq!(two(9), "09");
    assert_eq!(two(10), "10");
    assert_eq!(two(123), "123");
    assert_eq!(two(-1), "-1");
    assert_eq!(two(-12), "-12");
    for n in [-100i128, -10, -9, -1, 0, 1, 9, 10, 99, 100] {
        assert_eq!(two(n), format!("{:02}", n));
    }
}

#[test]
fn digits_and_literal_shape() {
    assert!(digit('0') && digit('9'));
    assert!(!digit('a') && !digit('/') && !digit(':') && !digit('１'));
    assert!(shaped_like_literal(&chars_of("20220101T120000Z")));
    assert!(shaped_like_literal(&chars_of("99999999T999999Z")));
    assert!(!shaped_like_literal(&chars_of("20220101T120000")));
    assert!(!shaped_like_literal(&chars_of("20220101X120000Z")));
    assert!(!shaped_like_literal(&chars_of("20220101T120000ZZ")));
    assert!(!shaped_like_literal(&chars_of("2022010aT120000Z")));
}
