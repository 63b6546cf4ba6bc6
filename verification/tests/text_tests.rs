use my_little_db::text::{i64_text, read_integer, u64_text, IntErrorKind};
use std::num::IntErrorKind as StdKind;

#[test]
fn decimal_text_of_numbers() {
    assert_eq!(u64_text(0), "0");
    assert_eq!(u64_text(7), "7");
    assert_eq!(u64_text(10), "10");
    assert_eq!(u64_text(1234567890), "1234567890");
    assert_eq!(u64_text(u64::MAX), u64::MAX.to_string());
    assert_eq!(i64_text(-5), "-5");
    assert_eq!(i64_text(0), "0");
    assert_eq!(i64_text(i64::MIN), i64::MIN.to_string());
}

fn kind_of(k: &StdKind) -> IntErrorKind {
    match k {
        StdKind::Empty => IntErrorKind::Empty,
        StdKind::InvalidDigit => IntErrorKind::InvalidDigit,
        StdKind::PosOverflow => IntErrorKind::PosOverflow,
        StdKind::NegOverflow => IntErrorKind::NegOverflow,
        _ => panic!("unexpected kind"),
    }
}

const SAMPLES: [&str; 24] = [
    "", "+", "-", "0", "-0", "+0", "12", "-12", "+12", "007", "1a", "a1", " 1", "1 ",
    "32767", "32768", "-32768", "-32769", "99999x", "-99999x", "--1", "+-1", "١", "2147483648",
];

#[test]
fn reading_integers_agrees_with_std() {
    for s in SAMPLES.iter() {
        let ours = read_integer(s, i16::MIN as i64, i16::MAX as i64);
        match s.parse::<i16>() {
            Ok(v) => assert_eq!(ours, Ok(v as i64), "{:?}", s),
            Err(e) => assert_eq!(ours, Err(kind_of(e.kind())), "{:?}", s),
        }
        let ours = read_integer(s, i32::MIN as i64, i32::MAX as i64);
        match s.parse::<i32>() {
            Ok(v) => assert_eq!(ours, Ok(v as i64), "{:?}", s),
            Err(e) => assert_eq!(ours, Err(kind_of(e.kind())), "{:?}", s),
        }
        let ours = read_integer(s, i64::MIN, i64::MAX);
        match s.parse::<i64>() {
            Ok(v) => assert_eq!(ours, Ok(v), "{:?}", s),
            Err(e) => assert_eq!(ours, Err(kind_of(e.kind())), "{:?}", s),
        }
    }
}

#[test]
fn reading_extreme_longs() {
    assert_eq!(read_integer("9223372036854775807", i64::MIN, i64::MAX), Ok(i64::MAX));
    assert_eq!(read_integer("-9223372036854775808", i64::MIN, i64::MAX), Ok(i64::MIN));
    assert_eq!(
        read_integer("9223372036854775808", i64::MIN, i64::MAX),
        Err(IntErrorKind::PosOverflow)
    );
    assert_eq!(
        read_integer("-9223372036854775809", i64::MIN, i64::MAX),
        Err(IntErrorKind::NegOverflow)
    );
}

#[test]
fn text_of_a_number_reads_back() {
    for x in [0i64, 1, -1, 9, 10, -10, 12345, i64::MAX, i64::MIN, -32768, 32767] {
        assert_eq!(read_integer(&i64_text(x), i64::MIN, i64::MAX), Ok(x));
    }
    assert_eq!(read_integer(&i64_text(-32768), -32768, 32767), Ok(-32768));
    assert_eq!(read_integer(&u64_text(32767), -32768, 32767), Ok(32767));
}
