use heapcell::config::{new_version, Settings, SIZE, VERSION};
use heapcell::fallible::{f2, LookupError};
use heapcell::parse::{f1, parse_i32, MyError};

#[test]
fn test_f1() {
    let res = f1("12");
    assert_eq!(res, Ok(12));
    println!("{:?}", res);

    let res = f1("123");
    assert_eq!(res.is_err(), true);
    println!("{:?}", res.err().unwrap());

    let res = f1("ab");
    assert_eq!(res.is_err(), true);
    println!("{:?}", res);
}

#[test]
fn test1() {
    assert_eq!(SIZE, 10);
    assert_eq!(VERSION, "0.1.0");
}

#[test]
fn test2() {
    let mut settings = Settings::new();
    assert_eq!(settings.new_size(), 20);
    settings.set_new_size(30);
    assert_eq!(settings.new_size(), 30);
}

#[test]
fn test3() {
    assert_eq!(new_version().as_str(), "0.1.0");
}

#[test]
fn length_error_carries_string_and_length() {
    assert_eq!(
        f1("123"),
        Err(MyError::LengthError(String::from("123"), 3))
    );
    assert_eq!(
        f1("abcd"),
        Err(MyError::LengthError(String::from("abcd"), 4))
    );
}

#[test]
fn parse_error_on_short_garbage() {
    assert_eq!(f1("ab"), Err(MyError::ParseError));
    assert_eq!(f1(""), Err(MyError::ParseError));
    assert_eq!(f1("-"), Err(MyError::ParseError));
    assert_eq!(f1("+"), Err(MyError::ParseError));
    assert_eq!(f1("1a"), Err(MyError::ParseError));
}

#[test]
fn short_numbers_parse() {
    assert_eq!(f1("0"), Ok(0));
    assert_eq!(f1("99"), Ok(99));
    assert_eq!(f1("-5"), Ok(-5));
    assert_eq!(f1("+7"), Ok(7));
}

#[test]
fn parse_i32_full_range() {
    assert_eq!(parse_i32("2147483647"), Some(i32::MAX));
    assert_eq!(parse_i32("-2147483648"), Some(i32::MIN));
    assert_eq!(parse_i32("2147483648"), None);
    assert_eq!(parse_i32("-2147483649"), None);
    assert_eq!(parse_i32("007"), Some(7));
    assert_eq!(parse_i32("12x"), None);
}

#[test]
fn lookups_past_the_table_fail() {
    assert_eq!(heapcell::fallible::f1(), Err(LookupError::OutOfRange));
    assert!(f2().is_err());
}
