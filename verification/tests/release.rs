use llama_server::decimal::{self, NumberError};
use llama_server::release::{latest_release_url, Build, ParseError, REPOSITORY};
use llama_server::Error;
use std::str::FromStr;

#[test]
fn locked_keeps_the_number() {
    assert_eq!(Build::locked(6730).number(), 6730);
    assert_eq!(Build::locked(0).number(), 0);
    assert_eq!(Build::locked(u32::MAX).number(), u32::MAX);
}

#[test]
fn text_is_the_letter_and_the_number() {
    assert_eq!(Build::locked(6730).to_string(), "b6730");
    assert_eq!(Build::locked(0).to_string(), "b0");
    assert_eq!(Build::locked(7).to_string(), "b7");
    assert_eq!(Build::locked(10).to_string(), "b10");
    assert_eq!(Build::locked(1000).to_string(), "b1000");
    assert_eq!(Build::locked(u32::MAX).to_string(), "b4294967295");
}

#[test]
fn text_round_trip() {
    let mut numbers = vec![0, 1, 9, 10, 11, 99, 100, 6730, 65535, 65536, u32::MAX - 1, u32::MAX];
    let mut n: u32 = 1;
    for _ in 0..2000 {
        n = n.wrapping_mul(1664525).wrapping_add(1013904223);
        numbers.push(n);
    }
    for number in numbers {
        let build = Build::locked(number);
        assert_eq!(Build::from_str(&build.to_string()), Ok(build));
        assert_eq!(build.to_string().parse::<Build>(), Ok(build));
    }
}

#[test]
fn text_without_the_letter_names_no_release() {
    assert_eq!(Build::from_str(""), Err(ParseError::MissingPrefix));
    assert_eq!(Build::from_str("6730"), Err(ParseError::MissingPrefix));
    assert_eq!(Build::from_str("B6730"), Err(ParseError::MissingPrefix));
    assert_eq!(Build::from_str(" b6730"), Err(ParseError::MissingPrefix));
    assert_eq!(Build::from_str("v1.2"), Err(ParseError::MissingPrefix));
    assert_eq!(Build::from_str("é1"), Err(ParseError::MissingPrefix));
}

#[test]
fn text_without_a_number_names_no_release() {
    assert_eq!(Build::from_str("b"), Err(ParseError::Number(NumberError::Empty)));
    assert_eq!(Build::from_str("b+"), Err(ParseError::Number(NumberError::InvalidDigit)));
    assert_eq!(Build::from_str("b-1"), Err(ParseError::Number(NumberError::InvalidDigit)));
    assert_eq!(Build::from_str("b12x"), Err(ParseError::Number(NumberError::InvalidDigit)));
    assert_eq!(Build::from_str("b1 "), Err(ParseError::Number(NumberError::InvalidDigit)));
    assert_eq!(Build::from_str("b1_000"), Err(ParseError::Number(NumberError::InvalidDigit)));
    assert_eq!(Build::from_str("b１２"), Err(ParseError::Number(NumberError::InvalidDigit)));
    assert_eq!(Build::from_str("b1+"), Err(ParseError::Number(NumberError::InvalidDigit)));
    assert_eq!(Build::from_str("b++1"), Err(ParseError::Number(NumberError::InvalidDigit)));
}

#[test]
fn the_letter_is_taken_once() {
    assert_eq!(Build::from_str("bb12"), Err(ParseError::Number(NumberError::InvalidDigit)));
    assert_eq!(Build::from_str("bbb"), Err(ParseError::Number(NumberError::InvalidDigit)));
}

#[test]
fn number_that_does_not_fit() {
    assert_eq!(Build::from_str("b4294967295"), Ok(Build::locked(u32::MAX)));
    assert_eq!(Build::from_str("b4294967296"), Err(ParseError::Number(NumberError::Overflow)));
    assert_eq!(
        Build::from_str("b99999999999999999999999"),
        Err(ParseError::Number(NumberError::Overflow))
    );
    assert_eq!(
        Build::from_str("b99999999999999999999999x"),
        Err(ParseError::Number(NumberError::InvalidDigit))
    );
}

#[test]
fn sign_and_leading_zeros_are_taken() {
    assert_eq!(Build::from_str("b+5"), Ok(Build::locked(5)));
    assert_eq!(Build::from_str("b007"), Ok(Build::locked(7)));
    assert_eq!(Build::from_str("b+0"), Ok(Build::locked(0)));
    assert_eq!(Build::from_str("b000000000000000000001"), Ok(Build::locked(1)));
}

#[test]
fn numbers_are_read_as_the_standard_library_reads_them() {
    let texts = [
        "", "0", "1", "+", "-", "+1", "-1", "+0", "00", "0123", "12a", "a12", " 1", "1 ", "1.0",
        "4294967295", "4294967296", "+4294967295", "42949672950", "99999999999999999999",
        "٣", "1e3", "0x10", "١٢",
    ];
    for text in texts {
        let ours = decimal::parse(text);
        let theirs = text.parse::<u32>();
        assert_eq!(ours.ok(), theirs.ok(), "{text:?}");
    }
    for number in [0u32, 5, 10, 12345, u32::MAX] {
        assert_eq!(decimal::render(number), number.to_string());
        assert_eq!(decimal::parse(&number.to_string()), Ok(number));
    }
    assert_eq!(decimal::parse(""), Err(NumberError::Empty));
    assert_eq!(decimal::parse("x"), Err(NumberError::InvalidDigit));
    assert_eq!(decimal::parse("4294967296"), Err(NumberError::Overflow));
}

#[test]
fn releases_are_ordered_by_number() {
    assert!(Build::locked(9) < Build::locked(10));
    assert!(Build::locked(6730) > Build::locked(673));
    assert_eq!(Build::locked(4), Build::locked(4));
    let mut builds = vec![Build::locked(30), Build::locked(4), Build::locked(100)];
    builds.sort();
    assert_eq!(builds, vec![Build::locked(4), Build::locked(30), Build::locked(100)]);
}

#[test]
fn addresses_of_a_release() {
    assert_eq!(REPOSITORY, "hecrj/llama-server");
    assert_eq!(
        Build::locked(6730).url(),
        "https://github.com/hecrj/llama-server/releases/download/b6730"
    );
    assert_eq!(
        latest_release_url(),
        "https://api.github.com/repos/hecrj/llama-server/releases/latest"
    );
}

#[test]
fn latest_release_is_read_from_its_tag() {
    assert_eq!(Build::latest("b6730"), Ok(Build::locked(6730)));
    assert_eq!(Build::latest("v6730"), Err(Error::IOFailed));
    assert_eq!(Build::latest("b"), Err(Error::IOFailed));
    assert_eq!(Build::latest("b67.30"), Err(Error::IOFailed));
    assert_eq!(Build::latest("b4294967296"), Err(Error::IOFailed));
}
