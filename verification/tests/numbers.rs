use goto_interpreter::number::{append_decimal, not_a_number, read_number, NumberError};
use goto_interpreter::parse_nr;
use goto_interpreter::text::chars_of;

#[test]
fn numerals_are_read() {
    assert_eq!(parse_nr("0"), Ok(0));
    assert_eq!(parse_nr("42"), Ok(42));
    assert_eq!(parse_nr("13"), Ok(13));
    assert_eq!(parse_nr("+7"), Ok(7));
    assert_eq!(parse_nr("000123"), Ok(123));
    assert_eq!(parse_nr("1234567890"), Ok(1234567890));
}

#[test]
fn the_largest_numeral_is_read() {
    assert_eq!(parse_nr(&usize::MAX.to_string()), Ok(usize::MAX));
    assert_eq!(parse_nr(&format!("+000{}", usize::MAX)), Ok(usize::MAX));
}

#[test]
fn what_is_no_numeral_is_reported() {
    assert_eq!(
        parse_nr(""),
        Err(" is not a number (reason: ParseIntError { kind: Empty })".to_string())
    );
    assert_eq!(
        parse_nr("abc"),
        Err("abc is not a number (reason: ParseIntError { kind: InvalidDigit })".to_string())
    );
    assert_eq!(
        parse_nr("-"),
        Err("- is not a number (reason: ParseIntError { kind: InvalidDigit })".to_string())
    );
    assert_eq!(
        parse_nr("12 "),
        Err("12  is not a number (reason: ParseIntError { kind: InvalidDigit })".to_string())
    );
    assert_eq!(
        parse_nr("99999999999999999999999999"),
        Err("99999999999999999999999999 is not a number (reason: ParseIntError { kind: PosOverflow })"
            .to_string())
    );
}

#[test]
fn one_more_than_the_largest_is_too_large() {
    let text = (usize::MAX as u128 + 1).to_string();
    assert_eq!(
        parse_nr(&text),
        Err(format!("{} is not a number (reason: ParseIntError {{ kind: PosOverflow }})", text))
    );
}

#[test]
fn the_first_fault_from_the_left_decides() {
    assert_eq!(read_number(&chars_of("99999999999999999999999x"), u64::MAX), Err(NumberError::PosOverflow));
    assert_eq!(read_number(&chars_of("9x9999999999999999999999"), u64::MAX), Err(NumberError::InvalidDigit));
    assert_eq!(read_number(&chars_of("18446744073709551615x"), u64::MAX), Err(NumberError::InvalidDigit));
    assert_eq!(read_number(&chars_of("18446744073709551616"), u64::MAX), Err(NumberError::PosOverflow));
    assert_eq!(read_number(&chars_of("18446744073709551615"), u64::MAX), Ok(u64::MAX));
}

#[test]
fn the_limit_is_respected() {
    assert_eq!(read_number(&chars_of("255"), 255), Ok(255));
    assert_eq!(read_number(&chars_of("256"), 255), Err(NumberError::PosOverflow));
    assert_eq!(read_number(&chars_of("0"), 0), Ok(0));
    assert_eq!(read_number(&chars_of("0000"), 0), Ok(0));
    assert_eq!(read_number(&chars_of("1"), 0), Err(NumberError::PosOverflow));
    assert_eq!(read_number(&chars_of("9"), 5), Err(NumberError::PosOverflow));
    assert_eq!(read_number(&chars_of(""), 5), Err(NumberError::Empty));
    assert_eq!(read_number(&chars_of("+"), 5), Err(NumberError::InvalidDigit));
    assert_eq!(read_number(&chars_of("+5"), 5), Ok(5));
}

#[test]
fn faults_have_two_wordings() {
    assert_eq!(NumberError::Empty.debug_str(), "ParseIntError { kind: Empty }");
    assert_eq!(NumberError::InvalidDigit.debug_str(), "ParseIntError { kind: InvalidDigit }");
    assert_eq!(NumberError::PosOverflow.debug_str(), "ParseIntError { kind: PosOverflow }");
    assert_eq!(NumberError::Empty.display_str(), "cannot parse integer from empty string");
    assert_eq!(NumberError::InvalidDigit.display_str(), "invalid digit found in string");
    assert_eq!(NumberError::PosOverflow.display_str(), "number too large to fit in target type");
}

#[test]
fn the_message_names_text_and_fault() {
    assert_eq!(
        not_a_number("seven", NumberError::InvalidDigit),
        "seven is not a number (reason: ParseIntError { kind: InvalidDigit })"
    );
}

#[test]
fn faults_are_worded_as_the_standard_library_words_them() {
    let empty = "".parse::<u64>().unwrap_err();
    let digit = "x".parse::<u64>().unwrap_err();
    let large = "99999999999999999999999".parse::<u64>().unwrap_err();
    assert_eq!(NumberError::Empty.debug_str(), format!("{:?}", empty));
    assert_eq!(NumberError::InvalidDigit.debug_str(), format!("{:?}", digit));
    assert_eq!(NumberError::PosOverflow.debug_str(), format!("{:?}", large));
    assert_eq!(NumberError::Empty.display_str(), format!("{}", empty));
    assert_eq!(NumberError::InvalidDigit.display_str(), format!("{}", digit));
    assert_eq!(NumberError::PosOverflow.display_str(), format!("{}", large));
}

#[test]
fn numerals_are_read_as_the_standard_library_reads_them() {
    let texts = [
        "", "0", "1", "9", "10", "+", "-", "+0", "-0", "+1", "-1", "++1", "+-1", "1+", "00", "0001",
        " 1", "1 ", "1 2", "1_000", "0x10", "1e3", "1.0", "١٢٣", "１２３", "٣", "a", "12a", "a12",
        "4294967295", "4294967296", "18446744073709551615", "18446744073709551616",
        "+18446744073709551615", "+18446744073709551616", "018446744073709551615",
        "184467440737095516150", "99999999999999999999", "99999999999999999999x",
        "9999999999999999999x9", "x99999999999999999999", "340282366920938463463374607431768211455",
        "\0", "1\0", "\n", "1\n", "5\r",
    ];
    for text in texts {
        let expected = text
            .parse::<usize>()
            .map_err(|e| format!("{} is not a number (reason: {:?})", text, e));
        assert_eq!(parse_nr(text), expected, "{:?}", text);
    }
}

#[test]
fn numbers_are_written_in_decimal() {
    for (n, text) in [(0, "0"), (7, "7"), (9, "9"), (10, "10"), (11, "11"), (99, "99"), (100, "100"), (1234, "1234"), (90210, "90210")] {
        let mut out = String::new();
        append_decimal(&mut out, n);
        assert_eq!(out, text);
    }
    let mut out = String::from("line ");
    append_decimal(&mut out, 1050);
    assert_eq!(out, "line 1050");
    let mut out = String::new();
    append_decimal(&mut out, usize::MAX);
    assert_eq!(out, usize::MAX.to_string());
}

#[test]
fn what_is_written_is_read_back() {
    for n in [0usize, 1, 9, 10, 19, 20, 101, 65535, 65536, 4294967295, usize::MAX - 1, usize::MAX] {
        let mut out = String::new();
        append_decimal(&mut out, n);
        assert_eq!(parse_nr(&out), Ok(n));
    }
}
