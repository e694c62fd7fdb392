use goto_interpreter::read_input;

fn input(text: &str) -> Result<Vec<u64>, String> {
    read_input(text.to_string())
}

#[test]
fn registers_are_read_in_order() {
    assert_eq!(input("1 2 3"), Ok(vec![1, 2, 3]));
    assert_eq!(input("0"), Ok(vec![0]));
    assert_eq!(input("10 0 7\n"), Ok(vec![10, 0, 7]));
}

#[test]
fn spaces_and_line_feeds_separate() {
    assert_eq!(input("1\n2\n3\n"), Ok(vec![1, 2, 3]));
    assert_eq!(input("  1   2\n\n 3 \n  "), Ok(vec![1, 2, 3]));
    assert_eq!(input("\n\n5"), Ok(vec![5]));
}

#[test]
fn no_fields_are_no_registers() {
    assert_eq!(input(""), Ok(vec![]));
    assert_eq!(input("  \n \n"), Ok(vec![]));
}

#[test]
fn the_largest_register_value_is_read() {
    assert_eq!(input("18446744073709551615 +1"), Ok(vec![u64::MAX, 1]));
}

#[test]
fn a_field_that_is_no_number_is_reported() {
    assert_eq!(input("1 two 3"), Err("Number parsing error: invalid digit found in string".to_string()));
    assert_eq!(input("-1"), Err("Number parsing error: invalid digit found in string".to_string()));
    assert_eq!(input("1\t2"), Err("Number parsing error: invalid digit found in string".to_string()));
    assert_eq!(input("1\r\n2"), Err("Number parsing error: invalid digit found in string".to_string()));
}

#[test]
fn a_number_that_is_too_large_is_reported() {
    assert_eq!(
        input("1 18446744073709551616"),
        Err("Number parsing error: number too large to fit in target type".to_string())
    );
}

#[test]
fn the_first_faulty_field_decides() {
    assert_eq!(
        input("99999999999999999999999 x"),
        Err("Number parsing error: number too large to fit in target type".to_string())
    );
    assert_eq!(
        input("x 99999999999999999999999"),
        Err("Number parsing error: invalid digit found in string".to_string())
    );
}

fn like_the_standard_library(text: &str) -> Result<Vec<u64>, String> {
    let mut result = vec![];
    for token in text.split(|c| c == ' ' || c == '\n').filter(|t| t.len() > 0) {
        let nr = token.parse::<u64>().map_err(|e| format!("Number parsing error: {}", e))?;
        result.push(nr);
    }
    Ok(result)
}

#[test]
fn fields_are_those_of_the_standard_library() {
    let texts = [
        "",
        " ",
        "\n",
        "1",
        " 1",
        "1 ",
        "1\n",
        "\n1",
        "1 2",
        "1\n2",
        "1 \n 2",
        "1  2   3\n\n\n4",
        "1\r\n2",
        "1\t2",
        "+1 +2",
        "1 + 2",
        "007 0",
        "18446744073709551615",
        "18446744073709551616",
        "1 2 three 4",
        "1 2 99999999999999999999 x",
        "一 2",
        "1\u{a0}2",
    ];
    for text in texts {
        assert_eq!(input(text), like_the_standard_library(text), "{:?}", text);
    }
}
