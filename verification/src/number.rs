//! Decimal numerals: reading them from text and writing them.
//!
//! A numeral is an optional `+` followed by one or more of the digits `0` to
//! `9`. Reading goes through the characters from left to right and stops at
//! the first that is no digit, or that takes the value over the largest
//! number allowed. Both the faults and the two ways of putting them into
//! words are those of `std::num::ParseIntError`, so a message reads as it
//! would with the standard parser.

use vstd::prelude::*;
use vstd::string::StringExecFns;
use crate::instruction::RegisterIndex;
use crate::text::chars_of;

verus! {

/// Why a text is not a number.
#[derive(Debug, Clone, Copy, PartialEq, Eq, Structural)]
pub enum NumberError {
    /// The text has no characters.
    Empty,
    /// The text holds a character that is no digit, or is a lone sign.
    InvalidDigit,
    /// The number is larger than the largest allowed.
    PosOverflow,
}

impl NumberError {
    /// The fault in debug form.
    pub open spec fn debug_text(self) -> Seq<char> {
        match self {
            NumberError::Empty => "ParseIntError { kind: Empty }"@,
            NumberError::InvalidDigit => "ParseIntError { kind: InvalidDigit }"@,
            NumberError::PosOverflow => "ParseIntError { kind: PosOverflow }"@,
        }
    }

    /// The fault as a sentence.
    pub open spec fn display_text(self) -> Seq<char> {
        match self {
            NumberError::Empty => "cannot parse integer from empty string"@,
            NumberError::InvalidDigit => "invalid digit found in string"@,
            NumberError::PosOverflow => "number too large to fit in target type"@,
        }
    }

    /// The fault in debug form.
    pub fn debug_str(self) -> (s: &'static str)
        ensures
            s@ == self.debug_text(),
    {
        match self {
            NumberError::Empty => "ParseIntError { kind: Empty }",
            NumberError::InvalidDigit => "ParseIntError { kind: InvalidDigit }",
            NumberError::PosOverflow => "ParseIntError { kind: PosOverflow }",
        }
    }

    /// The fault as a sentence.
    pub fn display_str(self) -> (s: &'static str)
        ensures
            s@ == self.display_text(),
    {
        match self {
            NumberError::Empty => "cannot parse integer from empty string",
            NumberError::InvalidDigit => "invalid digit found in string",
            NumberError::PosOverflow => "number too large to fit in target type",
        }
    }
}

/// `c` is one of the digits `0` to `9`.
pub open spec fn is_digit(c: char) -> bool {
    '0' <= c <= '9'
}

/// The number that the digit `c` stands for.
pub open spec fn digit_value(c: char) -> nat {
    (c as int - '0' as int) as nat
}

/// The number that a run of digits stands for.
pub open spec fn digits_value(digits: Seq<char>) -> nat
    decreases digits.len(),
{
    if digits.len() == 0 {
        0
    } else {
        digits_value(digits.drop_last()) * 10 + digit_value(digits.last())
    }
}

/// Reads a run of digits from left to right. The first character that is no
/// digit is an `InvalidDigit`; the first digit that takes the value over `max`
/// is a `PosOverflow`.
pub open spec fn scan_digits(digits: Seq<char>, max: nat) -> Result<nat, NumberError>
    decreases digits.len(),
{
    if digits.len() == 0 {
        Ok(0)
    } else {
        match scan_digits(digits.drop_last(), max) {
            Err(e) => Err(e),
            Ok(value) => if !is_digit(digits.last()) {
                Err(NumberError::InvalidDigit)
            } else if value * 10 + digit_value(digits.last()) > max {
                Err(NumberError::PosOverflow)
            } else {
                Ok(value * 10 + digit_value(digits.last()))
            },
        }
    }
}

/// `text` without the `+` that it may begin with.
pub open spec fn unsigned_part(text: Seq<char>) -> Seq<char> {
    if text.len() > 0 && text[0] == '+' {
        text.skip(1)
    } else {
        text
    }
}

/// The number that `text` stands for, if it is a numeral of at most `max`.
pub open spec fn parse_number(text: Seq<char>, max: nat) -> Result<nat, NumberError> {
    if text.len() == 0 {
        Err(NumberError::Empty)
    } else if unsigned_part(text).len() == 0 {
        Err(NumberError::InvalidDigit)
    } else {
        scan_digits(unsigned_part(text), max)
    }
}

/// `text` is an optional `+` followed by one or more digits.
pub open spec fn is_numeral(text: Seq<char>) -> bool {
    let digits = unsigned_part(text);
    digits.len() > 0 && forall|i: int| 0 <= i < digits.len() ==> is_digit(#[trigger] digits[i])
}

/// The message for a text that is no register index.
pub open spec fn not_a_number_message(text: Seq<char>, reason: NumberError) -> Seq<char> {
    text + " is not a number (reason: "@ + reason.debug_text() + ")"@
}

/// The register index or instruction address that `text` stands for, or the
/// message that says why it stands for none.
pub open spec fn parse_index(text: Seq<char>) -> Result<RegisterIndex, Seq<char>> {
    match parse_number(text, usize::MAX as nat) {
        Ok(value) => Ok(value as usize),
        Err(reason) => Err(not_a_number_message(text, reason)),
    }
}

/// The digit that stands for `d`, which is less than ten.
pub open spec fn digit_char(d: nat) -> char {
    ('0' as nat + d) as char
}

/// The numeral that stands for `n`, without sign or leading zeros.
pub open spec fn decimal(n: nat) -> Seq<char>
    decreases n,
{
    if n < 10 {
        seq![digit_char(n)]
    } else {
        decimal(n / 10).push(digit_char(n % 10))
    }
}

/// Once reading has failed on the first `k` characters, it fails in the same
/// way on the whole run.
proof fn lemma_scan_error_persists(digits: Seq<char>, k: int, max: nat)
    requires
        0 <= k <= digits.len(),
        scan_digits(digits.take(k), max) is Err,
    ensures
        scan_digits(digits, max) == scan_digits(digits.take(k), max),
    decreases digits.len(),
{
    if k == digits.len() {
        assert(digits.take(k) =~= digits);
    } else {
        assert(digits.drop_last().take(k) =~= digits.take(k));
        lemma_scan_error_persists(digits.drop_last(), k, max);
    }
}

/// Reading succeeds exactly on runs of digits whose value is at most `max`,
/// and gives that value.
proof fn lemma_scan_digits(digits: Seq<char>, max: nat)
    ensures
        scan_digits(digits, max) is Ok <==> (forall|i: int|
            0 <= i < digits.len() ==> is_digit(#[trigger] digits[i])) && digits_value(digits)
            <= max,
        scan_digits(digits, max) matches Ok(value) ==> value == digits_value(digits),
    decreases digits.len(),
{
    if digits.len() > 0 {
        let front = digits.drop_last();
        lemma_scan_digits(front, max);
        if forall|i: int| 0 <= i < digits.len() ==> is_digit(#[trigger] digits[i]) {
            assert forall|i: int| 0 <= i < front.len() implies is_digit(#[trigger] front[i]) by {}
        }
        if scan_digits(digits, max) is Ok {
            assert forall|i: int| 0 <= i < digits.len() implies is_digit(
                #[trigger] digits[i],
            ) by {
                if i < front.len() {
                    assert(front[i] == digits[i]);
                }
            }
        }
    }
}

/// A text is read as a number exactly if it is a numeral whose value is at
/// most `max`, and the number read is that value.
pub proof fn lemma_parse_number(text: Seq<char>, max: nat)
    ensures
        parse_number(text, max) is Ok <==> is_numeral(text) && digits_value(unsigned_part(text))
            <= max,
        parse_number(text, max) matches Ok(value) ==> value == digits_value(unsigned_part(text)),
{
    lemma_scan_digits(unsigned_part(text), max);
}

/// Reads the number that `text` stands for, which may be at most `max`.
pub fn read_number(text: &[char], max: u64) -> (r: Result<u64, NumberError>)
    ensures
        r matches Ok(n) ==> parse_number(text@, max as nat) == Ok::<nat, NumberError>(n as nat),
        r matches Err(e) ==> parse_number(text@, max as nat) == Err::<nat, NumberError>(e),
{
    let n = text.len();
    if n == 0 {
        return Err(NumberError::Empty);
    }
    let first: usize = if text[0] == '+' { 1 } else { 0 };
    if first == n {
        return Err(NumberError::InvalidDigit);
    }
    let ghost digits = unsigned_part(text@);
    let mut value: u64 = 0;
    let mut i: usize = first;
    while i < n
        invariant
            first <= i <= n == text@.len(),
            first <= 1,
            digits == unsigned_part(text@),
            digits.len() == n - first,
            value <= max,
            scan_digits(digits.take(i - first), max as nat) == Ok::<nat, NumberError>(value as nat),
        decreases n - i,
    {
        let c = text[i];
        proof {
            assert(digits.take(i - first + 1).drop_last() =~= digits.take(i - first));
        }
        if !(c >= '0' && c <= '9') {
            proof {
                lemma_scan_error_persists(digits, i - first + 1, max as nat);
            }
            return Err(NumberError::InvalidDigit);
        }
        let digit: u64 = c as u64 - '0' as u64;
        let next: u128 = value as u128 * 10 + digit as u128;
        if next > max as u128 {
            proof {
                lemma_scan_error_persists(digits, i - first + 1, max as nat);
            }
            return Err(NumberError::PosOverflow);
        }
        value = next as u64;
        i += 1;
    }
    proof {
        assert(digits.take(i - first) =~= digits);
    }
    Ok(value)
}

/// Reads a register index or an instruction address.
///
/// The text is read as a numeral of at most `usize::MAX`. What is no such
/// numeral gives the message `<text> is not a number (reason: <fault>)`.
pub fn parse_nr(text: &str) -> (r: Result<RegisterIndex, String>)
    ensures
        r matches Ok(n) ==> parse_index(text@) == Ok::<RegisterIndex, Seq<char>>(n),
        r matches Err(message) ==> parse_index(text@) == Err::<RegisterIndex, Seq<char>>(
            message@,
        ),
{
    let chars = chars_of(text);
    match read_number(chars.as_slice(), usize::MAX as u64) {
        Ok(n) => Ok(n as usize),
        Err(reason) => Err(not_a_number(text, reason)),
    }
}

/// Words the message for a text that is no register index.
pub fn not_a_number(text: &str, reason: NumberError) -> (message: String)
    ensures
        message@ == not_a_number_message(text@, reason),
{
    let mut message = String::from_str(text);
    message.append(" is not a number (reason: ");
    message.append(reason.debug_str());
    message.append(")");
    message
}

/// The numeral of a number is read back as that number.
pub proof fn lemma_decimal_reads_back(n: nat, max: nat)
    requires
        n <= max,
    ensures
        decimal(n).len() > 0,
        is_digit(decimal(n)[0]),
        scan_digits(decimal(n), max) == Ok::<nat, NumberError>(n),
        parse_number(decimal(n), max) == Ok::<nat, NumberError>(n),
    decreases n,
{
    if n >= 10 {
        lemma_decimal_reads_back(n / 10, max);
        assert(decimal(n).drop_last() =~= decimal(n / 10));
    }
    assert(scan_digits(decimal(n).drop_last(), max) == Ok::<nat, NumberError>(n / 10));
}

/// The digit that stands for `d`, as a string.
fn digit_str(d: usize) -> (s: &'static str)
    requires
        d < 10,
    ensures
        s@ == seq![digit_char(d as nat)],
{
    proof {
        reveal_strlit("0");
        reveal_strlit("1");
        reveal_strlit("2");
        reveal_strlit("3");
        reveal_strlit("4");
        reveal_strlit("5");
        reveal_strlit("6");
        reveal_strlit("7");
        reveal_strlit("8");
        reveal_strlit("9");
    }
    match d {
        0 => "0",
        1 => "1",
        2 => "2",
        3 => "3",
        4 => "4",
        5 => "5",
        6 => "6",
        7 => "7",
        8 => "8",
        _ => "9",
    }
}

/// Writes the numeral of `n` at the end of `out`.
pub fn append_decimal(out: &mut String, n: usize)
    ensures
        final(out)@ == old(out)@ + decimal(n as nat),
    decreases n,
{
    if n >= 10 {
        append_decimal(out, n / 10);
    }
    out.append(digit_str(n % 10));
}

} // verus!
