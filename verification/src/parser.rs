//! The parser: from source text to instructions.
//!
//! Each line holds one instruction: its name, then its operands, with any
//! number of spaces before, between and after them.
//!
//! ```text
//! STOP
//! INC <register>
//! DEC <register>
//! GOTO <address>
//! GOTOZ <register> <address>
//! ```
//!
//! [`analyse`] is the model of reading a line and [`parse_program`] that of
//! reading a text. What is wrong with a line is a [`LineError`], which
//! [`LineError::message`] puts into words.

use vstd::prelude::*;
use vstd::std_specs::convert::TryFromSpecImpl;
use vstd::string::StringExecFns;
use vstd::string::StrSliceExecFns;
use crate::instruction::{Instruction, RegisterIndex};
use crate::number::{
    append_decimal, decimal, not_a_number, not_a_number_message, parse_number, read_number,
    NumberError,
};
use crate::text::{chars_of, field_spans, line_spans, lines, marks, tokens, Separator, Span};

verus! {

/// The name of an instruction.
#[derive(Debug, Clone, Copy, PartialEq, Eq, Structural)]
pub enum Opcode {
    Stop,
    Inc,
    Dec,
    Goto,
    GotoZ,
}

/// The instruction that is written `name`.
pub open spec fn opcode_named(name: Seq<char>) -> Option<Opcode> {
    if name == "STOP"@ {
        Some(Opcode::Stop)
    } else if name == "INC"@ {
        Some(Opcode::Inc)
    } else if name == "DEC"@ {
        Some(Opcode::Dec)
    } else if name == "GOTO"@ {
        Some(Opcode::Goto)
    } else if name == "GOTOZ"@ {
        Some(Opcode::GotoZ)
    } else {
        None
    }
}

/// What is wrong with a line.
#[derive(Debug, Clone, Copy, PartialEq, Eq, Structural)]
pub enum LineError {
    /// The line holds nothing but spaces.
    NoTokens,
    /// The first token is not the name of an instruction.
    UnknownToken,
    /// The instruction takes one operand, and the line does not hold two
    /// tokens.
    NotTwoTokens,
    /// The instruction takes two operands, and the line does not hold three
    /// tokens.
    NotThreeTokens,
    /// The token at position `operand` is no register index or address.
    NotANumber { operand: usize, reason: NumberError },
}

/// The token at position `at` of `line`, and no text where the line has
/// fewer tokens.
pub open spec fn token_at(line: Seq<char>, at: int) -> Seq<char> {
    if 0 <= at < tokens(line).len() {
        tokens(line)[at]
    } else {
        Seq::empty()
    }
}

impl LineError {
    /// The error in words, for the line that it was found in.
    pub open spec fn message(self, line: Seq<char>) -> Seq<char> {
        match self {
            LineError::NoTokens => "No tokens in: "@ + line,
            LineError::UnknownToken => "Unknown token: "@ + token_at(line, 0),
            LineError::NotTwoTokens => "Not 2 tokens in: "@ + line,
            LineError::NotThreeTokens => "Not 3 tokens in: "@ + line,
            LineError::NotANumber { operand, reason } => not_a_number_message(
                token_at(line, operand as int),
                reason,
            ),
        }
    }
}

/// The operand at position `at` of a line with the tokens `words`.
pub open spec fn operand(words: Seq<Seq<char>>, at: usize) -> Result<RegisterIndex, LineError> {
    match parse_number(words[at as int], usize::MAX as nat) {
        Ok(value) => Ok(value as usize),
        Err(reason) => Err(LineError::NotANumber { operand: at, reason }),
    }
}

/// The instruction with the name `opcode` and the operand `cell`.
pub open spec fn with_one_operand(opcode: Opcode, cell: RegisterIndex) -> Instruction {
    match opcode {
        Opcode::Inc => Instruction::Inc { cell },
        Opcode::Dec => Instruction::Dec { cell },
        _ => Instruction::Goto { cell },
    }
}

/// The instruction that a line with the tokens `words` holds.
///
/// The first token decides. After `STOP` nothing more is looked at; `INC`,
/// `DEC` and `GOTO` want one more token and `GOTOZ` two, each of them a
/// number, and they are read from left to right.
pub open spec fn interpret(words: Seq<Seq<char>>) -> Result<Instruction, LineError> {
    if words.len() == 0 {
        Err(LineError::NoTokens)
    } else {
        match opcode_named(words[0]) {
            None => Err(LineError::UnknownToken),
            Some(Opcode::Stop) => Ok(Instruction::Stop),
            Some(Opcode::GotoZ) => if words.len() != 3 {
                Err(LineError::NotThreeTokens)
            } else {
                match operand(words, 1) {
                    Err(error) => Err(error),
                    Ok(condition_cell) => match operand(words, 2) {
                        Err(error) => Err(error),
                        Ok(goto_cell) => Ok(Instruction::GotoZ { condition_cell, goto_cell }),
                    },
                }
            },
            Some(opcode) => if words.len() != 2 {
                Err(LineError::NotTwoTokens)
            } else {
                match operand(words, 1) {
                    Err(error) => Err(error),
                    Ok(cell) => Ok(with_one_operand(opcode, cell)),
                }
            },
        }
    }
}

/// The instruction that `line` holds.
pub open spec fn analyse(line: Seq<char>) -> Result<Instruction, LineError> {
    interpret(tokens(line))
}

/// The instruction that `line` holds, or the message that says why it holds
/// none.
pub open spec fn parse_line(line: Seq<char>) -> Result<Instruction, Seq<char>> {
    match analyse(line) {
        Ok(instruction) => Ok(instruction),
        Err(error) => Err(error.message(line)),
    }
}

/// The message for an error in the line with the number `number`.
pub open spec fn line_error_message(number: nat, inner: Seq<char>) -> Seq<char> {
    "error in line "@ + decimal(number) + ": "@ + inner
}

/// The instructions that `lines` hold, one each and in their order, or the
/// message for the first line that holds none. Lines are numbered from one.
pub open spec fn parse_lines(lines: Seq<Seq<char>>) -> Result<Seq<Instruction>, Seq<char>>
    decreases lines.len(),
{
    if lines.len() == 0 {
        Ok(Seq::empty())
    } else {
        match parse_lines(lines.drop_last()) {
            Err(message) => Err(message),
            Ok(instructions) => match parse_line(lines.last()) {
                Ok(instruction) => Ok(instructions.push(instruction)),
                Err(message) => Err(line_error_message(lines.len(), message)),
            },
        }
    }
}

/// The program that `text` holds, or the message for its first faulty line.
pub open spec fn parse_program(text: Seq<char>) -> Result<Seq<Instruction>, Seq<char>> {
    parse_lines(lines(text))
}

/// Once parsing has failed on the first `k` lines, it fails with the same
/// message on all of them.
proof fn lemma_first_error_stands(lines: Seq<Seq<char>>, k: int)
    requires
        0 <= k <= lines.len(),
        parse_lines(lines.take(k)) is Err,
    ensures
        parse_lines(lines) == parse_lines(lines.take(k)),
    decreases lines.len(),
{
    if k == lines.len() {
        assert(lines.take(k) =~= lines);
    } else {
        assert(lines.drop_last().take(k) =~= lines.take(k));
        lemma_first_error_stands(lines.drop_last(), k);
    }
}

/// Whether `word` is written `name`.
fn word_is(word: &[char], name: &str) -> (yes: bool)
    ensures
        yes == (word@ == name@),
{
    let letters = chars_of(name);
    if word.len() != letters.len() {
        return false;
    }
    let mut i: usize = 0;
    while i < word.len()
        invariant
            i <= word.len() == letters.len(),
            letters@ == name@,
            forall|j: int| 0 <= j < i ==> word@[j] == letters@[j],
        decreases word.len() - i,
    {
        if word[i] != letters[i] {
            return false;
        }
        i += 1;
    }
    proof {
        assert(word@ =~= name@);
    }
    true
}

/// The instruction that is written `word`.
pub fn opcode_of(word: &[char]) -> (opcode: Option<Opcode>)
    ensures
        opcode == opcode_named(word@),
{
    if word_is(word, "STOP") {
        Some(Opcode::Stop)
    } else if word_is(word, "INC") {
        Some(Opcode::Inc)
    } else if word_is(word, "DEC") {
        Some(Opcode::Dec)
    } else if word_is(word, "GOTO") {
        Some(Opcode::Goto)
    } else if word_is(word, "GOTOZ") {
        Some(Opcode::GotoZ)
    } else {
        None
    }
}

/// Reads the operand at position `at` of a line.
fn read_operand(line: &[char], words: &Vec<Span>, at: usize) -> (r: Result<
    RegisterIndex,
    LineError,
>)
    requires
        marks(words@, line@, tokens(line@)),
        at < words.len(),
    ensures
        r == operand(tokens(line@), at),
{
    match read_number(words[at].slice(line), usize::MAX as u64) {
        Ok(value) => Ok(value as usize),
        Err(reason) => Err(LineError::NotANumber { operand: at, reason }),
    }
}

/// Reads the instruction that `line` holds.
pub fn parse_chars(line: &[char]) -> (r: Result<Instruction, LineError>)
    ensures
        r == analyse(line@),
{
    let words = field_spans(line, Separator::Space);
    if words.len() == 0 {
        return Err(LineError::NoTokens);
    }
    match opcode_of(words[0].slice(line)) {
        None => Err(LineError::UnknownToken),
        Some(Opcode::Stop) => Ok(Instruction::Stop),
        Some(Opcode::GotoZ) => {
            if words.len() != 3 {
                return Err(LineError::NotThreeTokens);
            }
            let condition_cell = read_operand(line, &words, 1)?;
            let goto_cell = read_operand(line, &words, 2)?;
            Ok(Instruction::GotoZ { condition_cell, goto_cell })
        },
        Some(opcode) => {
            if words.len() != 2 {
                return Err(LineError::NotTwoTokens);
            }
            let cell = read_operand(line, &words, 1)?;
            Ok(
                match opcode {
                    Opcode::Inc => Instruction::Inc { cell },
                    Opcode::Dec => Instruction::Dec { cell },
                    _ => Instruction::Goto { cell },
                },
            )
        },
    }
}

/// The token at position `at` of `line`.
fn token_of(line: &str, at: usize) -> (token: &str)
    ensures
        token@ == token_at(line@, at as int),
{
    let chars = chars_of(line);
    let words = field_spans(chars.as_slice(), Separator::Space);
    if at < words.len() {
        line.substring_char(words[at].start, words[at].end)
    } else {
        proof {
            reveal_strlit("");
        }
        ""
    }
}

/// Puts into words what is wrong with `line`.
pub fn error_message(error: LineError, line: &str) -> (message: String)
    ensures
        message@ == error.message(line@),
{
    match error {
        LineError::NoTokens => {
            let mut message = String::from_str("No tokens in: ");
            message.append(line);
            message
        },
        LineError::NotTwoTokens => {
            let mut message = String::from_str("Not 2 tokens in: ");
            message.append(line);
            message
        },
        LineError::NotThreeTokens => {
            let mut message = String::from_str("Not 3 tokens in: ");
            message.append(line);
            message
        },
        LineError::UnknownToken => {
            let mut message = String::from_str("Unknown token: ");
            message.append(token_of(line, 0));
            message
        },
        LineError::NotANumber { operand, reason } => not_a_number(token_of(line, operand), reason),
    }
}

impl TryFrom<String> for Instruction {
    type Error = String;

    /// Reads the instruction that the line `value` holds.
    ///
    /// A line that holds none gives the message that says why:
    /// `No tokens in: <line>`, `Unknown token: <token>`,
    /// `Not 2 tokens in: <line>`, `Not 3 tokens in: <line>` or
    /// `<token> is not a number (reason: <fault>)`.
    fn try_from(value: String) -> (r: Result<Instruction, String>)
        ensures
            r matches Ok(instruction) ==> parse_line(value@) == Ok::<Instruction, Seq<char>>(
                instruction,
            ),
            r matches Err(message) ==> parse_line(value@) == Err::<Instruction, Seq<char>>(
                message@,
            ),
    {
        let chars = chars_of(value.as_str());
        match parse_chars(chars.as_slice()) {
            Ok(instruction) => Ok(instruction),
            Err(error) => Err(error_message(error, value.as_str())),
        }
    }
}

/// What `try_from` returns is stated by its own contract. A specification
/// knows a `String` by its view alone, so the error of `try_from_spec` is
/// some string with the right characters, and `try_from` does not promise to
/// return that very one.
impl TryFromSpecImpl<String> for Instruction {
    open spec fn obeys_try_from_spec() -> bool {
        false
    }

    open spec fn try_from_spec(value: String) -> Result<Self, String> {
        match parse_line(value@) {
            Ok(instruction) => Ok(instruction),
            Err(message) => Err(choose|text: String| text@ == message),
        }
    }
}

/// Words the message for an error in the line with the number `number`.
fn line_error(number: usize, inner: &str) -> (message: String)
    ensures
        message@ == line_error_message(number as nat, inner@),
{
    let mut message = String::from_str("error in line ");
    append_decimal(&mut message, number);
    message.append(": ");
    message.append(inner);
    message
}

/// Reads a program: one instruction from each line of `text`, in their
/// order.
///
/// Reading stops at the first line that holds no instruction, with the
/// message `error in line <number>: <what is wrong with the line>`. Lines are
/// numbered from one.
pub fn parse_commands(text: String) -> (r: Result<Vec<Instruction>, String>)
    ensures
        r matches Ok(instructions) ==> parse_program(text@) == Ok::<
            Seq<Instruction>,
            Seq<char>,
        >(instructions@),
        r matches Err(message) ==> parse_program(text@) == Err::<Seq<Instruction>, Seq<char>>(
            message@,
        ),
{
    let chars = chars_of(text.as_str());
    let spans = line_spans(chars.as_slice());
    let ghost all = lines(text@);
    let mut result: Vec<Instruction> = Vec::new();
    let mut i: usize = 0;
    while i < spans.len()
        invariant
            i <= spans.len(),
            chars@ == text@,
            all == lines(text@),
            marks(spans@, chars@, all),
            parse_lines(all.take(i as int)) == Ok::<Seq<Instruction>, Seq<char>>(result@),
        decreases spans.len() - i,
    {
        let span = spans[i];
        proof {
            assert(all.take(i + 1).drop_last() =~= all.take(i as int));
        }
        match parse_chars(span.slice(chars.as_slice())) {
            Ok(instruction) => {
                result.push(instruction);
            },
            Err(error) => {
                let line = text.as_str().substring_char(span.start, span.end);
                let inner = error_message(error, line);
                proof {
                    lemma_first_error_stands(all, i + 1);
                }
                return Err(line_error(i + 1, inner.as_str()));
            },
        }
        i += 1;
    }
    proof {
        assert(all.take(i as int) =~= all);
    }
    Ok(result)
}

} // verus!
