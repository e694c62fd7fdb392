use goto_interpreter::{parse_commands, parse_nr, read_input, Instruction};

/// A small generator of repeatable pseudo-random numbers.
struct Dice(u64);

impl Dice {
    fn roll(&mut self, sides: usize) -> usize {
        self.0 = self.0.wrapping_mul(6364136223846793005).wrapping_add(1442695040888963407);
        ((self.0 >> 33) as usize) % sides
    }

    fn text(&mut self, words: &[&str], gaps: &[&str], most: usize) -> String {
        let mut text = String::new();
        for _ in 0..self.roll(most + 1) {
            text.push_str(gaps[self.roll(gaps.len())]);
            text.push_str(words[self.roll(words.len())]);
        }
        text.push_str(gaps[self.roll(gaps.len())]);
        text
    }
}

const WORDS: [&str; 20] = [
    "STOP",
    "INC",
    "DEC",
    "GOTO",
    "GOTOZ",
    "0",
    "1",
    "42",
    "+7",
    "007",
    "-1",
    "+",
    "x",
    "1x",
    "18446744073709551615",
    "18446744073709551616",
    "99999999999999999999999",
    "stop",
    "é",
    "",
];

fn number(text: &str) -> Result<usize, String> {
    text.parse::<usize>().map_err(|e| format!("{} is not a number (reason: {:?})", text, e))
}

fn line(text: &str) -> Result<Instruction, String> {
    let tokens: Vec<&str> = text.split(" ").filter(|t| t.len() > 0).collect();
    if tokens.is_empty() {
        return Err(format!("No tokens in: {}", text));
    }
    match tokens[0] {
        "STOP" => Ok(Instruction::Stop),
        "INC" | "DEC" | "GOTO" => {
            if tokens.len() != 2 {
                return Err(format!("Not 2 tokens in: {}", text));
            }
            let cell = number(tokens[1])?;
            Ok(match tokens[0] {
                "INC" => Instruction::Inc { cell },
                "DEC" => Instruction::Dec { cell },
                _ => Instruction::Goto { cell },
            })
        }
        "GOTOZ" => {
            if tokens.len() != 3 {
                return Err(format!("Not 3 tokens in: {}", text));
            }
            let condition_cell = number(tokens[1])?;
            let goto_cell = number(tokens[2])?;
            Ok(Instruction::GotoZ { condition_cell, goto_cell })
        }
        other => Err(format!("Unknown token: {}", other)),
    }
}

fn program(text: &str) -> Result<Vec<Instruction>, String> {
    let mut result = vec![];
    for (index, content) in text.lines().enumerate() {
        match line(content) {
            Ok(instruction) => result.push(instruction),
            Err(inner) => return Err(format!("error in line {}: {}", index + 1, inner)),
        }
    }
    Ok(result)
}

fn registers(text: &str) -> Result<Vec<u64>, String> {
    let mut result = vec![];
    for token in text.split(|c| c == ' ' || c == '\n').filter(|t| t.len() > 0) {
        match token.parse::<u64>() {
            Ok(value) => result.push(value),
            Err(e) => return Err(format!("Number parsing error: {}", e)),
        }
    }
    Ok(result)
}

#[test]
fn numbers_agree_with_the_standard_parser() {
    let mut dice = Dice(1);
    let pieces = ["0", "1", "5", "9", "+", "-", " ", "x", "18446744073709551615", "٣", ""];
    for _ in 0..20000 {
        let text = dice.text(&pieces, &[""], 4);
        assert_eq!(parse_nr(&text), number(&text), "{:?}", text);
    }
}

#[test]
fn lines_agree_with_the_standard_splitter() {
    let mut dice = Dice(2);
    let gaps = [" ", " ", "  ", "", "\t", "\r"];
    for _ in 0..20000 {
        let text = dice.text(&WORDS, &gaps, 4);
        assert_eq!(Instruction::try_from(text.clone()), line(&text), "{:?}", text);
    }
}

#[test]
fn programs_agree_with_the_standard_line_reader() {
    let mut dice = Dice(3);
    let gaps = [" ", " ", "  ", "\n", "\n", "\r\n", "\r", "\n\n", ""];
    for _ in 0..20000 {
        let text = dice.text(&WORDS[..10], &gaps, 8);
        assert_eq!(parse_commands(text.clone()), program(&text), "{:?}", text);
    }
}

#[test]
fn well_formed_programs_agree_with_the_standard_line_reader() {
    let mut dice = Dice(4);
    let lines = ["STOP", " INC 1", "DEC  2 ", "GOTO 3", "GOTOZ 4  5", "  STOP  6"];
    let ends = ["\n", "\n", "\r\n", " \n"];
    for _ in 0..5000 {
        let mut text = String::new();
        for _ in 0..dice.roll(30) {
            text.push_str(lines[dice.roll(lines.len())]);
            text.push_str(ends[dice.roll(ends.len())]);
        }
        if dice.roll(2) == 0 {
            text.push_str(lines[dice.roll(lines.len())]);
        }
        let parsed = parse_commands(text.clone());
        assert!(parsed.is_ok(), "{:?}", text);
        assert_eq!(parsed, program(&text), "{:?}", text);
    }
}

#[test]
fn registers_agree_with_the_standard_splitter() {
    let mut dice = Dice(5);
    let numbers = ["0", "1", "42", "+7", "007", "18446744073709551615", "18446744073709551616", "x", "-1", ""];
    let gaps = [" ", " ", "  ", "\n", "\n", "\r\n", "\t", ""];
    for _ in 0..20000 {
        let text = dice.text(&numbers, &gaps, 6);
        assert_eq!(read_input(text.clone()), registers(&text), "{:?}", text);
    }
}
