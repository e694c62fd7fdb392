//! The grammar of the language, and the proof that the parser accepts what
//! the grammar allows and nothing else.

use vstd::prelude::*;
use crate::instruction::{Instruction, RegisterIndex};
use crate::number::{digits_value, is_numeral, lemma_parse_number, unsigned_part};
use crate::parser::{
    analyse, line_error_message, opcode_named, parse_line, parse_lines, parse_program, Opcode,
};
use crate::text::{lines, tokens};

verus! {

/// `word` is a register index or an address: a numeral of at most
/// `usize::MAX`.
pub open spec fn is_index(word: Seq<char>) -> bool {
    is_numeral(word) && digits_value(unsigned_part(word)) <= usize::MAX
}

/// The register index or address that `word` stands for.
pub open spec fn index_value(word: Seq<char>) -> RegisterIndex {
    digits_value(unsigned_part(word)) as usize
}

/// `line` is a line of the language: `STOP` and whatever follows it, or
/// `INC`, `DEC` or `GOTO` and one index, or `GOTOZ` and two.
pub open spec fn well_formed(line: Seq<char>) -> bool {
    let words = tokens(line);
    words.len() > 0 && match opcode_named(words[0]) {
        None => false,
        Some(Opcode::Stop) => true,
        Some(Opcode::GotoZ) => words.len() == 3 && is_index(words[1]) && is_index(words[2]),
        Some(_) => words.len() == 2 && is_index(words[1]),
    }
}

/// The instruction that a line of the language stands for.
pub open spec fn meaning(line: Seq<char>) -> Instruction {
    let words = tokens(line);
    match opcode_named(words[0]) {
        Some(Opcode::Inc) => Instruction::Inc { cell: index_value(words[1]) },
        Some(Opcode::Dec) => Instruction::Dec { cell: index_value(words[1]) },
        Some(Opcode::Goto) => Instruction::Goto { cell: index_value(words[1]) },
        Some(Opcode::GotoZ) => Instruction::GotoZ {
            condition_cell: index_value(words[1]),
            goto_cell: index_value(words[2]),
        },
        _ => Instruction::Stop,
    }
}

/// Line `k` is the first of `lines` that does not parse.
pub open spec fn first_error_at(lines: Seq<Seq<char>>, k: int) -> bool {
    &&& 0 <= k < lines.len()
    &&& parse_line(lines[k]) is Err
    &&& forall|j: int| 0 <= j < k ==> parse_line(#[trigger] lines[j]) is Ok
}

/// Parsing a line is total: a line of the language gives the one instruction
/// that it stands for, and any other line gives an error.
pub proof fn lemma_line_grammar(line: Seq<char>)
    ensures
        well_formed(line) ==> parse_line(line) == Ok::<Instruction, Seq<char>>(meaning(line)),
        !well_formed(line) ==> parse_line(line) is Err && analyse(line) is Err,
{
    let words = tokens(line);
    if words.len() >= 2 {
        lemma_parse_number(words[1], usize::MAX as nat);
    }
    if words.len() >= 3 {
        lemma_parse_number(words[2], usize::MAX as nat);
    }
}

/// What parsing makes of lines, line by line: it succeeds exactly if every
/// line parses, and then gives one instruction for each line, in order;
/// otherwise its message is that of the first line that does not parse,
/// with the number of that line, counted from one.
pub proof fn lemma_parse_lines(lines: Seq<Seq<char>>)
    ensures
        parse_lines(lines) is Ok <==> forall|i: int|
            0 <= i < lines.len() ==> parse_line(#[trigger] lines[i]) is Ok,
        parse_lines(lines) matches Ok(instructions) ==> instructions.len() == lines.len()
            && forall|i: int|
            0 <= i < lines.len() ==> parse_line(#[trigger] lines[i]) == Ok::<
                Instruction,
                Seq<char>,
            >(instructions[i]),
        parse_lines(lines) matches Err(message) ==> exists|k: int|
            0 <= k < lines.len() && first_error_at(lines, k) && message == line_error_message(
                (k + 1) as nat,
                parse_line(lines[k])->Err_0,
            ),
    decreases lines.len(),
{
    if lines.len() > 0 {
        let front = lines.drop_last();
        lemma_parse_lines(front);
        assert forall|i: int| 0 <= i < front.len() implies front[i] == lines[i] by {}
        match parse_lines(front) {
            Err(message) => {
                let k = choose|k: int|
                    0 <= k < front.len() && first_error_at(front, k) && message
                        == line_error_message((k + 1) as nat, parse_line(front[k])->Err_0);
                assert(first_error_at(lines, k)) by {
                    assert forall|j: int| 0 <= j < k implies parse_line(
                        #[trigger] lines[j],
                    ) is Ok by {}
                }
            },
            Ok(instructions) => {
                let k = lines.len() - 1;
                match parse_line(lines.last()) {
                    Ok(instruction) => {
                        assert forall|i: int| 0 <= i < lines.len() implies parse_line(
                            #[trigger] lines[i],
                        ) == Ok::<Instruction, Seq<char>>(instructions.push(instruction)[i]) by {}
                    },
                    Err(message) => {
                        assert(first_error_at(lines, k)) by {
                            assert forall|j: int| 0 <= j < k implies parse_line(
                                #[trigger] lines[j],
                            ) is Ok by {}
                        }
                    },
                }
            },
        }
    }
}

/// A text whose lines all are lines of the language parses to the
/// instructions that they stand for, one for each line and in their order.
pub proof fn lemma_well_formed_text_parses(text: Seq<char>)
    requires
        forall|i: int| 0 <= i < lines(text).len() ==> well_formed(#[trigger] lines(text)[i]),
    ensures
        parse_program(text) == Ok::<Seq<Instruction>, Seq<char>>(
            Seq::new(lines(text).len(), |i: int| meaning(lines(text)[i])),
        ),
{
    let all = lines(text);
    lemma_parse_lines(all);
    assert forall|i: int| 0 <= i < all.len() implies parse_line(#[trigger] all[i]) is Ok by {
        lemma_line_grammar(all[i]);
    }
    let instructions = parse_lines(all)->Ok_0;
    assert forall|i: int| 0 <= i < all.len() implies instructions[i] == meaning(all[i]) by {
        lemma_line_grammar(all[i]);
    }
    assert(instructions =~= Seq::new(all.len(), |i: int| meaning(all[i])));
}

/// A text with a line that is no line of the language does not parse: the
/// error is that of the first such line, tagged with its number.
pub proof fn lemma_malformed_line_fails(text: Seq<char>, k: int)
    requires
        0 <= k < lines(text).len(),
        !well_formed(lines(text)[k]),
        forall|j: int| 0 <= j < k ==> well_formed(#[trigger] lines(text)[j]),
    ensures
        parse_line(lines(text)[k]) is Err,
        parse_program(text) == Err::<Seq<Instruction>, Seq<char>>(
            line_error_message((k + 1) as nat, parse_line(lines(text)[k])->Err_0),
        ),
{
    let all = lines(text);
    lemma_parse_lines(all);
    lemma_line_grammar(all[k]);
    let message = parse_lines(all)->Err_0;
    let first = choose|first: int|
        0 <= first < all.len() && first_error_at(all, first) && message == line_error_message(
            (first + 1) as nat,
            parse_line(all[first])->Err_0,
        );
    if first < k {
        lemma_line_grammar(all[first]);
    }
}

} // verus!
