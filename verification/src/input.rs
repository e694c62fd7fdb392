//! The initial registers: numbers in a text, separated by spaces and line
//! feeds.

use vstd::prelude::*;
use vstd::string::StringExecFns;
use crate::number::{parse_number, read_number, NumberError};
use crate::text::{chars_of, field_spans, fields, marks, Separator};

verus! {

/// The message for a field that is no number.
pub open spec fn input_error_message(reason: NumberError) -> Seq<char> {
    "Number parsing error: "@ + reason.display_text()
}

/// The numbers that `fields` stand for, in their order, or the message for
/// the first field that stands for none. A number may be at most `u64::MAX`.
pub open spec fn read_values(fields: Seq<Seq<char>>) -> Result<Seq<u64>, Seq<char>>
    decreases fields.len(),
{
    if fields.len() == 0 {
        Ok(Seq::empty())
    } else {
        match read_values(fields.drop_last()) {
            Err(message) => Err(message),
            Ok(values) => match parse_number(fields.last(), u64::MAX as nat) {
                Ok(value) => Ok(values.push(value as u64)),
                Err(reason) => Err(input_error_message(reason)),
            },
        }
    }
}

/// The registers that `text` holds: the numbers that its fields stand for.
/// Fields are the non-empty pieces between spaces and line feeds.
pub open spec fn parse_input(text: Seq<char>) -> Result<Seq<u64>, Seq<char>> {
    read_values(fields(text, Separator::SpaceOrNewline.chars()))
}

/// Once reading has failed on the first `k` fields, it fails with the same
/// message on all of them.
proof fn lemma_first_failure_stands(fields: Seq<Seq<char>>, k: int)
    requires
        0 <= k <= fields.len(),
        read_values(fields.take(k)) is Err,
    ensures
        read_values(fields) == read_values(fields.take(k)),
    decreases fields.len(),
{
    if k == fields.len() {
        assert(fields.take(k) =~= fields);
    } else {
        assert(fields.drop_last().take(k) =~= fields.take(k));
        lemma_first_failure_stands(fields.drop_last(), k);
    }
}

/// What reading makes of fields, field by field: it succeeds exactly if every
/// field stands for a number of at most `u64::MAX`, and then gives one value
/// for each field, in order.
pub proof fn lemma_read_values(fields: Seq<Seq<char>>)
    ensures
        read_values(fields) is Ok <==> forall|i: int|
            0 <= i < fields.len() ==> parse_number(#[trigger] fields[i], u64::MAX as nat) is Ok,
        read_values(fields) matches Ok(values) ==> values.len() == fields.len() && forall|i: int|
            0 <= i < fields.len() ==> parse_number(#[trigger] fields[i], u64::MAX as nat) == Ok::<
                nat,
                NumberError,
            >(values[i] as nat),
    decreases fields.len(),
{
    if fields.len() > 0 {
        let front = fields.drop_last();
        lemma_read_values(front);
        assert forall|i: int| 0 <= i < front.len() implies front[i] == fields[i] by {}
        if read_values(front) is Ok && parse_number(fields.last(), u64::MAX as nat) is Ok {
            let values = read_values(fields)->Ok_0;
            assert forall|i: int| 0 <= i < fields.len() implies parse_number(
                #[trigger] fields[i],
                u64::MAX as nat,
            ) == Ok::<nat, NumberError>(values[i] as nat) by {}
        }
        if forall|i: int|
            0 <= i < fields.len() ==> parse_number(#[trigger] fields[i], u64::MAX as nat) is Ok {
            assert forall|i: int| 0 <= i < front.len() implies parse_number(
                #[trigger] front[i],
                u64::MAX as nat,
            ) is Ok by {}
        }
    }
}

/// Reads the initial registers from `text`.
///
/// Reading stops at the first field that is no number of at most `u64::MAX`,
/// with the message `Number parsing error: <fault>`.
pub fn read_input(text: String) -> (r: Result<Vec<u64>, String>)
    ensures
        r matches Ok(values) ==> parse_input(text@) == Ok::<Seq<u64>, Seq<char>>(values@),
        r matches Err(message) ==> parse_input(text@) == Err::<Seq<u64>, Seq<char>>(message@),
{
    let chars = chars_of(text.as_str());
    let spans = field_spans(chars.as_slice(), Separator::SpaceOrNewline);
    let ghost all = fields(text@, Separator::SpaceOrNewline.chars());
    let mut result: Vec<u64> = Vec::new();
    let mut i: usize = 0;
    while i < spans.len()
        invariant
            i <= spans.len(),
            chars@ == text@,
            all == fields(text@, Separator::SpaceOrNewline.chars()),
            marks(spans@, chars@, all),
            read_values(all.take(i as int)) == Ok::<Seq<u64>, Seq<char>>(result@),
        decreases spans.len() - i,
    {
        proof {
            assert(all.take(i + 1).drop_last() =~= all.take(i as int));
        }
        match read_number(spans[i].slice(chars.as_slice()), u64::MAX) {
            Ok(value) => {
                result.push(value);
            },
            Err(reason) => {
                proof {
                    lemma_first_failure_stands(all, i + 1);
                }
                let mut message = String::from_str("Number parsing error: ");
                message.append(reason.display_str());
                return Err(message);
            },
        }
        i += 1;
    }
    proof {
        assert(all.take(i as int) =~= all);
    }
    Ok(result)
}

} // verus!
