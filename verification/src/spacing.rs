//! Spaces do not matter: however many of them stand before, between and
//! after the words of a line, the line holds the same words and so the same
//! instruction.

use vstd::prelude::*;
use crate::parser::{analyse, interpret, parse_line};
use crate::text::{
    has_text, lemma_pieces_hold_no_separator, lemma_split_append, split, tokens, Separator,
};

verus! {

/// A run of `n` spaces.
pub open spec fn spaces(n: nat) -> Seq<char> {
    Seq::new(n, |i: int| ' ')
}

/// A word: one character or more, none of them a space.
pub open spec fn is_word(word: Seq<char>) -> bool {
    word.len() > 0 && forall|i: int| 0 <= i < word.len() ==> #[trigger] word[i] != ' '
}

/// The line that holds `words` with `gaps[i]` spaces before word `i` and
/// `gaps[words.len()]` spaces after the last word.
pub open spec fn spaced(words: Seq<Seq<char>>, gaps: Seq<nat>) -> Seq<char>
    decreases words.len(),
{
    if words.len() == 0 {
        spaces(gaps[0])
    } else {
        spaced(words.drop_last(), gaps.drop_last()) + words.last() + spaces(gaps.last())
    }
}

/// `gaps` can space out `words`: there is a gap before and after each word,
/// and at least one space in each gap between two words.
pub open spec fn is_spacing(words: Seq<Seq<char>>, gaps: Seq<nat>) -> bool {
    &&& gaps.len() == words.len() + 1
    &&& forall|i: int| 0 <= i < words.len() ==> is_word(#[trigger] words[i])
    &&& forall|i: int| 0 < i < words.len() ==> #[trigger] gaps[i] >= 1
}

/// The gaps of the single-spaced form of a line of `count` words: one space
/// between two words, none before the first and none after the last.
pub open spec fn single_gaps(count: nat) -> Seq<nat> {
    Seq::new(count + 1, |i: int| if 0 < i < count { 1nat } else { 0nat })
}

/// The single-spaced form of a line that holds `words`: the words with one
/// space between each two of them.
pub open spec fn single_spaced(words: Seq<Seq<char>>) -> Seq<char>
    decreases words.len(),
{
    if words.len() == 0 {
        Seq::empty()
    } else if words.len() == 1 {
        words[0]
    } else {
        single_spaced(words.drop_last()).push(' ') + words.last()
    }
}

/// Spaces added to a text add no word, and leave an empty piece at its end.
proof fn lemma_tokens_append_spaces(text: Seq<char>, n: nat)
    ensures
        tokens(text + spaces(n)) == tokens(text),
        n > 0 ==> split(text + spaces(n), Separator::Space.chars()).last().len() == 0,
    decreases n,
{
    let space = Separator::Space.chars();
    if n == 0 {
    } else {
        let shorter = text + spaces((n - 1) as nat);
        lemma_tokens_append_spaces(text, (n - 1) as nat);
        assert((text + spaces(n)).drop_last() =~= shorter);
        split(shorter, space).lemma_filter_push(Seq::empty(), has_text());
    }
}

/// A word added to a text that ends a piece is one more word of the text.
proof fn lemma_tokens_append_word(text: Seq<char>, word: Seq<char>)
    requires
        split(text, Separator::Space.chars()).last().len() == 0,
        is_word(word),
    ensures
        tokens(text + word) == tokens(text).push(word),
{
    let pieces = split(text, Separator::Space.chars());
    lemma_split_append(text, word, Separator::Space.chars());
    assert(pieces.drop_last().push(pieces.last()) =~= pieces);
    pieces.drop_last().lemma_filter_push(pieces.last(), has_text());
    pieces.drop_last().lemma_filter_push(word, has_text());
}

/// A spaced line that holds no word, or ends with a space, ends a piece.
proof fn lemma_spaced_ends_piece(words: Seq<Seq<char>>, gaps: Seq<nat>)
    requires
        is_spacing(words, gaps),
        words.len() == 0 || gaps.last() >= 1,
    ensures
        split(spaced(words, gaps), Separator::Space.chars()).last().len() == 0,
{
    if words.len() == 0 {
        lemma_tokens_append_spaces(Seq::empty(), gaps[0]);
    } else {
        lemma_tokens_append_spaces(
            spaced(words.drop_last(), gaps.drop_last()) + words.last(),
            gaps.last(),
        );
    }
}

/// The words of a spaced line are the words that were spaced out.
pub proof fn lemma_tokens_of_spaced(words: Seq<Seq<char>>, gaps: Seq<nat>)
    requires
        is_spacing(words, gaps),
    ensures
        tokens(spaced(words, gaps)) == words,
    decreases words.len(),
{
    if words.len() == 0 {
        lemma_tokens_append_spaces(Seq::empty(), gaps[0]);
        assert(tokens(Seq::empty()) =~= Seq::<Seq<char>>::empty()) by {
            Seq::<Seq<char>>::empty().lemma_filter_push(Seq::empty(), has_text());
            assert(Seq::<Seq<char>>::empty().filter(has_text()) =~= Seq::<Seq<char>>::empty())
                by {
                reveal(Seq::filter);
            }
        }
    } else {
        let front_words = words.drop_last();
        let front_gaps = gaps.drop_last();
        let front = spaced(front_words, front_gaps);
        assert(is_spacing(front_words, front_gaps)) by {
            assert forall|i: int| 0 <= i < front_words.len() implies is_word(
                #[trigger] front_words[i],
            ) by {}
            assert forall|i: int| 0 < i < front_words.len() implies #[trigger] front_gaps[i]
                >= 1 by {}
        }
        lemma_tokens_of_spaced(front_words, front_gaps);
        lemma_spaced_ends_piece(front_words, front_gaps);
        lemma_tokens_append_word(front, words.last());
        lemma_tokens_append_spaces(front + words.last(), gaps.last());
    }
}

/// The tokens of a line are words.
pub proof fn lemma_tokens_are_words(line: Seq<char>)
    ensures
        forall|i: int| 0 <= i < tokens(line).len() ==> is_word(#[trigger] tokens(line)[i]),
{
    let pieces = split(line, Separator::Space.chars());
    assert forall|i: int| 0 <= i < tokens(line).len() implies is_word(
        #[trigger] tokens(line)[i],
    ) by {
        let word = tokens(line)[i];
        pieces.lemma_filter_pred(has_text(), i);
        pieces.lemma_filter_contains_rev(has_text(), word);
        let k = choose|k: int| 0 <= k < pieces.len() && pieces[k] == word;
        lemma_pieces_hold_no_separator(line, Separator::Space.chars(), k);
    }
}

/// The single gaps space out any words, and what they make of them is the
/// single-spaced form.
proof fn lemma_single_gaps(words: Seq<Seq<char>>)
    requires
        forall|i: int| 0 <= i < words.len() ==> is_word(#[trigger] words[i]),
    ensures
        is_spacing(words, single_gaps(words.len())),
        spaced(words, single_gaps(words.len())) == single_spaced(words),
    decreases words.len(),
{
    let gaps = single_gaps(words.len());
    if words.len() == 1 {
        assert(spaced(words.drop_last(), gaps.drop_last()) == spaces(0));
    } else if words.len() > 1 {
        let front = words.drop_last();
        let inner = front.drop_last();
        assert forall|i: int| 0 <= i < front.len() implies is_word(#[trigger] front[i]) by {}
        lemma_single_gaps(front);
        let before = single_gaps(front.len());
        assert(gaps.drop_last().drop_last() =~= before.drop_last());
        let start = spaced(inner, before.drop_last());
        assert(spaced(front, gaps.drop_last()) == start + front.last() + spaces(1));
    }
}

/// Whitespace does not matter to the parser: a line that holds `words`,
/// spaced out in any way, is read as the words say, and so as their
/// single-spaced form is read.
pub proof fn lemma_spacing_does_not_matter(words: Seq<Seq<char>>, gaps: Seq<nat>)
    requires
        is_spacing(words, gaps),
    ensures
        analyse(spaced(words, gaps)) == interpret(words),
        analyse(spaced(words, gaps)) == analyse(single_spaced(words)),
        parse_line(spaced(words, gaps)) is Ok <==> parse_line(single_spaced(words)) is Ok,
        parse_line(spaced(words, gaps)) is Ok ==> parse_line(spaced(words, gaps)) == parse_line(
            single_spaced(words),
        ),
{
    lemma_tokens_of_spaced(words, gaps);
    lemma_single_gaps(words);
    lemma_tokens_of_spaced(words, single_gaps(words.len()));
}

/// Every line is read as its single-spaced form is: the line with one space
/// between its tokens and none at its ends.
pub proof fn lemma_single_spaced_form(line: Seq<char>)
    ensures
        tokens(single_spaced(tokens(line))) == tokens(line),
        analyse(single_spaced(tokens(line))) == analyse(line),
        parse_line(line) is Ok ==> parse_line(single_spaced(tokens(line))) == parse_line(line),
{
    lemma_tokens_are_words(line);
    lemma_single_gaps(tokens(line));
    lemma_tokens_of_spaced(tokens(line), single_gaps(tokens(line).len()));
}

} // verus!
