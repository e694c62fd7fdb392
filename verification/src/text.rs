//! Cutting text into pieces: the characters of a string, the pieces between
//! separators, the words of a line and the lines of a source text.
//!
//! Text is modelled as `Seq<char>`. The executable functions work on a slice
//! of characters and describe each piece by a [`Span`], the range of
//! positions that it takes up.

use vstd::prelude::*;
use vstd::slice::slice_subrange;

verus! {

/// A range of character positions, `start` included and `end` excluded.
#[derive(Debug, Clone, Copy, PartialEq, Eq, Structural)]
pub struct Span {
    pub start: usize,
    pub end: usize,
}

impl Span {
    /// The span lies within a text of `len` characters.
    pub open spec fn fits(self, len: nat) -> bool {
        self.start <= self.end <= len
    }

    /// The characters of `text` that the span covers.
    pub open spec fn of(self, text: Seq<char>) -> Seq<char> {
        text.subrange(self.start as int, self.end as int)
    }

    /// The characters of `text` that the span covers.
    pub fn slice<'a>(&self, text: &'a [char]) -> (piece: &'a [char])
        requires
            self.fits(text@.len()),
        ensures
            piece@ == self.of(text@),
    {
        slice_subrange(text, self.start, self.end)
    }
}

/// `spans` mark, in order, the pieces `parts` of `text`.
pub open spec fn marks(spans: Seq<Span>, text: Seq<char>, parts: Seq<Seq<char>>) -> bool {
    &&& spans.len() == parts.len()
    &&& forall|i: int|
        0 <= i < spans.len() ==> (#[trigger] spans[i]).fits(text.len()) && spans[i].of(text)
            == parts[i]
}

/// The characters at which a text is cut.
#[derive(Debug, Clone, Copy, PartialEq, Eq, Structural)]
pub enum Separator {
    Space,
    Newline,
    SpaceOrNewline,
}

impl Separator {
    /// The set of separating characters.
    pub open spec fn chars(self) -> Set<char> {
        match self {
            Separator::Space => set![' '],
            Separator::Newline => set!['\n'],
            Separator::SpaceOrNewline => set![' ', '\n'],
        }
    }

    /// Whether `c` separates.
    pub fn separates(self, c: char) -> (yes: bool)
        ensures
            yes == self.chars().contains(c),
    {
        match self {
            Separator::Space => c == ' ',
            Separator::Newline => c == '\n',
            Separator::SpaceOrNewline => c == ' ' || c == '\n',
        }
    }
}

/// The pieces of `text` between separators, empty pieces included: a text
/// with `n` separators has `n + 1` pieces.
pub open spec fn split(text: Seq<char>, separators: Set<char>) -> Seq<Seq<char>>
    decreases text.len(),
{
    if text.len() == 0 {
        seq![Seq::empty()]
    } else {
        let before = split(text.drop_last(), separators);
        if separators.contains(text.last()) {
            before.push(Seq::empty())
        } else {
            before.drop_last().push(before.last().push(text.last()))
        }
    }
}

/// Holds of a piece with at least one character.
pub open spec fn has_text() -> spec_fn(Seq<char>) -> bool {
    |piece: Seq<char>| piece.len() > 0
}

/// The non-empty pieces of `text` between separators.
pub open spec fn fields(text: Seq<char>, separators: Set<char>) -> Seq<Seq<char>> {
    split(text, separators).filter(has_text())
}

/// The words of a line: its non-empty pieces between spaces.
pub open spec fn tokens(line: Seq<char>) -> Seq<Seq<char>> {
    fields(line, Separator::Space.chars())
}

/// `line` without the carriage return that it may end with.
pub open spec fn without_carriage_return(line: Seq<char>) -> Seq<char> {
    if line.len() > 0 && line.last() == '\r' {
        line.drop_last()
    } else {
        line
    }
}

/// The lines of `text`. A line ends with a line feed, or with a carriage
/// return and a line feed, neither of which belongs to it. What follows the
/// last line feed is a line of its own unless it is empty.
pub open spec fn lines(text: Seq<char>) -> Seq<Seq<char>> {
    let pieces = split(text, Separator::Newline.chars());
    let ended = pieces.drop_last().map_values(|piece: Seq<char>| without_carriage_return(piece));
    if pieces.last().len() > 0 {
        ended.push(pieces.last())
    } else {
        ended
    }
}

/// No character of `text` is a separator.
pub open spec fn free_of(text: Seq<char>, separators: Set<char>) -> bool {
    forall|i: int| 0 <= i < text.len() ==> !separators.contains(#[trigger] text[i])
}

/// The text that holds `parts` with `between[i]` after part `i`, for each
/// part but the last.
pub open spec fn joined(parts: Seq<Seq<char>>, between: Seq<char>) -> Seq<char>
    decreases parts.len(),
{
    if parts.len() == 0 {
        Seq::empty()
    } else if parts.len() == 1 {
        parts[0]
    } else {
        joined(parts.drop_last(), between.drop_last()).push(between.last()) + parts.last()
    }
}

/// Holds of the characters that separate.
pub open spec fn one_of(separators: Set<char>) -> spec_fn(char) -> bool {
    |c: char| separators.contains(c)
}

/// The separators that `text` holds, in their order.
pub open spec fn separators_of(text: Seq<char>, separators: Set<char>) -> Seq<char> {
    text.filter(one_of(separators))
}

/// `split` always yields at least one piece.
proof fn lemma_split_len(text: Seq<char>, separators: Set<char>)
    ensures
        split(text, separators).len() >= 1,
    decreases text.len(),
{
    if text.len() > 0 {
        lemma_split_len(text.drop_last(), separators);
    }
}

/// Text without separators, added to a text, lengthens its last piece.
pub proof fn lemma_split_append(text: Seq<char>, more: Seq<char>, separators: Set<char>)
    requires
        free_of(more, separators),
    ensures
        split(text, separators).len() >= 1,
        split(text + more, separators) == split(text, separators).drop_last().push(
            split(text, separators).last() + more,
        ),
    decreases more.len(),
{
    let pieces = split(text, separators);
    lemma_split_len(text, separators);
    if more.len() > 0 {
        let front = more.drop_last();
        lemma_split_append(text, front, separators);
        assert((text + more).drop_last() =~= text + front);
        assert((pieces.last() + front).push(more.last()) =~= pieces.last() + more);
    }
}

/// No piece of a text holds a separator.
pub proof fn lemma_pieces_hold_no_separator(text: Seq<char>, separators: Set<char>, k: int)
    requires
        0 <= k < split(text, separators).len(),
    ensures
        free_of(split(text, separators)[k], separators),
    decreases text.len(),
{
    if text.len() > 0 {
        let before = split(text.drop_last(), separators);
        lemma_split_len(text.drop_last(), separators);
        if k < before.len() {
            lemma_pieces_hold_no_separator(text.drop_last(), separators, k);
        }
    }
}

/// `split` undoes `joined`: parts that hold no separator, joined by
/// separators, are the pieces of the text that they make.
pub proof fn lemma_split_of_joined(
    parts: Seq<Seq<char>>,
    between: Seq<char>,
    separators: Set<char>,
)
    requires
        parts.len() >= 1,
        between.len() == parts.len() - 1,
        forall|i: int| 0 <= i < parts.len() ==> free_of(#[trigger] parts[i], separators),
        forall|i: int| 0 <= i < between.len() ==> separators.contains(#[trigger] between[i]),
    ensures
        split(joined(parts, between), separators) == parts,
    decreases parts.len(),
{
    if parts.len() == 1 {
        lemma_split_append(Seq::empty(), parts[0], separators);
    } else {
        let front = joined(parts.drop_last(), between.drop_last());
        lemma_split_of_joined(parts.drop_last(), between.drop_last(), separators);
        let ended = front.push(between.last());
        assert(ended.drop_last() =~= front);
        lemma_split_append(ended, parts.last(), separators);
    }
}

/// `joined` undoes `split`: every text is its pieces, joined by its
/// separators.
pub proof fn lemma_joined_of_split(text: Seq<char>, separators: Set<char>)
    ensures
        split(text, separators).len() == separators_of(text, separators).len() + 1,
        joined(split(text, separators), separators_of(text, separators)) == text,
    decreases text.len(),
{
    let pieces = split(text, separators);
    let between = separators_of(text, separators);
    if text.len() == 0 {
        assert(between =~= Seq::<char>::empty()) by {
            reveal(Seq::filter);
        }
    } else {
        let front = text.drop_last();
        let before = split(front, separators);
        lemma_joined_of_split(front, separators);
        front.lemma_filter_push(text.last(), one_of(separators));
        assert(front.push(text.last()) =~= text);
        if separators.contains(text.last()) {
            assert(pieces.drop_last() =~= before);
            assert(between.drop_last() =~= separators_of(front, separators));
        } else if before.len() > 1 {
            assert(pieces.drop_last() =~= before.drop_last());
        }
    }
}

/// The characters of `s`.
pub fn chars_of(s: &str) -> (chars: Vec<char>)
    ensures
        chars@ == s@,
{
    let mut chars: Vec<char> = Vec::new();
    for c in it: s.chars()
        invariant
            chars@ == it.history(),
    {
        chars.push(c);
    }
    chars
}

/// Cuts `text` at every separator.
pub fn split_spans(text: &[char], separator: Separator) -> (spans: Vec<Span>)
    ensures
        marks(spans@, text@, split(text@, separator.chars())),
{
    let mut spans: Vec<Span> = Vec::new();
    let mut start: usize = 0;
    let mut i: usize = 0;
    while i < text.len()
        invariant
            start <= i <= text.len(),
            split(text@.take(i as int), separator.chars()).len() >= 1,
            marks(spans@, text@, split(text@.take(i as int), separator.chars()).drop_last()),
            split(text@.take(i as int), separator.chars()).last() == text@.subrange(
                start as int,
                i as int,
            ),
        decreases text.len() - i,
    {
        proof {
            let next = text@.take(i + 1);
            assert(next.drop_last() =~= text@.take(i as int));
            lemma_split_len(next, separator.chars());
        }
        if separator.separates(text[i]) {
            spans.push(Span { start, end: i });
            start = i + 1;
        }
        i += 1;
    }
    proof {
        assert(text@.take(i as int) =~= text@);
    }
    spans.push(Span { start, end: i });
    spans
}

/// Cuts `text` at every separator and keeps the pieces that hold text.
pub fn field_spans(text: &[char], separator: Separator) -> (spans: Vec<Span>)
    ensures
        marks(spans@, text@, fields(text@, separator.chars())),
{
    let pieces = split_spans(text, separator);
    let ghost parts = split(text@, separator.chars());
    let mut spans: Vec<Span> = Vec::new();
    let mut i: usize = 0;
    proof {
        reveal(Seq::filter);
    }
    while i < pieces.len()
        invariant
            i <= pieces.len(),
            parts == split(text@, separator.chars()),
            marks(pieces@, text@, parts),
            marks(spans@, text@, parts.take(i as int).filter(has_text())),
        decreases pieces.len() - i,
    {
        let piece = pieces[i];
        proof {
            assert(parts.take(i + 1) =~= parts.take(i as int).push(parts[i as int]));
            parts.take(i as int).lemma_filter_push(parts[i as int], has_text());
        }
        if piece.start < piece.end {
            spans.push(piece);
        }
        i += 1;
    }
    proof {
        assert(parts.take(i as int) =~= parts);
    }
    spans
}

/// Cuts `text` into its lines.
pub fn line_spans(text: &[char]) -> (spans: Vec<Span>)
    ensures
        marks(spans@, text@, lines(text@)),
{
    let pieces = split_spans(text, Separator::Newline);
    let ghost parts = split(text@, Separator::Newline.chars());
    let ghost ended = parts.drop_last().map_values(
        |piece: Seq<char>| without_carriage_return(piece),
    );
    let mut spans: Vec<Span> = Vec::new();
    let mut i: usize = 0;
    let last = pieces.len() - 1;
    while i < last
        invariant
            i <= last == pieces.len() - 1,
            parts == split(text@, Separator::Newline.chars()),
            ended == parts.drop_last().map_values(
                |piece: Seq<char>| without_carriage_return(piece),
            ),
            marks(pieces@, text@, parts),
            marks(spans@, text@, ended.take(i as int)),
        decreases last - i,
    {
        let piece = pieces[i];
        let mut end = piece.end;
        if piece.start < end && text[end - 1] == '\r' {
            end = end - 1;
        }
        proof {
            assert(Span { start: piece.start, end }.of(text@) =~= without_carriage_return(
                parts[i as int],
            ));
        }
        spans.push(Span { start: piece.start, end });
        i += 1;
    }
    let piece = pieces[last];
    if piece.start < piece.end {
        spans.push(piece);
    }
    spans
}

} // verus!
