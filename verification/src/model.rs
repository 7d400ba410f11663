//! The puzzle data model: the typed form of the fetched document. It is
//! built once at the boundary and read-only afterwards.
use crate::dateline::valid_date;
use crate::width::MAX_TEXT_LEN;
use vstd::prelude::*;

verus! {

/// The direction a clue group runs in: a closed set of two variants.
#[derive(Clone, Copy, Debug, PartialEq, Eq, Structural)]
pub enum Direction {
    Across,
    Down,
}

/// One textual variant of a clue; only the plain form is printed.
pub struct ClueText {
    pub plain: String,
}

/// A clue: a short display label and its text variants, the first of which
/// carries the plain text this pipeline prints.
pub struct Clue {
    pub label: String,
    pub text: Vec<ClueText>,
}

/// An ordered group of clue references under one direction. The references
/// are positions into the puzzle's clue sequence, in display order.
pub struct ClueList {
    pub clues: Vec<u16>,
    pub name: Direction,
}

/// One puzzle board: its vector markup, its clue groups, and its
/// positionally addressed clues.
pub struct Puzzle {
    pub board: String,
    pub clue_lists: Vec<ClueList>,
    pub clues: Vec<Clue>,
}

/// A calendar date held as plain year, month and day numbers.
#[derive(Clone, Copy, Debug, PartialEq, Eq, Structural)]
pub struct CalendarDate {
    pub year: i16,
    pub month: u8,
    pub day: u8,
}

/// The fetched document: boards (non-empty; the first is printed),
/// constructor names, editor name and publication date.
pub struct MiniCrossword {
    pub body: Vec<Puzzle>,
    pub constructors: Vec<String>,
    pub editor: String,
    pub publication_date: CalendarDate,
}

/// A validated clue: it has at least one text variant, and its label and
/// text are short enough for the layout arithmetic to stay within machine
/// integers.
pub open spec fn clue_wf(c: Clue) -> bool {
    &&& c.text@.len() >= 1
    &&& c.label@.len() <= 1000
    &&& c.text@[0].plain@.len() <= MAX_TEXT_LEN
}

pub open spec fn puzzle_wf(p: Puzzle) -> bool {
    forall|i: int| 0 <= i < p.clues@.len() ==> clue_wf(#[trigger] p.clues@[i])
}

/// A validated document: at least one board, a valid publication date, at
/// least one constructor, and names short enough for the layout arithmetic.
pub open spec fn doc_wf(doc: MiniCrossword) -> bool {
    &&& doc.body@.len() >= 1
    &&& puzzle_wf(doc.body@[0])
    &&& valid_date(
        doc.publication_date.year as int,
        doc.publication_date.month as int,
        doc.publication_date.day as int,
    )
    &&& 1 <= doc.constructors@.len() <= 1000
    &&& forall|i: int|
        0 <= i < doc.constructors@.len() ==> (#[trigger] doc.constructors@[i])@.len() <= 10000
    &&& doc.editor@.len() <= MAX_TEXT_LEN
}

} // verus!
