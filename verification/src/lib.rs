//! Verified core of a thermal-receipt crossword printer: integer scaling of a
//! vector board onto the printer's dot grid, display-width-aware word
//! wrapping, natural-language name lists, date lines, and the composition of
//! the final sequence of print directives.
pub mod scale;
pub mod width;
pub mod layout;
pub mod dateline;
pub mod model;
pub mod compose;
