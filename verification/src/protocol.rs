//! Plain-data shapes exchanged with callers: positions, ranges and the records
//! that the feature providers return.

use vstd::prelude::*;

verus! {

/// A zero-based cursor position: a line, and a character offset within it.
#[derive(Clone, Copy, Debug, PartialEq, Eq, Structural)]
pub struct Position {
    pub line: u32,
    pub character: u32,
}

impl Position {
    /// Document order on positions: by line first, then by character.
    pub open spec fn spec_le(self, other: Position) -> bool {
        self.line < other.line || (self.line == other.line && self.character <= other.character)
    }

    /// Strict document order on positions.
    pub open spec fn spec_lt(self, other: Position) -> bool {
        self.line < other.line || (self.line == other.line && self.character < other.character)
    }

    /// The position at the given line and character.
    pub fn new(line: u32, character: u32) -> (out: Position)
        ensures
            out.line == line,
            out.character == character,
    {
        Position { line, character }
    }

    /// Whether `self` comes at or before `other` in document order.
    pub fn le(&self, other: &Position) -> (out: bool)
        ensures
            out == self.spec_le(*other),
    {
        self.line < other.line || (self.line == other.line && self.character <= other.character)
    }

    /// Whether `self` comes strictly before `other` in document order.
    pub fn lt(&self, other: &Position) -> (out: bool)
        ensures
            out == self.spec_lt(*other),
    {
        self.line < other.line || (self.line == other.line && self.character < other.character)
    }
}

/// A half-open span of text: `start` is inside it, `end` is the first position
/// after it.
#[derive(Clone, Copy, Debug, PartialEq, Eq, Structural)]
pub struct Range {
    pub start: Position,
    pub end: Position,
}

impl Range {
    /// A range is ordered when it does not end before it starts.
    pub open spec fn ordered(self) -> bool {
        self.start.spec_le(self.end)
    }

    /// Whether `pos` lies inside the half-open span.
    pub open spec fn spec_contains(self, pos: Position) -> bool {
        self.start.spec_le(pos) && pos.spec_lt(self.end)
    }

    /// Whether every position of `inner` lies between the ends of `self`.
    pub open spec fn spec_encloses(self, inner: Range) -> bool {
        self.start.spec_le(inner.start) && inner.end.spec_le(self.end)
    }

    /// The range from `start` up to, but not including, `end`.
    pub fn new(start: Position, end: Position) -> (out: Range)
        ensures
            out.start == start,
            out.end == end,
    {
        Range { start, end }
    }

    /// The range from `(start_line, start_character)` to `(end_line, end_character)`.
    pub fn new_simple(start_line: u32, start_character: u32, end_line: u32, end_character: u32) -> (out: Range)
        ensures
            out.start == (Position { line: start_line, character: start_character }),
            out.end == (Position { line: end_line, character: end_character }),
    {
        Range {
            start: Position { line: start_line, character: start_character },
            end: Position { line: end_line, character: end_character },
        }
    }

    /// Whether `pos` lies inside the range: at or after its start, and before its end.
    pub fn contains(&self, pos: Position) -> (out: bool)
        ensures
            out == self.spec_contains(pos),
    {
        self.start.le(&pos) && pos.lt(&self.end)
    }

    /// Whether `inner` lies within the range.
    pub fn encloses(&self, inner: &Range) -> (out: bool)
        ensures
            out == self.spec_encloses(*inner),
    {
        self.start.le(&inner.start) && inner.end.le(&self.end)
    }

    /// Whether the range does not end before it starts.
    pub fn is_ordered(&self) -> (out: bool)
        ensures
            out == self.ordered(),
    {
        self.start.le(&self.end)
    }
}

impl DeepView for Position {
    type V = Position;

    open spec fn deep_view(&self) -> Position {
        *self
    }
}

impl DeepView for Range {
    type V = Range;

    open spec fn deep_view(&self) -> Range {
        *self
    }
}

/// A query at a cursor position in a document.
#[derive(Debug, PartialEq, Eq)]
pub struct TextDocumentPositionParams {
    pub uri: String,
    pub position: Position,
}

/// A query for the foldable regions of a document.
#[derive(Debug, PartialEq, Eq)]
pub struct FoldingRangeParams {
    pub uri: String,
}

/// A query for the links of a document.
#[derive(Debug, PartialEq, Eq)]
pub struct DocumentLinkParams {
    pub uri: String,
}

/// A link from a symbol to the place that defines it.
#[derive(Debug, PartialEq, Eq)]
pub struct LocationLink {
    /// The span of the symbol that was asked about.
    pub origin_selection_range: Option<Range>,
    /// The document that holds the definition.
    pub target_uri: String,
    /// The span of the whole defining statement.
    pub target_range: Range,
    /// The span to select when the link is followed.
    pub target_selection_range: Range,
}

/// A `LocationLink` with its URI as a sequence of characters.
pub struct LocationLinkView {
    pub origin_selection_range: Option<Range>,
    pub target_uri: Seq<char>,
    pub target_range: Range,
    pub target_selection_range: Range,
}

impl DeepView for LocationLink {
    type V = LocationLinkView;

    open spec fn deep_view(&self) -> LocationLinkView {
        LocationLinkView {
            origin_selection_range: self.origin_selection_range,
            target_uri: self.target_uri@,
            target_range: self.target_range,
            target_selection_range: self.target_selection_range,
        }
    }
}

/// What a foldable region holds.
#[derive(Clone, Copy, Debug, PartialEq, Eq, Structural)]
pub enum FoldingRangeKind {
    Comment,
    Imports,
    Region,
}

/// A region that an editor may collapse.
#[derive(Clone, Copy, Debug, PartialEq, Eq, Structural)]
pub struct FoldingRange {
    pub start_line: u32,
    pub end_line: u32,
    pub kind: Option<FoldingRangeKind>,
}

impl DeepView for FoldingRange {
    type V = FoldingRange;

    open spec fn deep_view(&self) -> FoldingRange {
        *self
    }
}

/// A span of text that points at another document.
#[derive(Debug, PartialEq, Eq)]
pub struct DocumentLink {
    pub range: Range,
    pub target: String,
}

/// A `DocumentLink` with its target as a sequence of characters.
pub struct DocumentLinkView {
    pub range: Range,
    pub target: Seq<char>,
}

impl DeepView for DocumentLink {
    type V = DocumentLinkView;

    open spec fn deep_view(&self) -> DocumentLinkView {
        DocumentLinkView { range: self.range, target: self.target@ }
    }
}

/// What to show for the symbol under the cursor.
#[derive(Debug, PartialEq, Eq)]
pub struct Hover {
    pub contents: String,
    /// The span of the symbol, where it is known.
    pub range: Option<Range>,
}

/// A `Hover` with its contents as a sequence of characters.
pub struct HoverView {
    pub contents: Seq<char>,
    pub range: Option<Range>,
}

impl DeepView for Hover {
    type V = HoverView;

    open spec fn deep_view(&self) -> HoverView {
        HoverView { contents: self.contents@, range: self.range }
    }
}

} // verus!
