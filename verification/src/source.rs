//! Identity-keyed source units and the positions and spans within them.

use crate::contents::{pos_offset, spliced, wf_lines, Contents};
use crate::diagnostic::{Diagnostic, ParseResult};
use crate::latin1::{latin1_encodable, latin1_of, Latin1String, Utf8ToLatin1Error};
use vstd::prelude::*;

verus! {

use vstd::std_specs::cmp::PartialEqSpec;

/// A zero-based point in a source text: a line and a column within that line.
/// The column counts characters, not bytes and not display columns.
#[derive(Clone, Copy, PartialEq, Eq, Structural, PartialOrd, Ord, Debug, Hash)]
pub struct Position {
    pub line: u64,
    pub character: u64,
}

/// Strict order on positions: by line, then by column.
pub open spec fn pos_lt(a: Position, b: Position) -> bool {
    a.line < b.line || (a.line == b.line && a.character < b.character)
}

/// Non-strict order on positions.
pub open spec fn pos_le(a: Position, b: Position) -> bool {
    pos_lt(a, b) || a == b
}

/// The earlier of two positions.
pub open spec fn pos_min(a: Position, b: Position) -> Position {
    if pos_lt(b, a) { b } else { a }
}

/// The later of two positions.
pub open spec fn pos_max(a: Position, b: Position) -> Position {
    if pos_lt(a, b) { b } else { a }
}

impl Position {
    pub fn default() -> (p: Position)
        ensures
            p.line == 0,
            p.character == 0,
    {
        Position { line: 0, character: 0 }
    }

    pub fn new(line: u64, character: u64) -> (p: Position)
        ensures
            p.line == line,
            p.character == character,
    {
        Position { line, character }
    }

    /// The position one character to the right.
    pub fn next_char(&self) -> (p: Position)
        requires
            self.character < u64::MAX,
        ensures
            p.line == self.line,
            p.character == self.character + 1,
    {
        Position { line: self.line, character: self.character + 1 }
    }

    /// The position one character to the left, stopping at the line start.
    pub fn prev_char(&self) -> (p: Position)
        ensures
            p.line == self.line,
            p.character == if self.character == 0 { 0u64 } else { (self.character - 1) as u64 },
    {
        Position {
            line: self.line,
            character: if self.character == 0 { 0 } else { self.character - 1 },
        }
    }

    pub fn range_to(&self, end: Position) -> (r: Range)
        ensures
            r.start == *self,
            r.end == end,
    {
        Range { start: *self, end }
    }

    /// Compare two positions under the `(line, character)` order.
    pub fn lt(&self, other: &Position) -> (r: bool)
        ensures
            r == pos_lt(*self, *other),
    {
        self.line < other.line || (self.line == other.line && self.character < other.character)
    }
}

/// A half-open span between two positions of one source text.
#[derive(Clone, Copy, PartialEq, Eq, Structural, Debug, Hash)]
pub struct Range {
    pub start: Position,
    pub end: Position,
}

impl Range {
    pub fn new(start: Position, end: Position) -> (r: Range)
        ensures
            r.start == start,
            r.end == end,
    {
        Range { start, end }
    }
}


/// The ghost content of a source unit: its name and its line table.
pub struct SourceView {
    pub name: Seq<char>,
    pub lines: Seq<Seq<u8>>,
}

/// The identity of a source unit: its name alone. Two units with the same
/// name are the same unit, whatever their texts.
#[derive(Debug)]
struct FileId {
    name: String,
}

/// A named text unit. Equality and identity go by the name only; the text is
/// deliberately excluded, so that a unit stays the same key while it is
/// edited. Readers borrow the contents shared; an edit takes the unit
/// exclusively, so no reader can observe a half-applied edit.
#[derive(Debug)]
pub struct Source {
    file_id: FileId,
    contents: Contents,
}

impl View for Source {
    type V = SourceView;

    closed spec fn view(&self) -> SourceView {
        SourceView { name: self.file_id.name@, lines: self.contents@ }
    }
}

impl Source {
    /// Whether the line table of the unit is well-formed.
    pub open spec fn wf(&self) -> bool {
        wf_lines(self@.lines)
    }

    /// An in-memory unit with the given name and Latin-1 text.
    pub fn inline(file_name: &str, contents: Latin1String) -> (s: Source)
        ensures
            s.wf(),
            s@.name == file_name@,
            s@.lines.flatten() == contents@,
    {
        Source {
            file_id: FileId { name: file_name.to_owned() },
            contents: Contents::from_latin1(&contents),
        }
    }

    /// An in-memory unit built from UTF-8 text; fails on a character outside
    /// the Latin-1 range.
    pub fn inline_utf8(file_name: &str, contents: &str) -> (r: Result<Source, Utf8ToLatin1Error>)
        ensures
            match r {
                Ok(s) => {
                    &&& latin1_encodable(contents@)
                    &&& s.wf()
                    &&& s@.name == file_name@
                    &&& s@.lines.flatten() == latin1_of(contents@)
                },
                Err(e) => {
                    &&& !latin1_encodable(contents@)
                    &&& 0 <= e.index < contents@.len()
                    &&& contents@[e.index as int] == e.value
                    &&& e.value as u32 > 255
                },
            },
    {
        let latin1 = Latin1String::from_utf8(contents)?;
        Ok(Self::inline(file_name, latin1))
    }

    /// A unit around an already decoded line table.
    pub fn from_contents(file_name: &str, contents: Contents) -> (s: Source)
        requires
            contents.wf(),
        ensures
            s.wf(),
            s@.name == file_name@,
            s@.lines == contents@,
    {
        Source { file_id: FileId { name: file_name.to_owned() }, contents }
    }

    /// Borrow the current text of the unit.
    pub fn contents(&self) -> (r: &Contents)
        ensures
            r@ == self@.lines,
    {
        &self.contents
    }

    /// The name the unit was created under.
    pub fn file_name(&self) -> (r: &str)
        ensures
            r@ == self@.name,
    {
        self.file_id.name.as_str()
    }

    /// A span of this unit between two positions.
    pub fn pos(&self, start: Position, end: Position) -> (r: SrcPos)
        ensures
            r.source@ == self@,
            r.source.wf() == self.wf(),
            r.range == (Range { start, end }),
    {
        SrcPos { source: self.clone(), range: Range { start, end } }
    }

    /// Replace a sub-range of the text, or the whole text when no range is
    /// given, and recompute the line table. An edit needs the unit
    /// exclusively: no reader sees a half-applied edit.
    pub fn change(&mut self, range: Option<&Range>, content: &Latin1String)
        requires
            match range {
                Some(r) => pos_le(r.start, r.end),
                None => true,
            },
        ensures
            final(self).wf(),
            final(self)@.name == old(self)@.name,
            match range {
                Some(r) => final(self)@.lines.flatten() == spliced(
                    old(self)@.lines.flatten(),
                    pos_offset(old(self)@.lines, r.start),
                    pos_offset(old(self)@.lines, r.end),
                    content@,
                ),
                None => final(self)@.lines.flatten() == content@,
            },
    {
        match range {
            Some(range) => self.contents.change(range, content),
            None => {
                self.contents = Contents::from_latin1(content);
            },
        }
    }
}

impl Clone for Source {
    /// A second handle to the same unit: same name, same current text.
    fn clone(&self) -> (r: Source)
        ensures
            r@ == self@,
            r.wf() == self.wf(),
    {
        Source {
            file_id: FileId { name: self.file_id.name.clone() },
            contents: self.contents.clone(),
        }
    }
}

impl PartialEq for Source {
    /// Two units are the same unit exactly when their names agree; their
    /// texts play no part.
    fn eq(&self, other: &Source) -> (r: bool) {
        self.file_id.name == other.file_id.name
    }
}

impl Eq for Source {}

impl vstd::std_specs::cmp::PartialEqSpecImpl for Source {
    open spec fn obeys_eq_spec() -> bool {
        true
    }

    open spec fn eq_spec(&self, other: &Source) -> bool {
        self@.name == other@.name
    }
}

/// Two sources are equal exactly when their names are: the text is excluded
/// from identity, so a unit remains the same key across edits.
pub proof fn lemma_identity_excludes_content(a: Source, b: Source)
    ensures
        a.eq_spec(&b) <==> a@.name == b@.name,
{
}

/// A lexical span: a range within one named source unit.
#[derive(Debug)]
pub struct SrcPos {
    /// The unit the span lies in.
    pub source: Source,
    /// The place in that unit.
    pub range: Range,
}

impl Clone for SrcPos {
    fn clone(&self) -> (r: SrcPos)
        ensures
            r.source@ == self.source@,
            r.source.wf() == self.source.wf(),
            r.range == self.range,
    {
        SrcPos { source: self.source.clone(), range: self.range }
    }
}

impl PartialEq for SrcPos {
    /// Spans agree when they lie in the same unit (by identity) at the same
    /// place.
    fn eq(&self, other: &SrcPos) -> (r: bool) {
        self.source == other.source && self.range == other.range
    }
}

impl Eq for SrcPos {}

impl vstd::std_specs::cmp::PartialEqSpecImpl for SrcPos {
    open spec fn obeys_eq_spec() -> bool {
        true
    }

    open spec fn eq_spec(&self, other: &SrcPos) -> bool {
        self.source@.name == other.source@.name && self.range == other.range
    }
}

impl SrcPos {
    pub fn new(source: Source, range: Range) -> (r: SrcPos)
        ensures
            r.source == source,
            r.range == range,
    {
        SrcPos { source, range }
    }

    pub fn start(&self) -> (p: Position)
        ensures
            p == self.range.start,
    {
        self.range.start
    }

    pub fn end(&self) -> (p: Position)
        ensures
            p == self.range.end,
    {
        self.range.end
    }

    pub fn range(&self) -> (r: Range)
        ensures
            r == self.range,
    {
        self.range
    }

    pub fn file_name(&self) -> (r: &str)
        ensures
            r@ == self.source@.name,
    {
        self.source.file_name()
    }

    /// The smallest span of the shared unit that covers this span and the
    /// other: the earlier start, the later end. Both spans must lie in the
    /// same unit.
    pub fn combine_into(self, other: &SrcPos) -> (r: SrcPos)
        requires
            self.source@.name == other.source@.name,
        ensures
            r.source == self.source,
            r.range.start == pos_min(self.range.start, other.range.start),
            r.range.end == pos_max(self.range.end, other.range.end),
    {
        let start = if other.range.start.lt(&self.range.start) {
            other.range.start
        } else {
            self.range.start
        };
        let end = if self.range.end.lt(&other.range.end) {
            other.range.end
        } else {
            self.range.end
        };
        SrcPos { source: self.source, range: Range { start, end } }
    }

    /// As `combine_into`, leaving this span untouched.
    pub fn combine(&self, other: &SrcPos) -> (r: SrcPos)
        requires
            self.source@.name == other.source@.name,
        ensures
            r.source@ == self.source@,
            r.source.wf() == self.source.wf(),
            r.range.start == pos_min(self.range.start, other.range.start),
            r.range.end == pos_max(self.range.end, other.range.end),
    {
        self.clone().combine_into(other)
    }
}

/// The span that covering two spans yields, stated over the parts that span
/// equality looks at.
pub open spec fn combined_range(a: SrcPos, b: SrcPos) -> Range {
    Range { start: pos_min(a.range.start, b.range.start), end: pos_max(a.range.end, b.range.end) }
}

/// Combination is order-independent: covering `a` with `b` and covering `b`
/// with `a` give equal spans, and the result's start and end are the
/// component-wise earliest and latest of the two.
pub proof fn lemma_combine_order_independent(a: SrcPos, b: SrcPos)
    requires
        a.source@.name == b.source@.name,
    ensures
        combined_range(a, b) == combined_range(b, a),
        pos_le(combined_range(a, b).start, a.range.start),
        pos_le(combined_range(a, b).start, b.range.start),
        pos_le(a.range.end, combined_range(a, b).end),
        pos_le(b.range.end, combined_range(a, b).end),
        (SrcPos { source: a.source, range: combined_range(a, b) }).eq_spec(
            &(SrcPos { source: b.source, range: combined_range(b, a) }),
        ),
{
}

/// A value together with the span it was read from.
#[derive(Debug)]
pub struct WithPos<T> {
    pub item: T,
    pub pos: SrcPos,
}

impl<T> WithPos<T> {
    pub fn new(item: T, pos: &SrcPos) -> (r: WithPos<T>)
        ensures
            r.item == item,
            r.pos.source@ == pos.source@,
            r.pos.source.wf() == pos.source.wf(),
            r.pos.range == pos.range,
    {
        WithPos { item, pos: pos.clone() }
    }

    pub fn from(item: T, pos: SrcPos) -> (r: WithPos<T>)
        ensures
            r.item == item,
            r.pos == pos,
    {
        WithPos { item, pos }
    }

    /// Rebuild the carried value through the given function, keeping the
    /// span.
    pub fn map_into<F: FnOnce(T) -> U, U>(self, f: F) -> (r: WithPos<U>)
        requires
            f.requires((self.item,)),
        ensures
            f.ensures((self.item,), r.item),
            r.pos == self.pos,
    {
        WithPos { item: f(self.item), pos: self.pos }
    }

    /// Rebuild the carried value through a function that may fail; a
    /// failure message becomes a diagnostic anchored at the carried span.
    pub fn try_map_into<F: FnOnce(T) -> Result<U, String>, U>(self, f: F) -> (r: ParseResult<
        WithPos<U>,
    >)
        requires
            f.requires((self.item,)),
        ensures
            match r {
                Ok(w) => w.pos == self.pos && f.ensures((self.item,), Ok(w.item)),
                Err(d) => {
                    &&& exists|m: String|
                        #[trigger] f.ensures((self.item,), Err(m)) && d@.message == m@
                    &&& d@.source_name == self.pos.source@.name
                    &&& d@.range == self.pos.range
                    &&& d@.related is None
                },
            },
    {
        match f(self.item) {
            Ok(item) => Ok(WithPos { item, pos: self.pos }),
            Err(msg) => {
                let ghost m = msg;
                let d = Diagnostic::error(&self.pos, msg);
                proof {
                    assert(f.ensures((self.item,), Err(m)) && d@.message == m@);
                }
                Err(d)
            },
        }
    }

    /// Widen the span to cover another span of the same unit.
    pub fn combine_pos_with(self, other: &SrcPos) -> (r: WithPos<T>)
        requires
            self.pos.source@.name == other.source@.name,
        ensures
            r.item == self.item,
            r.pos.source == self.pos.source,
            r.pos.range.start == pos_min(self.pos.range.start, other.range.start),
            r.pos.range.end == pos_max(self.pos.range.end, other.range.end),
    {
        WithPos { item: self.item, pos: self.pos.combine_into(other) }
    }
}


/// Anything that knows which source unit it belongs to.
pub trait HasSource {
    fn source(&self) -> &Source;
}

impl HasSource for Source {
    fn source(&self) -> &Source {
        self
    }
}

/// Anything that carries a span.
pub trait HasSrcPos {
    fn pos(&self) -> &SrcPos;
}

impl HasSrcPos for SrcPos {
    fn pos(&self) -> &SrcPos {
        self
    }
}

impl<T> HasSrcPos for WithPos<T> {
    fn pos(&self) -> &SrcPos {
        &self.pos
    }
}

impl<T: HasSrcPos> HasSource for T {
    fn source(&self) -> &Source {
        &self.pos().source
    }
}

} // verus!
