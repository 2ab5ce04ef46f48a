//! Where problems are, what they say, and the source text they point at.
use vstd::prelude::*;

use super::text::{chars_to_string, string_chars};

verus! {

/// The width reports are wrapped to when the terminal's is unknown.
pub const FALLBACK_ERROR_WIDTH: usize = 60;

/// Where a parser reported an error: one position, or a span.
#[derive(Clone, Copy, Debug, PartialEq, Eq, Structural)]
pub enum InputLocation {
    Pos(usize),
    Span(usize, usize),
}

/// A span of characters, `start_pos` up to `end_pos`, in source number
/// `file` (source 0 holds the built-in declarations).
#[derive(Clone, Copy, Debug, PartialEq, Eq, Structural)]
pub struct FilePosition {
    pub start_pos: usize,
    pub end_pos: usize,
    pub file: usize,
}

impl FilePosition {
    /// The span a node of the program covers.
    pub fn from_span(start: usize, end: usize) -> (r: FilePosition)
        ensures
            r == (FilePosition { start_pos: start, end_pos: end, file: 1 }),
    {
        FilePosition { start_pos: start, end_pos: end, file: 1 }
    }

    /// The empty span at the start of a node of the program.
    pub fn start_at(start: usize) -> (r: FilePosition)
        ensures
            r == (FilePosition { start_pos: start, end_pos: start, file: 1 }),
    {
        FilePosition { start_pos: start, end_pos: start, file: 1 }
    }

    /// Where a parser error lies: its span, or the one character at its
    /// position.
    pub fn from_input_location(location: InputLocation) -> (r: FilePosition)
        requires
            location matches InputLocation::Pos(start) ==> start < usize::MAX,
        ensures
            location matches InputLocation::Span(start, end) ==> r == (FilePosition {
                start_pos: start,
                end_pos: end,
                file: 1,
            }),
            location matches InputLocation::Pos(start) ==> r == (FilePosition {
                start_pos: start,
                end_pos: (start + 1) as usize,
                file: 1,
            }),
    {
        let (start_pos, end_pos) = match location {
            InputLocation::Span(start, end) => (start, end),
            InputLocation::Pos(start) => (start, start + 1),
        };
        FilePosition { start_pos, end_pos, file: 1 }
    }

    /// A span of the built-in declarations.
    pub fn for_builtin(start: usize, end: usize) -> (r: FilePosition)
        ensures
            r == (FilePosition { start_pos: start, end_pos: end, file: 0 }),
    {
        FilePosition { start_pos: start, end_pos: end, file: 0 }
    }

    /// A position for problems that have no better one.
    pub fn placeholder() -> (r: FilePosition)
        ensures
            r == (FilePosition { start_pos: 0, end_pos: 0, file: 0 }),
    {
        FilePosition { start_pos: 0, end_pos: 0, file: 0 }
    }

    /// Grows the span to also cover `start..end`.
    pub fn include_span(&mut self, start: usize, end: usize)
        ensures
            final(self).start_pos == if start < old(self).start_pos {
                start
            } else {
                old(self).start_pos
            },
            final(self).end_pos == if end > old(self).end_pos {
                end
            } else {
                old(self).end_pos
            },
            final(self).file == old(self).file,
    {
        if start < self.start_pos {
            self.start_pos = start;
        }
        if end > self.end_pos {
            self.end_pos = end;
        }
    }
}

/// Spans only grow: the grown span covers both the old one and the new
/// one.
pub proof fn lemma_include_covers(p: FilePosition, q: FilePosition, start: usize, end: usize)
    requires
        q.start_pos == (if start < p.start_pos { start } else { p.start_pos }),
        q.end_pos == (if end > p.end_pos { end } else { p.end_pos }),
    ensures
        q.start_pos <= p.start_pos && q.start_pos <= start,
        q.end_pos >= p.end_pos && q.end_pos >= end,
{
}

/// How serious a problem is.
#[derive(Clone, Copy, Debug, PartialEq, Eq, Structural)]
pub enum ProblemType {
    Error,
    Warning,
    Hint,
}

/// One remark of a problem report: where, how serious, and what it says.
pub struct ProblemDescriptor {
    position: FilePosition,
    ptype: ProblemType,
    caption: String,
}

impl ProblemDescriptor {
    pub closed spec fn spec_position(&self) -> FilePosition {
        self.position
    }

    pub closed spec fn spec_ptype(&self) -> ProblemType {
        self.ptype
    }

    pub closed spec fn spec_caption(&self) -> Seq<char> {
        self.caption@
    }

    pub fn new(position: FilePosition, ptype: ProblemType, caption: &str) -> (r: ProblemDescriptor)
        ensures
            r.spec_position() == position,
            r.spec_ptype() == ptype,
            r.spec_caption() == caption@,
    {
        ProblemDescriptor { position, ptype, caption: caption.to_owned() }
    }

    pub fn position(&self) -> (r: FilePosition)
        ensures
            r == self.spec_position(),
    {
        self.position
    }

    pub fn ptype(&self) -> (r: ProblemType)
        ensures
            r == self.spec_ptype(),
    {
        self.ptype
    }

    pub fn caption(&self) -> (r: &str)
        ensures
            r@ == self.spec_caption(),
    {
        self.caption.as_str()
    }
}

/// A problem found while compiling, as a list of remarks.
pub struct CompileProblem {
    descriptors: Vec<ProblemDescriptor>,
}

impl CompileProblem {
    pub closed spec fn spec_descriptors(&self) -> Seq<ProblemDescriptor> {
        self.descriptors@
    }

    pub fn new() -> (r: CompileProblem)
        ensures
            r.spec_descriptors().len() == 0,
    {
        CompileProblem { descriptors: Vec::new() }
    }

    pub fn from_descriptors(descriptors: Vec<ProblemDescriptor>) -> (r: CompileProblem)
        ensures
            r.spec_descriptors() == descriptors@,
    {
        CompileProblem { descriptors }
    }

    pub fn add_descriptor(&mut self, descriptor: ProblemDescriptor)
        ensures
            final(self).spec_descriptors() == old(self).spec_descriptors().push(descriptor),
    {
        self.descriptors.push(descriptor)
    }

    pub fn borrow_descriptors(&self) -> (r: &Vec<ProblemDescriptor>)
        ensures
            r@ == self.spec_descriptors(),
    {
        &self.descriptors
    }
}

/// The text a span points at: the part of its first line before it, the
/// span itself, and the rest of its last line, with the line and column
/// (both from 1) where it starts.
pub struct GrabResult {
    pub prefix: String,
    pub highlighted: String,
    pub suffix: String,
    pub line_number: usize,
    pub column_number: usize,
}

/// Where reading the text for a span stands after some characters.
pub struct GrabState {
    pub prefix: Seq<char>,
    pub highlighted: Seq<char>,
    pub suffix: Seq<char>,
    pub line_number: int,
    pub column_number: int,
    /// The current line up to here.
    pub buffer: Seq<char>,
    pub line: int,
    pub column: int,
    /// The line the span ends on is over.
    pub done: bool,
}

/// Reading character `index` of the text, for the span `start..end`.
pub open spec fn grab_step(s: GrabState, index: int, ch: char, start: int, end: int) -> GrabState {
    if s.done {
        s
    } else {
        let column = s.column + 1;
        let t = if index < start {
            GrabState {
                prefix: s.prefix,
                highlighted: s.highlighted,
                suffix: s.suffix,
                line_number: s.line_number,
                column_number: s.column_number,
                buffer: s.buffer.push(ch),
                line: s.line,
                column,
                done: false,
            }
        } else if index == start {
            GrabState {
                prefix: s.buffer,
                highlighted: s.highlighted.push(ch),
                suffix: s.suffix,
                line_number: s.line,
                column_number: column,
                buffer: s.buffer,
                line: s.line,
                column,
                done: false,
            }
        } else if index < end {
            GrabState {
                prefix: s.prefix,
                highlighted: s.highlighted.push(ch),
                suffix: s.suffix,
                line_number: s.line_number,
                column_number: s.column_number,
                buffer: s.buffer,
                line: s.line,
                column,
                done: false,
            }
        } else {
            GrabState {
                prefix: s.prefix,
                highlighted: s.highlighted,
                suffix: if ch != '\n' {
                    s.suffix.push(ch)
                } else {
                    s.suffix
                },
                line_number: s.line_number,
                column_number: s.column_number,
                buffer: s.buffer,
                line: s.line,
                column,
                done: false,
            }
        };
        if ch == '\n' {
            GrabState {
                prefix: t.prefix,
                highlighted: t.highlighted,
                suffix: t.suffix,
                line_number: t.line_number,
                column_number: t.column_number,
                buffer: seq![],
                line: t.line + 1,
                column: 0,
                done: index >= end,
            }
        } else {
            t
        }
    }
}

/// The state after the first `n` characters of `text`.
pub open spec fn grab_fold(text: Seq<char>, n: int, start: int, end: int) -> GrabState
    decreases n,
{
    if n <= 0 {
        GrabState {
            prefix: seq![],
            highlighted: seq![],
            suffix: seq![],
            line_number: 0,
            column_number: 0,
            buffer: seq![],
            line: 1,
            column: 0,
            done: false,
        }
    } else {
        grab_step(grab_fold(text, n - 1, start, end), n - 1, text[n - 1], start, end)
    }
}

pub(crate) proof fn lemma_grab_counters(text: Seq<char>, n: int, start: int, end: int)
    requires
        0 <= n <= text.len(),
    ensures
        1 <= grab_fold(text, n, start, end).line <= n + 1,
        0 <= grab_fold(text, n, start, end).column <= n,
        0 <= grab_fold(text, n, start, end).line_number <= n + 1,
        0 <= grab_fold(text, n, start, end).column_number <= n,
        grab_fold(text, n, start, end).buffer.len() <= n,
        n <= start ==> grab_fold(text, n, start, end).prefix.len() == 0
            && grab_fold(text, n, start, end).highlighted.len() == 0
            && grab_fold(text, n, start, end).suffix.len() == 0,
        grab_fold(text, n, start, end).prefix.len() + grab_fold(text, n, start, end).highlighted.len()
            + grab_fold(text, n, start, end).suffix.len() <= n,
    decreases n,
{
    if n > 0 {
        lemma_grab_counters(text, n - 1, start, end);
    }
}

/// The text of `from` that the span `at` points at.
pub fn grab_text(from: &str, at: &FilePosition) -> (r: GrabResult)
    requires
        from@.len() < usize::MAX,
    ensures
        ({
            let s = grab_fold(from@, from@.len() as int, at.start_pos as int, at.end_pos as int);
            &&& r.prefix@ == s.prefix
            &&& r.highlighted@ == s.highlighted
            &&& r.suffix@ == s.suffix
            &&& r.line_number == s.line_number
            &&& r.column_number == s.column_number
        }),
{
    let start_char = at.start_pos;
    let end_char = at.end_pos;
    let chars = string_chars(from);
    let ghost text = chars@;
    let mut prefix: Vec<char> = Vec::new();
    let mut highlighted: Vec<char> = Vec::new();
    let mut suffix: Vec<char> = Vec::new();
    let mut line_number: usize = 0;
    let mut column_number: usize = 0;
    let mut line_buffer: Vec<char> = Vec::new();
    let mut line: usize = 1;
    let mut column: usize = 0;
    let mut index: usize = 0;
    while index < chars.len()
        invariant
            text == from@,
            text == chars@,
            index <= chars@.len(),
            chars@.len() < usize::MAX,
            start_char == at.start_pos,
            end_char == at.end_pos,
            ({
                let s = grab_fold(text, index as int, start_char as int, end_char as int);
                &&& prefix@ == s.prefix
                &&& highlighted@ == s.highlighted
                &&& suffix@ == s.suffix
                &&& line_number == s.line_number
                &&& column_number == s.column_number
                &&& line_buffer@ == s.buffer
                &&& line == s.line
                &&& column == s.column
                &&& !s.done
            }),
        decreases chars@.len() - index,
    {
        proof {
            lemma_grab_counters(text, index as int, start_char as int, end_char as int);
        }
        let character = chars[index];
        assert(grab_fold(text, index + 1, start_char as int, end_char as int) == grab_step(
            grab_fold(text, index as int, start_char as int, end_char as int),
            index as int,
            character,
            start_char as int,
            end_char as int,
        ));
        column = column + 1;
        if index < start_char {
            line_buffer.push(character);
        } else if index == start_char {
            prefix = line_buffer.clone();
            highlighted.push(character);
            line_number = line;
            column_number = column;
        } else if index > start_char && index < end_char {
            highlighted.push(character);
        } else if character != '\n' {
            suffix.push(character);
        }
        if character == '\n' {
            line_buffer = Vec::new();
            line = line + 1;
            column = 0;
            if index >= end_char {
                proof {
                    lemma_grab_done(text, index as int, start_char as int, end_char as int);
                }
                return GrabResult {
                    prefix: chars_to_string(&prefix),
                    highlighted: chars_to_string(&highlighted),
                    suffix: chars_to_string(&suffix),
                    line_number,
                    column_number,
                };
            }
        }
        index = index + 1;
    }
    GrabResult {
        prefix: chars_to_string(&prefix),
        highlighted: chars_to_string(&highlighted),
        suffix: chars_to_string(&suffix),
        line_number,
        column_number,
    }
}

/// Once the line the span ends on is over, the rest of the text changes
/// nothing.
proof fn lemma_grab_done(text: Seq<char>, index: int, start: int, end: int)
    requires
        0 <= index < text.len(),
        grab_fold(text, index + 1, start, end).done,
    ensures
        grab_fold(text, text.len() as int, start, end) == grab_fold(text, index + 1, start, end),
    decreases text.len() - index,
{
    if index + 1 < text.len() {
        lemma_grab_done(text, index + 1, start, end);
    }
}

} // verus!
