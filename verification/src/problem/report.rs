//! Problem reports as shown on a terminal: a ruled box per remark, with the
//! source lines it points at numbered and the span itself coloured.
use vstd::prelude::*;

use colored::Colorize;

use super::objects::{
    grab_fold, grab_text, lemma_grab_counters, CompileProblem, ProblemDescriptor, ProblemType,
    FALLBACK_ERROR_WIDTH,
};
use super::text::{
    char_utf8_len, chars_to_string, decimal, push_decimal, push_str_chars, string_chars,
    utf8_len_of, wrap_text, wrapped,
};
use crate::SourceSet;

verus! {

broadcast use vstd::string::group_string_axioms;

/// The terminal colours that reports use.
#[derive(Clone, Copy, Debug, PartialEq, Eq, Structural)]
pub enum Hue {
    Blue,
    BrightRed,
    BrightYellow,
    BrightCyan,
}

/// The number that selects the colour in an escape sequence.
pub open spec fn hue_code(hue: Hue) -> Seq<char> {
    match hue {
        Hue::Blue => seq!['3', '4'],
        Hue::BrightRed => seq!['9', '1'],
        Hue::BrightYellow => seq!['9', '3'],
        Hue::BrightCyan => seq!['9', '6'],
    }
}

/// The escape sequence that turns the colour on.
pub open spec fn style_sequence(hue: Hue) -> Seq<char> {
    seq!['\x1B', '['] + hue_code(hue) + seq!['m']
}

/// The escape sequence that turns colours off again.
pub open spec fn reset_sequence() -> Seq<char> {
    seq!['\x1B', '[', '0', 'm']
}

/// The text holds the reset sequence somewhere.
pub open spec fn holds_reset(text: Seq<char>) -> bool {
    exists|i: int| 0 <= i && i + 4 <= text.len() && #[trigger] text.subrange(i, i + 4) == reset_sequence()
}

/// What `text` painted in `hue` may be shown as: the text alone when
/// colouring is off, else framed by the escape sequences (the first of them
/// missing if colouring is switched off while the text is painted).
pub open spec fn painting_of(shown: Seq<char>, hue: Hue, text: Seq<char>) -> bool {
    ||| shown == text
    ||| shown == style_sequence(hue) + text + reset_sequence()
    ||| shown == text + reset_sequence()
}

/// `Colorize::blue` on the text, turned into a string. colored writes the
/// text unchanged when colouring is off (by the environment or by its
/// override), and otherwise the style sequence, the text and the reset
/// sequence; it asks whether colouring is on more than once, so a change of
/// the override in the meantime can leave the style sequence out. Text that
/// holds the reset sequence is changed further; that is left unsaid.
#[verifier::external_body]
fn paint_blue(text: &str) -> (r: String)
    ensures
        !holds_reset(text@) ==> painting_of(r@, Hue::Blue, text@),
{
    text.blue().to_string()
}

/// `Colorize::bright_red` on the text, turned into a string; as for
/// `paint_blue`.
#[verifier::external_body]
fn paint_bright_red(text: &str) -> (r: String)
    ensures
        !holds_reset(text@) ==> painting_of(r@, Hue::BrightRed, text@),
{
    text.bright_red().to_string()
}

/// `Colorize::bright_yellow` on the text, turned into a string; as for
/// `paint_blue`.
#[verifier::external_body]
fn paint_bright_yellow(text: &str) -> (r: String)
    ensures
        !holds_reset(text@) ==> painting_of(r@, Hue::BrightYellow, text@),
{
    text.bright_yellow().to_string()
}

/// `Colorize::bright_cyan` on the text, turned into a string; as for
/// `paint_blue`.
#[verifier::external_body]
fn paint_bright_cyan(text: &str) -> (r: String)
    ensures
        !holds_reset(text@) ==> painting_of(r@, Hue::BrightCyan, text@),
{
    text.bright_cyan().to_string()
}

/// A piece of a report: text shown as it is, or text painted in a colour.
pub enum Piece {
    Plain(Seq<char>),
    Painted(Hue, Seq<char>),
}

/// The characters a piece may be shown as.
pub open spec fn shown(chunk: Seq<char>, piece: Piece) -> bool {
    match piece {
        Piece::Plain(text) => chunk == text,
        Piece::Painted(hue, text) => painting_of(chunk, hue, text),
    }
}

/// The chunks one after the other.
pub open spec fn joined(chunks: Seq<Seq<char>>) -> Seq<char>
    decreases chunks.len(),
{
    if chunks.len() == 0 {
        seq![]
    } else {
        joined(chunks.drop_last()) + chunks.last()
    }
}

/// `out` is the pieces shown one after the other, each painted piece as
/// colored may show it.
pub open spec fn renders(out: Seq<char>, pieces: Seq<Piece>) -> bool {
    exists|chunks: Seq<Seq<char>>|
        {
            &&& chunks.len() == pieces.len()
            &&& forall|i: int| 0 <= i < pieces.len() ==> shown(#[trigger] chunks[i], pieces[i])
            &&& out == joined(chunks)
        }
}

/// The colour a remark of this kind is shown in.
pub open spec fn hue_of(ptype: ProblemType) -> Hue {
    match ptype {
        ProblemType::Error => Hue::BrightRed,
        ProblemType::Warning => Hue::BrightYellow,
        ProblemType::Hint => Hue::BrightCyan,
    }
}

/// The word a remark of this kind starts with.
pub open spec fn label_of(ptype: ProblemType) -> Seq<char> {
    match ptype {
        ProblemType::Error => "ERROR: "@,
        ProblemType::Warning => "WARNING: "@,
        ProblemType::Hint => "HINT: "@,
    }
}

/// `n` times the character `c`.
pub open spec fn repeated(c: char, n: int) -> Seq<char> {
    Seq::new(n as nat, |i: int| c)
}

/// `s` right-aligned in `n` columns (unchanged if it is as wide already).
pub open spec fn pad_left(s: Seq<char>, n: int) -> Seq<char> {
    if s.len() < n {
        repeated(' ', n - s.len()) + s
    } else {
        s
    }
}

/// What starts a listed source line: a new line, then its number
/// right-aligned in `spacing` columns between bars.
pub open spec fn line_marker(line: int, spacing: int) -> Seq<char> {
    seq!['\n', '|', ' '] + pad_left(decimal(line as nat), spacing) + seq![' ', '|', ' ']
}

/// What continues a listed source line that is too wide: a new line with
/// an empty number column.
pub open spec fn wrap_marker(spacing: int) -> Seq<char> {
    seq!['\n', '|'] + repeated(' ', spacing + 2) + seq!['|', ' ']
}

/// How source lines are listed: which characters are highlighted (counted
/// in bytes of the text before), in what colour, how wide the number column
/// is, and where lines wrap.
pub struct ListingLayout {
    pub highlight_start: int,
    pub highlight_end: int,
    pub hue: Hue,
    pub spacing: int,
    pub width: int,
}

/// Where listing stands: the pieces so far, the column, and the number of
/// the next line.
pub struct ListingState {
    pub pieces: Seq<Piece>,
    pub x: int,
    pub line: int,
}

/// Listing character number `index`: a line marker before the first
/// character and at each newline; then the character itself, coloured if
/// it is highlighted, and a wrap marker where the line gets too wide.
pub open spec fn listing_step(s: ListingState, index: int, ch: char, lay: ListingLayout) -> ListingState {
    let start_x = lay.spacing + 5;
    let a = if ch == '\n' || index == 0 {
        ListingState {
            pieces: s.pieces.push(Piece::Painted(Hue::Blue, line_marker(s.line, lay.spacing))),
            x: start_x,
            line: s.line + 1,
        }
    } else {
        s
    };
    if ch == '\n' {
        a
    } else {
        let piece = if index < lay.highlight_start || index >= lay.highlight_end {
            Piece::Plain(seq![ch])
        } else {
            Piece::Painted(lay.hue, seq![ch])
        };
        if a.x + 1 >= lay.width {
            ListingState {
                pieces: a.pieces.push(piece).push(Piece::Painted(Hue::Blue, wrap_marker(lay.spacing))),
                x: start_x,
                line: a.line,
            }
        } else {
            ListingState { pieces: a.pieces.push(piece), x: a.x + 1, line: a.line }
        }
    }
}

/// The listing after the first `n` characters of `text`, whose first line
/// has number `first_line`.
pub open spec fn listing_fold(text: Seq<char>, n: int, lay: ListingLayout, first_line: int) -> ListingState
    decreases n,
{
    if n <= 0 {
        ListingState { pieces: seq![], x: lay.spacing + 5, line: first_line }
    } else {
        listing_step(listing_fold(text, n - 1, lay, first_line), n - 1, text[n - 1], lay)
    }
}

/// How many source lines start within the first `i` characters of listed
/// text: one at the very start, and one at each newline.
pub open spec fn lines_started(text: Seq<char>, i: int) -> int
    decreases i,
{
    if i <= 0 {
        0
    } else {
        lines_started(text, i - 1) + if i - 1 == 0 || text[i - 1] == '\n' {
            1int
        } else {
            0int
        }
    }
}

/// After `n` characters, the listing's line counter has gone up once per
/// source line started.
proof fn lemma_listing_line(text: Seq<char>, n: int, lay: ListingLayout, first_line: int)
    requires
        0 <= n <= text.len(),
    ensures
        listing_fold(text, n, lay, first_line).line == first_line + lines_started(text, n),
    decreases n,
{
    if n > 0 {
        lemma_listing_line(text, n - 1, lay, first_line);
    }
}

/// Law: in a listing, the source lines are numbered one after the other
/// from the first line's number: the marker put before character `i` (the
/// first character, or a newline) shows `first_line` plus the number of
/// source lines started before it.
pub proof fn lemma_listed_lines_are_numbered(
    text: Seq<char>,
    i: int,
    lay: ListingLayout,
    first_line: int,
)
    requires
        0 <= i < text.len(),
        i == 0 || text[i] == '\n',
    ensures
        listing_fold(text, i + 1, lay, first_line).pieces[listing_fold(
            text,
            i,
            lay,
            first_line,
        ).pieces.len() as int] == Piece::Painted(
            Hue::Blue,
            line_marker(first_line + lines_started(text, i), lay.spacing),
        ),
{
    lemma_listing_line(text, i, lay, first_line);
}

/// The part of a report for one remark: its kind and caption, a rule, the
/// source's name with line and column, a rule, the source lines the span
/// touches, and a closing rule.
pub open spec fn descriptor_pieces(
    d: ProblemDescriptor,
    width: int,
    sources: Seq<(String, String)>,
) -> Seq<Piece> {
    let ptype = d.spec_ptype();
    let position = d.spec_position();
    let name = sources[position.file as int].0@;
    let text = sources[position.file as int].1@;
    let g = grab_fold(text, text.len() as int, position.start_pos as int, position.end_pos as int);
    let spacing = decimal(g.line_number as nat).len() as int;
    let listed = g.prefix + g.highlighted + g.suffix;
    let lay = ListingLayout {
        highlight_start: utf8_len_of(g.prefix),
        highlight_end: utf8_len_of(g.prefix) + utf8_len_of(g.highlighted),
        hue: hue_of(ptype),
        spacing,
        width,
    };
    seq![
        Piece::Painted(hue_of(ptype), label_of(ptype)),
        Piece::Plain(wrapped(d.spec_caption(), width, 10)),
        Piece::Plain(seq!['\n']),
        Piece::Painted(Hue::Blue, repeated('-', width).push('\n')),
        Piece::Painted(Hue::Blue, seq!['|']),
        Piece::Plain(repeated(' ', spacing + 2)),
        Piece::Painted(Hue::Blue, seq!['|', ' ']),
        Piece::Plain(
            name + seq![':'] + decimal(g.line_number as nat) + seq![':'] + decimal(
                g.column_number as nat,
            ) + seq!['\n'],
        ),
        Piece::Painted(Hue::Blue, repeated('-', width)),
    ] + listing_fold(listed, listed.len() as int, lay, g.line_number).pieces + seq![
        Piece::Painted(Hue::Blue, seq!['\n'] + repeated('-', width) + seq!['\n', '\n']),
    ]
}

/// The pieces of a report on all the remarks, in order.
pub open spec fn report_pieces(
    ds: Seq<ProblemDescriptor>,
    width: int,
    sources: Seq<(String, String)>,
) -> Seq<Piece>
    decreases ds.len(),
{
    if ds.len() == 0 {
        seq![]
    } else {
        report_pieces(ds.drop_last(), width, sources) + descriptor_pieces(ds.last(), width, sources)
    }
}

/// Law: a remark added to a problem is reported after the ones it
/// already had, which are reported as before.
pub proof fn lemma_added_remark_is_reported_last(
    ds: Seq<ProblemDescriptor>,
    d: ProblemDescriptor,
    width: int,
    sources: Seq<(String, String)>,
)
    ensures
        report_pieces(ds.push(d), width, sources) == report_pieces(ds, width, sources)
            + descriptor_pieces(d, width, sources),
{
    assert(ds.push(d).drop_last() =~= ds);
}

/// The width a report is laid out to.
pub open spec fn report_width(width: Option<usize>) -> int {
    match width {
        Some(w) => w as int,
        None => FALLBACK_ERROR_WIDTH as int,
    }
}

/// The remark points into one of the sources, and its texts are small
/// enough for their byte and line counts to fit in a `usize`.
pub open spec fn reportable(d: ProblemDescriptor, sources: Seq<(String, String)>) -> bool {
    &&& d.spec_position().file < sources.len()
    &&& 10 + 5 * d.spec_caption().len() <= usize::MAX
    &&& 5 * sources[d.spec_position().file as int].1@.len() + 10 <= usize::MAX
}


/// Text without the escape character holds no reset sequence.
proof fn lemma_no_escape(s: Seq<char>)
    requires
        forall|i: int| 0 <= i < s.len() ==> s[i] != '\x1B',
    ensures
        !holds_reset(s),
{
    assert forall|i: int| 0 <= i && i + 4 <= s.len() implies #[trigger] s.subrange(i, i + 4)
        != reset_sequence() by {
        assert(s.subrange(i, i + 4)[0] == s[i]);
        assert(reset_sequence()[0] == '\x1B');
    }
}

/// Decimal digits hold no escape character, and there are at most one more
/// of them than the number.
proof fn lemma_decimal_digits(n: nat)
    ensures
        forall|i: int| 0 <= i < decimal(n).len() ==> decimal(n)[i] != '\x1B',
        1 <= decimal(n).len() <= n + 1,
    decreases n,
{
    if n >= 10 {
        lemma_decimal_digits(n / 10);
    }
}

/// `n` times the character `c`.
fn repeat_char(c: char, n: usize) -> (r: Vec<char>)
    ensures
        r@ == repeated(c, n as int),
{
    let mut v: Vec<char> = Vec::new();
    let mut i: usize = 0;
    while i < n
        invariant
            i <= n,
            v@ == repeated(c, i as int),
        decreases n - i,
    {
        v.push(c);
        i = i + 1;
        assert(v@ =~= repeated(c, i as int));
    }
    v
}

/// Appends the characters of `more`.
fn extend_chars(out: &mut Vec<char>, more: &Vec<char>)
    ensures
        final(out)@ == old(out)@ + more@,
{
    let mut i: usize = 0;
    while i < more.len()
        invariant
            i <= more@.len(),
            out@ == old(out)@ + more@.take(i as int),
        decreases more@.len() - i,
    {
        out.push(more[i]);
        i = i + 1;
        assert(out@ =~= old(out)@ + more@.take(i as int));
    }
    assert(more@.take(more@.len() as int) =~= more@);
}

/// The marker that starts listed line number `line`.
fn line_marker_text(line: usize, spacing: usize) -> (r: String)
    ensures
        r@ == line_marker(line as int, spacing as int),
{
    let mut digits: Vec<char> = Vec::new();
    push_decimal(&mut digits, line);
    assert(digits@ =~= decimal(line as nat));
    let mut v: Vec<char> = Vec::new();
    v.push('\n');
    v.push('|');
    v.push(' ');
    let ghost head = v@;
    if digits.len() < spacing {
        let pad = repeat_char(' ', spacing - digits.len());
        extend_chars(&mut v, &pad);
    }
    extend_chars(&mut v, &digits);
    assert(v@ =~= head + pad_left(decimal(line as nat), spacing as int));
    v.push(' ');
    v.push('|');
    v.push(' ');
    assert(v@ =~= line_marker(line as int, spacing as int));
    chars_to_string(&v)
}

/// The marker that continues a listed line that is too wide.
fn wrap_marker_text(spacing: usize) -> (r: String)
    requires
        spacing + 2 <= usize::MAX,
    ensures
        r@ == wrap_marker(spacing as int),
{
    let mut v: Vec<char> = Vec::new();
    v.push('\n');
    v.push('|');
    let pad = repeat_char(' ', spacing + 2);
    extend_chars(&mut v, &pad);
    v.push('|');
    v.push(' ');
    assert(v@ =~= wrap_marker(spacing as int));
    chars_to_string(&v)
}

/// How many bytes UTF-8 takes for the characters.
fn utf8_total(chars: &Vec<char>) -> (r: usize)
    requires
        4 * chars@.len() <= usize::MAX,
    ensures
        r == utf8_len_of(chars@),
        r <= 4 * chars@.len(),
{
    let mut total: usize = 0;
    let mut i: usize = 0;
    while i < chars.len()
        invariant
            i <= chars@.len(),
            4 * chars@.len() <= usize::MAX,
            total == utf8_len_of(chars@.take(i as int)),
            total <= 4 * i,
        decreases chars@.len() - i,
    {
        let c = chars[i];
        assert(chars@.take(i + 1).drop_last() =~= chars@.take(i as int));
        assert(chars@.take(i + 1).last() == c);
        total = total + char_utf8_len(c);
        i = i + 1;
    }
    assert(chars@.take(chars@.len() as int) =~= chars@);
    total
}

/// The colour a remark of this kind is shown in.
fn hue_for(ptype: ProblemType) -> (r: Hue)
    ensures
        r == hue_of(ptype),
{
    match ptype {
        ProblemType::Error => Hue::BrightRed,
        ProblemType::Warning => Hue::BrightYellow,
        ProblemType::Hint => Hue::BrightCyan,
    }
}

/// The word a remark of this kind starts with.
fn label_for(ptype: ProblemType) -> (r: &'static str)
    ensures
        r@ == label_of(ptype),
        !holds_reset(r@),
{
    proof {
        reveal_strlit("ERROR: ");
        reveal_strlit("WARNING: ");
        reveal_strlit("HINT: ");
        lemma_no_escape("ERROR: "@);
        lemma_no_escape("WARNING: "@);
        lemma_no_escape("HINT: "@);
    }
    match ptype {
        ProblemType::Error => "ERROR: ",
        ProblemType::Warning => "WARNING: ",
        ProblemType::Hint => "HINT: ",
    }
}


/// The markers of listed lines hold no reset sequence.
proof fn lemma_markers_clean(line: nat, spacing: int)
    ensures
        !holds_reset(line_marker(line as int, spacing)),
        !holds_reset(wrap_marker(spacing)),
{
    lemma_decimal_digits(line);
    let digits = decimal(line);
    let padded = pad_left(digits, spacing);
    assert forall|i: int| 0 <= i < padded.len() implies padded[i] != '\x1B' by {
        if digits.len() < spacing {
            if i >= spacing - digits.len() {
                assert(padded[i] == digits[i - (spacing - digits.len())]);
            }
        }
    }
    let m = line_marker(line as int, spacing);
    assert forall|i: int| 0 <= i < m.len() implies m[i] != '\x1B' by {
        if 3 <= i < 3 + padded.len() {
            assert(m[i] == padded[i - 3]);
        }
    }
    lemma_no_escape(m);
    let w = wrap_marker(spacing);
    assert forall|i: int| 0 <= i < w.len() implies w[i] != '\x1B' by {
    }
    lemma_no_escape(w);
}

/// Lists the characters of `listed`, the source lines a remark points at.
fn list_lines(
    canvas: &mut Canvas,
    listed: &Vec<char>,
    highlight_start: usize,
    highlight_end: usize,
    hue: Hue,
    spacing: usize,
    width: usize,
    first_line: usize,
)
    requires
        old(canvas).wf(),
        first_line + listed@.len() + 1 <= usize::MAX,
        spacing + 7 <= usize::MAX,
    ensures
        final(canvas).wf(),
        final(canvas).pieces@ == old(canvas).pieces@ + listing_fold(
            listed@,
            listed@.len() as int,
            ListingLayout {
                highlight_start: highlight_start as int,
                highlight_end: highlight_end as int,
                hue,
                spacing: spacing as int,
                width: width as int,
            },
            first_line as int,
        ).pieces,
{
    let ghost lay = ListingLayout {
        highlight_start: highlight_start as int,
        highlight_end: highlight_end as int,
        hue,
        spacing: spacing as int,
        width: width as int,
    };
    let ghost base = canvas.pieces@;
    let start_x = spacing + 5;
    let mut x = start_x;
    let mut line = first_line;
    let mut index: usize = 0;
    assert(base =~= base + listing_fold(listed@, 0, lay, first_line as int).pieces);
    while index < listed.len()
        invariant
            index <= listed@.len(),
            canvas.wf(),
            canvas.pieces@ == base + listing_fold(listed@, index as int, lay, first_line as int).pieces,
            x == listing_fold(listed@, index as int, lay, first_line as int).x,
            line == listing_fold(listed@, index as int, lay, first_line as int).line,
            x == start_x || x < width,
            line <= first_line + index,
            start_x == spacing + 5,
            first_line + listed@.len() + 1 <= usize::MAX,
            spacing + 7 <= usize::MAX,
            lay == (ListingLayout {
                highlight_start: highlight_start as int,
                highlight_end: highlight_end as int,
                hue,
                spacing: spacing as int,
                width: width as int,
            }),
        decreases listed@.len() - index,
    {
        let ch = listed[index];
        let ghost prev = listing_fold(listed@, index as int, lay, first_line as int);
        let ghost next = listing_step(prev, index as int, ch, lay);
        assert(listing_fold(listed@, index + 1, lay, first_line as int) == next);
        let ghost mid = if ch == '\n' || index == 0 {
            ListingState {
                pieces: prev.pieces.push(Piece::Painted(Hue::Blue, line_marker(prev.line, lay.spacing))),
                x: start_x as int,
                line: prev.line + 1,
            }
        } else {
            prev
        };
        if ch == '\n' || index == 0 {
            let marker = line_marker_text(line, spacing);
            proof {
                lemma_markers_clean(line as nat, spacing as int);
            }
            canvas.painted(Hue::Blue, marker.as_str());
            x = start_x;
            line = line + 1;
        }
        assert(canvas.pieces@ =~= base + mid.pieces);
        if ch != '\n' {
            if index < highlight_start || index >= highlight_end {
                canvas.plain_char(ch);
            } else {
                let one = vec![ch];
                let painted = chars_to_string(&one);
                assert(painted@ =~= seq![ch]);
                canvas.painted(hue, painted.as_str());
            }
            x = x + 1;
            if x >= width {
                let marker = wrap_marker_text(spacing);
                proof {
                    lemma_markers_clean(0, spacing as int);
                }
                canvas.painted(Hue::Blue, marker.as_str());
                x = start_x;
            }
        }
        assert(canvas.pieces@ =~= base + next.pieces);
        index = index + 1;
    }
}


/// Adds the part of a report for one remark.
fn describe_one(canvas: &mut Canvas, d: &ProblemDescriptor, width: usize, sources: &SourceSet)
    requires
        old(canvas).wf(),
        reportable(*d, sources.spec_sources()),
    ensures
        final(canvas).wf(),
        final(canvas).pieces@ == old(canvas).pieces@ + descriptor_pieces(
            *d,
            width as int,
            sources.spec_sources(),
        ),
{
    let ghost start = canvas.pieces@;
    let ghost srcs = sources.spec_sources();
    let ptype = d.ptype();
    let hue = hue_for(ptype);
    let position = d.position();
    let entries = sources.borrow_sources();
    let entry = &entries[position.file];
    let text = entry.1.as_str();
    let ghost name = srcs[position.file as int].0@;
    assert(entry.0@ == name);
    assert(text@ == srcs[position.file as int].1@);
    let ghost g = grab_fold(
        text@,
        text@.len() as int,
        position.start_pos as int,
        position.end_pos as int,
    );
    proof {
        lemma_grab_counters(
            text@,
            text@.len() as int,
            position.start_pos as int,
            position.end_pos as int,
        );
    }
    let grabbed = grab_text(text, &position);
    let mut digits: Vec<char> = Vec::new();
    push_decimal(&mut digits, grabbed.line_number);
    proof {
        lemma_decimal_digits(grabbed.line_number as nat);
        assert(digits@ =~= decimal(grabbed.line_number as nat));
    }
    let spacing = digits.len();
    let ghost top = seq![
        Piece::Painted(hue_of(ptype), label_of(ptype)),
        Piece::Plain(wrapped(d.spec_caption(), width as int, 10)),
        Piece::Plain(seq!['\n']),
        Piece::Painted(Hue::Blue, repeated('-', width as int).push('\n')),
        Piece::Painted(Hue::Blue, seq!['|']),
        Piece::Plain(repeated(' ', spacing + 2)),
        Piece::Painted(Hue::Blue, seq!['|', ' ']),
        Piece::Plain(
            name + seq![':'] + decimal(g.line_number as nat) + seq![':'] + decimal(
                g.column_number as nat,
            ) + seq!['\n'],
        ),
        Piece::Painted(Hue::Blue, repeated('-', width as int)),
    ];

    let label = label_for(ptype);
    canvas.painted(hue, label);
    assert(canvas.pieces@ =~= start + top.take(1));
    let caption = wrap_text(d.caption(), width, 10);
    canvas.plain(caption.as_str());
    assert(canvas.pieces@ =~= start + top.take(2));
    canvas.plain_char('\n');
    assert(canvas.pieces@ =~= start + top.take(3));

    let rule = repeat_char('-', width);
    let mut rule_line = repeat_char('-', width);
    rule_line.push('\n');
    let rule_line = chars_to_string(&rule_line);
    proof {
        lemma_no_escape(rule_line@);
    }
    canvas.painted(Hue::Blue, rule_line.as_str());
    assert(canvas.pieces@ =~= start + top.take(4));
    proof {
        reveal_strlit("|");
        reveal_strlit("| ");
        lemma_no_escape("|"@);
        lemma_no_escape("| "@);
        assert("|"@ =~= seq!['|']);
        assert("| "@ =~= seq!['|', ' ']);
    }
    canvas.painted(Hue::Blue, "|");
    assert(canvas.pieces@ =~= start + top.take(5));
    let spaces = chars_to_string(&repeat_char(' ', spacing + 2));
    canvas.plain(spaces.as_str());
    assert(canvas.pieces@ =~= start + top.take(6));
    canvas.painted(Hue::Blue, "| ");
    assert(canvas.pieces@ =~= start + top.take(7));
    let mut location: Vec<char> = Vec::new();
    push_str_chars(&mut location, entry.0.as_str());
    location.push(':');
    push_decimal(&mut location, grabbed.line_number);
    location.push(':');
    push_decimal(&mut location, grabbed.column_number);
    location.push('\n');
    assert(location@ =~= name + seq![':'] + decimal(g.line_number as nat) + seq![':'] + decimal(
        g.column_number as nat,
    ) + seq!['\n']);
    let location = chars_to_string(&location);
    canvas.plain(location.as_str());
    assert(canvas.pieces@ =~= start + top.take(8));
    let bare_rule = chars_to_string(&rule);
    proof {
        lemma_no_escape(bare_rule@);
    }
    canvas.painted(Hue::Blue, bare_rule.as_str());
    assert(top.take(9) =~= top);
    assert(canvas.pieces@ =~= start + top);

    let mut listed = string_chars(grabbed.prefix.as_str());
    let highlight_start = utf8_total(&listed);
    let highlighted = string_chars(grabbed.highlighted.as_str());
    let highlight_end = highlight_start + utf8_total(&highlighted);
    extend_chars(&mut listed, &highlighted);
    push_str_chars(&mut listed, grabbed.suffix.as_str());
    assert(listed@ =~= g.prefix + g.highlighted + g.suffix);
    list_lines(
        canvas,
        &listed,
        highlight_start,
        highlight_end,
        hue,
        spacing,
        width,
        grabbed.line_number,
    );

    let mut closing: Vec<char> = Vec::new();
    closing.push('\n');
    extend_chars(&mut closing, &rule);
    closing.push('\n');
    closing.push('\n');
    let closing = chars_to_string(&closing);
    proof {
        lemma_no_escape(closing@);
    }
    canvas.painted(Hue::Blue, closing.as_str());
    assert(closing@ =~= seq!['\n'] + repeated('-', width as int) + seq!['\n', '\n']);
    assert(canvas.pieces@ =~= start + descriptor_pieces(*d, width as int, sources.spec_sources()));
}

impl CompileProblem {
    /// The report on this problem, laid out `width` columns wide (60 if
    /// unknown): for each remark, its kind and caption, then the source
    /// lines it points at, numbered, with the span coloured.
    pub fn format(&self, width: Option<usize>, sources: &SourceSet) -> (r: String)
        requires
            forall|i: int|
                0 <= i < self.spec_descriptors().len() ==> reportable(
                    #[trigger] self.spec_descriptors()[i],
                    sources.spec_sources(),
                ),
        ensures
            renders(
                r@,
                report_pieces(self.spec_descriptors(), report_width(width), sources.spec_sources()),
            ),
    {
        let width_used = match width {
            Some(w) => w,
            None => FALLBACK_ERROR_WIDTH,
        };
        let descriptors = self.borrow_descriptors();
        let mut canvas = Canvas::new();
        let mut k: usize = 0;
        while k < descriptors.len()
            invariant
                k <= descriptors@.len(),
                descriptors@ == self.spec_descriptors(),
                width_used == report_width(width),
                forall|i: int|
                    0 <= i < self.spec_descriptors().len() ==> reportable(
                        #[trigger] self.spec_descriptors()[i],
                        sources.spec_sources(),
                    ),
                canvas.wf(),
                canvas.pieces@ == report_pieces(
                    descriptors@.take(k as int),
                    width_used as int,
                    sources.spec_sources(),
                ),
            decreases descriptors@.len() - k,
        {
            describe_one(&mut canvas, &descriptors[k], width_used, sources);
            assert(descriptors@.take(k + 1).drop_last() =~= descriptors@.take(k as int));
            k = k + 1;
        }
        assert(descriptors@.take(descriptors@.len() as int) =~= descriptors@);
        canvas.finish()
    }
}

/// A report under construction: the characters so far, and the pieces
/// they show.
struct Canvas {
    out: Vec<char>,
    chunks: Ghost<Seq<Seq<char>>>,
    pieces: Ghost<Seq<Piece>>,
}

impl Canvas {
    spec fn wf(&self) -> bool {
        &&& self.chunks@.len() == self.pieces@.len()
        &&& forall|i: int| 0 <= i < self.pieces@.len() ==> shown(#[trigger] self.chunks@[i], self.pieces@[i])
        &&& self.out@ == joined(self.chunks@)
    }

    fn new() -> (r: Canvas)
        ensures
            r.wf(),
            r.pieces@ == Seq::<Piece>::empty(),
    {
        Canvas { out: Vec::new(), chunks: Ghost(Seq::empty()), pieces: Ghost(Seq::empty()) }
    }

    proof fn lemma_extend(&self, chunk: Seq<char>, piece: Piece)
        requires
            self.wf(),
            shown(chunk, piece),
        ensures
            joined(self.chunks@.push(chunk)) == self.out@ + chunk,
            forall|i: int|
                0 <= i < self.pieces@.len() + 1 ==> shown(
                    #[trigger] self.chunks@.push(chunk)[i],
                    self.pieces@.push(piece)[i],
                ),
    {
        assert(self.chunks@.push(chunk).drop_last() =~= self.chunks@);
        assert forall|i: int| 0 <= i < self.pieces@.len() + 1 implies shown(
            #[trigger] self.chunks@.push(chunk)[i],
            self.pieces@.push(piece)[i],
        ) by {
            if i < self.pieces@.len() {
                assert(self.chunks@.push(chunk)[i] == self.chunks@[i]);
                assert(self.pieces@.push(piece)[i] == self.pieces@[i]);
            }
        }
    }

    /// Adds text shown as it is.
    fn plain(&mut self, text: &str)
        requires
            old(self).wf(),
        ensures
            final(self).wf(),
            final(self).pieces@ == old(self).pieces@.push(Piece::Plain(text@)),
    {
        proof {
            self.lemma_extend(text@, Piece::Plain(text@));
        }
        push_str_chars(&mut self.out, text);
        self.chunks = Ghost(self.chunks@.push(text@));
        self.pieces = Ghost(self.pieces@.push(Piece::Plain(text@)));
    }

    /// Adds one character shown as it is.
    fn plain_char(&mut self, ch: char)
        requires
            old(self).wf(),
        ensures
            final(self).wf(),
            final(self).pieces@ == old(self).pieces@.push(Piece::Plain(seq![ch])),
    {
        proof {
            self.lemma_extend(seq![ch], Piece::Plain(seq![ch]));
        }
        let ghost before = self.out@;
        self.out.push(ch);
        assert(self.out@ =~= before + seq![ch]);
        self.chunks = Ghost(self.chunks@.push(seq![ch]));
        self.pieces = Ghost(self.pieces@.push(Piece::Plain(seq![ch])));
    }

    /// Adds text painted in `hue`.
    fn painted(&mut self, hue: Hue, text: &str)
        requires
            old(self).wf(),
            !holds_reset(text@),
        ensures
            final(self).wf(),
            final(self).pieces@ == old(self).pieces@.push(Piece::Painted(hue, text@)),
    {
        let shown_text = match hue {
            Hue::Blue => paint_blue(text),
            Hue::BrightRed => paint_bright_red(text),
            Hue::BrightYellow => paint_bright_yellow(text),
            Hue::BrightCyan => paint_bright_cyan(text),
        };
        proof {
            self.lemma_extend(shown_text@, Piece::Painted(hue, text@));
        }
        push_str_chars(&mut self.out, shown_text.as_str());
        self.chunks = Ghost(self.chunks@.push(shown_text@));
        self.pieces = Ghost(self.pieces@.push(Piece::Painted(hue, text@)));
    }

    /// The finished report.
    fn finish(self) -> (r: String)
        requires
            self.wf(),
        ensures
            renders(r@, self.pieces@),
    {
        let r = chars_to_string(&self.out);
        assert(forall|i: int| 0 <= i < self.pieces@.len() ==> shown(#[trigger] self.chunks@[i], self.pieces@[i]));
        r
    }
}

} // verus!
