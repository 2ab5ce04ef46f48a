//! Text helpers for laying out problem reports.
use vstd::prelude::*;
use vstd::std_specs::iter::IteratorSpec;

verus! {

broadcast use vstd::string::group_string_axioms;

/// The characters of a string.
pub fn string_chars(s: &str) -> (r: Vec<char>)
    ensures
        r@ == s@,
{
    let mut chars: Vec<char> = Vec::new();
    let mut it = s.chars();
    let ghost total = it.remaining();
    assert(total == s@);
    loop
        invariant
            total == s@,
            chars@ + it.remaining() == total,
            it.obeys_prophetic_iter_laws(),
            it.decrease() is Some,
        decreases it.decrease()->0,
    {
        match it.next() {
            Some(c) => {
                chars.push(c);
                assert(chars@ + it.remaining() =~= total);
            },
            None => {
                assert(chars@ =~= total);
                return chars;
            },
        }
    }
}

/// `String::from_iter`: the string made of exactly these characters, in
/// order.
#[verifier::external_body]
pub(crate) fn chars_to_string(chars: &Vec<char>) -> (r: String)
    ensures
        r@ == chars@,
{
    String::from_iter(chars.iter())
}

/// How many bytes UTF-8 takes for the character.
pub open spec fn utf8_len(c: char) -> int {
    if (c as u32) < 0x80 {
        1
    } else if (c as u32) < 0x800 {
        2
    } else if (c as u32) < 0x10000 {
        3
    } else {
        4
    }
}

/// How many bytes UTF-8 takes for the characters.
pub open spec fn utf8_len_of(s: Seq<char>) -> int
    decreases s.len(),
{
    if s.len() == 0 {
        0
    } else {
        utf8_len_of(s.drop_last()) + utf8_len(s.last())
    }
}

pub(crate) fn char_utf8_len(c: char) -> (r: usize)
    ensures
        r == utf8_len(c),
{
    let v = c as u32;
    if v < 0x80 {
        1
    } else if v < 0x800 {
        2
    } else if v < 0x10000 {
        3
    } else {
        4
    }
}

/// Where word wrapping stands after some characters: the text written, the
/// word being read, and how many bytes the current line holds.
pub struct WrapState {
    pub output: Seq<char>,
    pub word: Seq<char>,
    pub line: int,
}

/// Reading one more character: a space ends a word, which goes on a new
/// line if it would make the current one longer than `width`; a newline
/// ends the word and the line.
pub open spec fn wrap_step(s: WrapState, c: char, width: int) -> WrapState {
    if c == ' ' {
        let length = utf8_len_of(s.word);
        let breaks = s.line + length > width;
        let output = if breaks {
            s.output.push('\n')
        } else {
            s.output
        };
        let line = if breaks {
            0
        } else {
            s.line
        };
        WrapState { output: output + s.word.push(' '), word: seq![], line: line + length + 1 }
    } else if c == '\n' {
        WrapState { output: s.output + s.word.push('\n'), word: seq![], line: 0 }
    } else {
        WrapState { output: s.output, word: s.word.push(c), line: s.line }
    }
}

pub open spec fn wrap_fold(input: Seq<char>, width: int, offset: int) -> WrapState
    decreases input.len(),
{
    if input.len() == 0 {
        WrapState { output: seq![], word: seq![], line: offset }
    } else {
        wrap_step(wrap_fold(input.drop_last(), width, offset), input.last(), width)
    }
}

/// The text wrapped to lines of at most `width` bytes, the first line
/// already holding `offset` bytes; a word longer than a line stays whole.
pub open spec fn wrapped(input: Seq<char>, width: int, offset: int) -> Seq<char> {
    let s = wrap_fold(input, width, offset);
    if s.word.len() > 0 {
        (if s.line + utf8_len_of(s.word) > width {
            s.output.push('\n')
        } else {
            s.output
        }) + s.word
    } else {
        s.output
    }
}

/// The characters other than newlines.
pub open spec fn without_newlines(s: Seq<char>) -> Seq<char>
    decreases s.len(),
{
    if s.len() == 0 {
        seq![]
    } else if s.last() == '\n' {
        without_newlines(s.drop_last())
    } else {
        without_newlines(s.drop_last()).push(s.last())
    }
}

proof fn lemma_without_newlines_append(a: Seq<char>, b: Seq<char>)
    ensures
        without_newlines(a + b) == without_newlines(a) + without_newlines(b),
    decreases b.len(),
{
    if b.len() == 0 {
        assert(a + b =~= a);
        assert(without_newlines(a) + without_newlines(b) =~= without_newlines(a));
    } else {
        lemma_without_newlines_append(a, b.drop_last());
        assert((a + b).drop_last() =~= a + b.drop_last());
        assert((a + b).last() == b.last());
        if b.last() != '\n' {
            assert(without_newlines(a) + without_newlines(b.drop_last()).push(b.last()) =~= (
            without_newlines(a) + without_newlines(b.drop_last())).push(b.last()));
        }
    }
}

proof fn lemma_without_newlines_single(c: char)
    ensures
        without_newlines(seq![c]) == if c == '\n' {
            Seq::<char>::empty()
        } else {
            seq![c]
        },
{
    let s = seq![c];
    assert(s.drop_last() =~= Seq::<char>::empty());
    assert(s.last() == c);
    assert(without_newlines(Seq::<char>::empty()) == Seq::<char>::empty());
    assert(Seq::<char>::empty().push(c) =~= s);
}

proof fn lemma_wrap_fold_keeps_text(input: Seq<char>, width: int, offset: int)
    ensures
        without_newlines(wrap_fold(input, width, offset).output) + without_newlines(
            wrap_fold(input, width, offset).word,
        ) == without_newlines(input),
    decreases input.len(),
{
    if input.len() == 0 {
        assert(without_newlines(Seq::<char>::empty()) == Seq::<char>::empty());
        assert(Seq::<char>::empty() + Seq::<char>::empty() =~= Seq::<char>::empty());
    } else {
        let before = wrap_fold(input.drop_last(), width, offset);
        let after = wrap_fold(input, width, offset);
        lemma_wrap_fold_keeps_text(input.drop_last(), width, offset);
        let c = input.last();
        let wo = without_newlines(before.output);
        let ww = without_newlines(before.word);
        let wi = without_newlines(input.drop_last());
        assert(wo + ww == wi);
        lemma_without_newlines_single(c);
        lemma_without_newlines_single('\n');
        lemma_without_newlines_single(' ');
        lemma_without_newlines_append(before.word, seq![c]);
        assert(before.word.push(c) =~= before.word + seq![c]);
        if c == ' ' {
            let out0 = if before.line + utf8_len_of(before.word) > width {
                before.output.push('\n')
            } else {
                before.output
            };
            lemma_without_newlines_append(before.output, seq!['\n']);
            assert(before.output.push('\n') =~= before.output + seq!['\n']);
            assert(without_newlines(out0) == wo);
            lemma_without_newlines_append(out0, before.word.push(' '));
            assert(after.output == out0 + before.word.push(' '));
            assert(after.word =~= Seq::<char>::empty());
            assert(without_newlines(after.output) + without_newlines(after.word) =~= wo + (ww
                + seq![' ']));
            assert(without_newlines(input) == wi.push(' '));
            assert(wo + (ww + seq![' ']) =~= (wo + ww).push(' '));
        } else if c == '\n' {
            lemma_without_newlines_append(before.output, before.word.push('\n'));
            assert(after.word =~= Seq::<char>::empty());
            assert(without_newlines(after.output) + without_newlines(after.word) =~= wo + ww);
            assert(without_newlines(input) == wi);
        } else {
            assert(after.output == before.output);
            assert(after.word == before.word.push(c));
            assert(without_newlines(input) == wi.push(c));
            assert(wo + (ww + seq![c]) =~= (wo + ww).push(c));
        }
    }
}

/// Wrapping only adds line breaks: without its newlines, the wrapped text
/// is the original text without its newlines.
pub proof fn lemma_wrapping_keeps_text(input: Seq<char>, width: int, offset: int)
    ensures
        without_newlines(wrapped(input, width, offset)) == without_newlines(input),
{
    let s = wrap_fold(input, width, offset);
    lemma_wrap_fold_keeps_text(input, width, offset);
    lemma_without_newlines_single('\n');
    lemma_without_newlines_append(s.output, seq!['\n']);
    assert(s.output.push('\n') =~= s.output + seq!['\n']);
    lemma_without_newlines_append(s.output, s.word);
    lemma_without_newlines_append(s.output.push('\n'), s.word);
    if s.word.len() == 0 {
        assert(without_newlines(s.word) == Seq::<char>::empty());
        assert(without_newlines(s.output) + without_newlines(s.word) =~= without_newlines(s.output));
    } else {
        assert(without_newlines(s.output) + Seq::<char>::empty() =~= without_newlines(s.output));
    }
}

/// Wraps `input` to lines of at most `width` bytes, the first line already
/// holding `offset` bytes. Lines break only at spaces; a newline in the
/// input starts a new line.
pub fn wrap_text(input: &str, width: usize, offset: usize) -> (r: String)
    requires
        offset + 5 * input@.len() <= usize::MAX,
    ensures
        r@ == wrapped(input@, width as int, offset as int),
{
    let chars = string_chars(input);
    let mut output: Vec<char> = Vec::new();
    let mut word: Vec<char> = Vec::new();
    let mut word_length: usize = 0;
    let mut line_length: usize = offset;
    let mut k: usize = 0;
    while k < chars.len()
        invariant
            k <= chars@.len(),
            chars@ == input@,
            offset + 5 * input@.len() <= usize::MAX,
            output@ == wrap_fold(chars@.take(k as int), width as int, offset as int).output,
            word@ == wrap_fold(chars@.take(k as int), width as int, offset as int).word,
            line_length == wrap_fold(chars@.take(k as int), width as int, offset as int).line,
            word_length == utf8_len_of(word@),
            line_length + word_length <= offset + 5 * k,
        decreases chars@.len() - k,
    {
        let ch = chars[k];
        assert(chars@.take(k + 1).drop_last() =~= chars@.take(k as int));
        if ch == ' ' {
            if line_length + word_length > width {
                output.push('\n');
                line_length = 0;
            }
            line_length = line_length + word_length + 1;
            let mut i: usize = 0;
            let ghost before = output@;
            while i < word.len()
                invariant
                    i <= word@.len(),
                    output@ == before + word@.take(i as int),
                decreases word@.len() - i,
            {
                output.push(word[i]);
                i = i + 1;
                assert(output@ =~= before + word@.take(i as int));
            }
            assert(word@.take(word@.len() as int) =~= word@);
            output.push(' ');
            assert(output@ =~= before + word@.push(' '));
            word = Vec::new();
            word_length = 0;
        } else if ch == '\n' {
            let mut i: usize = 0;
            let ghost before = output@;
            while i < word.len()
                invariant
                    i <= word@.len(),
                    output@ == before + word@.take(i as int),
                decreases word@.len() - i,
            {
                output.push(word[i]);
                i = i + 1;
                assert(output@ =~= before + word@.take(i as int));
            }
            assert(word@.take(word@.len() as int) =~= word@);
            output.push('\n');
            assert(output@ =~= before + word@.push('\n'));
            word = Vec::new();
            word_length = 0;
            line_length = 0;
        } else {
            let length = char_utf8_len(ch);
            let ghost prev_word = word@;
            word.push(ch);
            assert(word@.drop_last() =~= prev_word);
            word_length = word_length + length;
        }
        k = k + 1;
    }
    assert(chars@.take(chars@.len() as int) =~= chars@);
    if word.len() > 0 {
        if line_length + word_length > width {
            output.push('\n');
        }
        let mut i: usize = 0;
        let ghost before = output@;
        while i < word.len()
            invariant
                i <= word@.len(),
                output@ == before + word@.take(i as int),
            decreases word@.len() - i,
        {
            output.push(word[i]);
            i = i + 1;
            assert(output@ =~= before + word@.take(i as int));
        }
        assert(word@.take(word@.len() as int) =~= word@);
    }
    chars_to_string(&output)
}

/// The decimal digit for `d` (below 10).
pub open spec fn digit_char(d: int) -> char {
    ((48 + d) as u8) as char
}

/// The decimal digits of `n`, most significant first.
pub open spec fn decimal(n: nat) -> Seq<char>
    decreases n,
{
    if n < 10 {
        seq![digit_char(n as int)]
    } else {
        decimal(n / 10).push(digit_char((n % 10) as int))
    }
}

/// The number that a string of decimal digits stands for.
pub open spec fn digits_value(s: Seq<char>) -> int
    decreases s.len(),
{
    if s.len() == 0 {
        0
    } else {
        digits_value(s.drop_last()) * 10 + (s.last() as int - 48)
    }
}

/// Law: the decimal digits of a number read back as that number, and each
/// of them is a digit character.
pub proof fn lemma_decimal_reads_back(n: nat)
    ensures
        digits_value(decimal(n)) == n,
        forall|i: int| 0 <= i < decimal(n).len() ==> '0' <= #[trigger] decimal(n)[i] <= '9',
    decreases n,
{
    let d = (n % 10) as int;
    let b = (48 + d) as u8;
    assert(b as int == 48 + d);
    assert((b as char) as int == b as int);
    if n >= 10 {
        lemma_decimal_reads_back(n / 10);
        assert(decimal(n).drop_last() =~= decimal(n / 10));
        assert(decimal(n).last() == digit_char(d));
        assert((n / 10) * 10 + n % 10 == n);
        assert(digits_value(decimal(n)) == digits_value(decimal(n / 10)) * 10 + d);
    } else {
        assert(d == n);
        assert(decimal(n).drop_last() =~= Seq::<char>::empty());
        assert(decimal(n).last() == digit_char(d));
        assert(digits_value(Seq::<char>::empty()) == 0);
        assert(digit_char(d) as int == 48 + d);
        assert(decimal(n).len() == 1);
        assert(digits_value(decimal(n)) == digits_value(decimal(n).drop_last()) * 10 + (decimal(
            n,
        ).last() as int - 48));
    }
}

/// Appends the decimal digits of `n`.
pub fn push_decimal(out: &mut Vec<char>, n: usize)
    ensures
        final(out)@ == old(out)@ + decimal(n as nat),
    decreases n,
{
    if n >= 10 {
        push_decimal(out, n / 10);
    }
    let d = (n % 10) as u8;
    let ghost before = out@;
    out.push((48u8 + d) as char);
    if n < 10 {
        assert(out@ =~= old(out)@ + decimal(n as nat));
    } else {
        assert(out@ =~= old(out)@ + decimal(n as nat));
    }
}

/// Appends the decimal digits of a wide number.
pub fn push_decimal_u128(out: &mut Vec<char>, n: u128)
    ensures
        final(out)@ == old(out)@ + decimal(n as nat),
    decreases n,
{
    if n >= 10 {
        push_decimal_u128(out, n / 10);
    }
    let d = (n % 10) as u8;
    out.push((48u8 + d) as char);
    assert(out@ =~= old(out)@ + decimal(n as nat));
}

/// Appends the characters of `text`.
pub fn push_str_chars(out: &mut Vec<char>, text: &str)
    ensures
        final(out)@ == old(out)@ + text@,
{
    let chars = string_chars(text);
    let mut i: usize = 0;
    while i < chars.len()
        invariant
            i <= chars@.len(),
            out@ == old(out)@ + chars@.take(i as int),
        decreases chars@.len() - i,
    {
        out.push(chars[i]);
        i = i + 1;
        assert(out@ =~= old(out)@ + chars@.take(i as int));
    }
    assert(chars@.take(chars@.len() as int) =~= chars@);
}

} // verus!
