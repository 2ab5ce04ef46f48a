//! Reading integer literals and operator tokens.
use vstd::prelude::*;
use vstd::string::StringSliceAdditionalSpecFns;

use crate::resolved::structure::expression::{binary_symbol, BinaryOperator};

verus! {

/// The bytes with every underscore (`_`) removed.
pub open spec fn strip_underscores(s: Seq<u8>) -> Seq<u8>
    decreases s.len(),
{
    if s.len() == 0 {
        seq![]
    } else {
        let rest = strip_underscores(s.drop_last());
        if s.last() == 95 {
            rest
        } else {
            rest.push(s.last())
        }
    }
}

/// The value of an ASCII digit or letter as a digit (`a` and `A` are 10);
/// 36 for anything else.
pub open spec fn digit_value(b: u8) -> int {
    if 48 <= b <= 57 {
        b - 48
    } else if 97 <= b <= 122 {
        b - 97 + 10
    } else if 65 <= b <= 90 {
        b - 65 + 10
    } else {
        36
    }
}

/// Every byte is a digit of the radix.
pub open spec fn all_digits(s: Seq<u8>, radix: int) -> bool {
    forall|i: int| 0 <= i < s.len() ==> #[trigger] digit_value(s[i]) < radix
}

/// The number the digits spell, most significant first.
pub open spec fn digits_value(s: Seq<u8>, radix: int) -> int
    decreases s.len(),
{
    if s.len() == 0 {
        0
    } else {
        digits_value(s.drop_last(), radix) * radix + digit_value(s.last())
    }
}

/// The `i64` that `i64::from_str_radix` reads from the bytes: an optional
/// sign, then at least one digit of the radix; `None` when it reports an
/// error (no digits, a byte that is not a digit, a value out of range).
pub open spec fn parse_radix(s: Seq<u8>, radix: int) -> Option<i64> {
    let signed = s.len() > 0 && (s[0] == 43 || s[0] == 45);
    let negative = s.len() > 0 && s[0] == 45;
    let digits = if signed {
        s.skip(1)
    } else {
        s
    };
    if digits.len() == 0 || !all_digits(digits, radix) {
        None
    } else {
        let value = if negative {
            -digits_value(digits, radix)
        } else {
            digits_value(digits, radix)
        };
        if i64::MIN <= value <= i64::MAX {
            Some(value as i64)
        } else {
            None
        }
    }
}

proof fn lemma_digits_value_bounds(s: Seq<u8>, radix: int, k: int)
    requires
        2 <= radix <= 36,
        all_digits(s, radix),
        0 <= k <= s.len(),
    ensures
        0 <= digits_value(s.take(k), radix) <= digits_value(s, radix),
    decreases s.len(),
{
    if s.len() > 0 {
        let prefix = s.drop_last();
        assert(all_digits(prefix, radix)) by {
            assert forall|i: int| 0 <= i < prefix.len() implies #[trigger] digit_value(prefix[i])
                < radix by {
                assert(prefix[i] == s[i]);
            }
        }
        let d = digit_value(s.last());
        assert(d < radix) by {
            assert(digit_value(s[s.len() - 1]) < radix);
        }
        if k < s.len() {
            lemma_digits_value_bounds(prefix, radix, k);
            assert(prefix.take(k) =~= s.take(k));
        } else {
            lemma_digits_value_bounds(prefix, radix, prefix.len() as int);
            assert(s.take(k) =~= s);
            assert(prefix.take(prefix.len() as int) =~= prefix);
        }
        let v = digits_value(prefix, radix);
        assert(v * radix + d >= v) by (nonlinear_arith)
            requires
                v >= 0,
                radix >= 2,
                d >= 0,
        ;
    } else {
        assert(s.take(k) =~= s);
    }
}

/// The value of `bytes[start..]` read as a number in the radix.
fn parse_radix_from(bytes: &Vec<u8>, start: usize, radix: u32) -> (r: i64)
    requires
        2 <= radix <= 36,
        start <= bytes@.len(),
        parse_radix(bytes@.skip(start as int), radix as int) is Some,
    ensures
        r == parse_radix(bytes@.skip(start as int), radix as int)->Some_0,
{
    let ghost s = bytes@.skip(start as int);
    let mut k = start;
    let mut negative = false;
    if k < bytes.len() && (bytes[k] == 43 || bytes[k] == 45) {
        negative = bytes[k] == 45;
        k = k + 1;
    }
    let ghost digits = bytes@.skip(k as int);
    assert(digits =~= if s.len() > 0 && (s[0] == 43 || s[0] == 45) {
        s.skip(1)
    } else {
        s
    });
    let mut magnitude: u64 = 0;
    let mut i = k;
    while i < bytes.len()
        invariant
            k <= i <= bytes@.len(),
            digits == bytes@.skip(k as int),
            2 <= radix <= 36,
            all_digits(digits, radix as int),
            digits_value(digits, radix as int) <= 0x8000_0000_0000_0000,
            magnitude == digits_value(digits.take(i - k), radix as int),
        decreases bytes@.len() - i,
    {
        let b = bytes[i];
        let d: u64 = if 48 <= b && b <= 57 {
            (b - 48) as u64
        } else if 97 <= b && b <= 122 {
            (b - 97 + 10) as u64
        } else {
            (b - 65 + 10) as u64
        };
        proof {
            assert(digits[i - k] == b);
            assert(digit_value(digits[i - k]) < radix);
            assert(digits.take(i - k + 1).drop_last() =~= digits.take(i - k));
            lemma_digits_value_bounds(digits, radix as int, i - k + 1);
        }
        magnitude = magnitude * (radix as u64) + d;
        i = i + 1;
    }
    assert(digits.take(digits.len() as int) =~= digits);
    if negative {
        if magnitude == 0x8000_0000_0000_0000 {
            i64::MIN
        } else {
            -(magnitude as i64)
        }
    } else {
        magnitude as i64
    }
}

/// The bytes of `input` without underscores.
fn without_underscores(input: &str) -> (r: Vec<u8>)
    ensures
        r@ == strip_underscores(input.spec_bytes()),
{
    let bytes = input.as_bytes();
    let mut stripped: Vec<u8> = Vec::new();
    let mut i: usize = 0;
    while i < bytes.len()
        invariant
            i <= bytes@.len(),
            bytes@ == input.spec_bytes(),
            stripped@ == strip_underscores(bytes@.take(i as int)),
        decreases bytes@.len() - i,
    {
        assert(bytes@.take(i + 1).drop_last() =~= bytes@.take(i as int));
        if bytes[i] != 95 {
            stripped.push(bytes[i]);
        }
        i = i + 1;
    }
    assert(bytes@.take(bytes@.len() as int) =~= bytes@);
    stripped
}

/// A decimal literal; underscores separate digits.
pub fn parse_dec_int(input: &str) -> (r: i64)
    requires
        parse_radix(strip_underscores(input.spec_bytes()), 10) is Some,
    ensures
        r == parse_radix(strip_underscores(input.spec_bytes()), 10)->Some_0,
{
    let stripped = without_underscores(input);
    assert(stripped@.skip(0) =~= stripped@);
    parse_radix_from(&stripped, 0, 10)
}

/// A hexadecimal literal; the first two characters (`0x`) are skipped.
pub fn parse_hex_int(input: &str) -> (r: i64)
    requires
        strip_underscores(input.spec_bytes()).len() >= 2,
        parse_radix(strip_underscores(input.spec_bytes()).skip(2), 16) is Some,
    ensures
        r == parse_radix(strip_underscores(input.spec_bytes()).skip(2), 16)->Some_0,
{
    let stripped = without_underscores(input);
    parse_radix_from(&stripped, 2, 16)
}

/// An octal literal; the first two characters (`0o`) are skipped.
pub fn parse_oct_int(input: &str) -> (r: i64)
    requires
        strip_underscores(input.spec_bytes()).len() >= 2,
        parse_radix(strip_underscores(input.spec_bytes()).skip(2), 8) is Some,
    ensures
        r == parse_radix(strip_underscores(input.spec_bytes()).skip(2), 8)->Some_0,
{
    let stripped = without_underscores(input);
    parse_radix_from(&stripped, 2, 8)
}

/// A C-style octal literal; the leading `0` is skipped.
pub fn parse_legacy_oct_int(input: &str) -> (r: i64)
    requires
        strip_underscores(input.spec_bytes()).len() >= 1,
        parse_radix(strip_underscores(input.spec_bytes()).skip(1), 8) is Some,
    ensures
        r == parse_radix(strip_underscores(input.spec_bytes()).skip(1), 8)->Some_0,
{
    let stripped = without_underscores(input);
    parse_radix_from(&stripped, 1, 8)
}

/// A binary literal; the first two characters (`0b`) are skipped.
pub fn parse_bin_int(input: &str) -> (r: i64)
    requires
        strip_underscores(input.spec_bytes()).len() >= 2,
        parse_radix(strip_underscores(input.spec_bytes()).skip(2), 2) is Some,
    ensures
        r == parse_radix(strip_underscores(input.spec_bytes()).skip(2), 2)->Some_0,
{
    let stripped = without_underscores(input);
    parse_radix_from(&stripped, 2, 2)
}

/// A binary operator of the expression grammar.
#[derive(Clone, Copy, Debug, PartialEq, Eq, Structural)]
pub struct Operator {
    pub id: u32,
    pub precedence: u32,
    pub left_assoc: bool,
}

/// Whether `token` is the single byte `a`.
fn token_is1(token: &[u8], a: u8) -> (r: bool)
    ensures
        r == (token@ == seq![a]),
{
    let r = token.len() == 1 && token[0] == a;
    if r {
        assert(token@ =~= seq![a]);
    }
    r
}

/// Whether `token` is the bytes `a b`.
fn token_is2(token: &[u8], a: u8, b: u8) -> (r: bool)
    ensures
        r == (token@ == seq![a, b]),
{
    let r = token.len() == 2 && token[0] == a && token[1] == b;
    if r {
        assert(token@ =~= seq![a, b]);
    }
    r
}

/// Whether `token` is the bytes `a b c`.
fn token_is3(token: &[u8], a: u8, b: u8, c: u8) -> (r: bool)
    ensures
        r == (token@ == seq![a, b, c]),
{
    let r = token.len() == 3 && token[0] == a && token[1] == b && token[2] == c;
    if r {
        assert(token@ =~= seq![a, b, c]);
    }
    r
}

/// Whether `token` is the bytes `a b c d`.
fn token_is4(token: &[u8], a: u8, b: u8, c: u8, d: u8) -> (r: bool)
    ensures
        r == (token@ == seq![a, b, c, d]),
{
    let r = token.len() == 4 && token[0] == a && token[1] == b && token[2] == c && token[3] == d;
    if r {
        assert(token@ =~= seq![a, b, c, d]);
    }
    r
}

/// The operator a token names, if any: its id, its precedence (higher
/// binds tighter) and whether it associates to the left.
pub open spec fn operator_for(token: Seq<u8>) -> Option<Operator> {
    if token == seq![42u8, 42u8] {
        Some(Operator { id: 7, precedence: 19, left_assoc: false })
    } else if token == seq![43u8] {
        Some(Operator { id: 1, precedence: 17, left_assoc: true })
    } else if token == seq![45u8] {
        Some(Operator { id: 2, precedence: 17, left_assoc: true })
    } else if token == seq![42u8] {
        Some(Operator { id: 3, precedence: 18, left_assoc: true })
    } else if token == seq![47u8] {
        Some(Operator { id: 4, precedence: 18, left_assoc: true })
    } else if token == seq![47u8, 47u8] {
        Some(Operator { id: 5, precedence: 18, left_assoc: true })
    } else if token == seq![37u8] {
        Some(Operator { id: 6, precedence: 18, left_assoc: true })
    } else if token == seq![60u8, 61u8] {
        Some(Operator { id: 8, precedence: 16, left_assoc: true })
    } else if token == seq![60u8] {
        Some(Operator { id: 9, precedence: 16, left_assoc: true })
    } else if token == seq![62u8, 61u8] {
        Some(Operator { id: 10, precedence: 16, left_assoc: true })
    } else if token == seq![62u8] {
        Some(Operator { id: 11, precedence: 16, left_assoc: true })
    } else if token == seq![61u8, 61u8] {
        Some(Operator { id: 12, precedence: 15, left_assoc: true })
    } else if token == seq![33u8, 61u8] {
        Some(Operator { id: 13, precedence: 15, left_assoc: true })
    } else if token == seq![98u8, 97u8, 110u8, 100u8] {
        Some(Operator { id: 14, precedence: 14, left_assoc: true })
    } else if token == seq![98u8, 120u8, 111u8, 114u8] {
        Some(Operator { id: 15, precedence: 13, left_assoc: true })
    } else if token == seq![98u8, 111u8, 114u8] {
        Some(Operator { id: 16, precedence: 12, left_assoc: true })
    } else if token == seq![97u8, 110u8, 100u8] {
        Some(Operator { id: 17, precedence: 11, left_assoc: true })
    } else if token == seq![120u8, 111u8, 114u8] {
        Some(Operator { id: 18, precedence: 10, left_assoc: true })
    } else if token == seq![111u8, 114u8] {
        Some(Operator { id: 19, precedence: 9, left_assoc: true })
    } else {
        None
    }
}

/// The operator a token of the grammar names.
pub fn op_str_to_operator(op_str: &str) -> (r: Operator)
    requires
        operator_for(op_str.spec_bytes()) is Some,
    ensures
        r == operator_for(op_str.spec_bytes())->Some_0,
{
    let token = op_str.as_bytes();
    if token_is2(token, 42u8, 42u8) {
        Operator { id: 7, precedence: 19, left_assoc: false }
    } else if token_is1(token, 43u8) {
        Operator { id: 1, precedence: 17, left_assoc: true }
    } else if token_is1(token, 45u8) {
        Operator { id: 2, precedence: 17, left_assoc: true }
    } else if token_is1(token, 42u8) {
        Operator { id: 3, precedence: 18, left_assoc: true }
    } else if token_is1(token, 47u8) {
        Operator { id: 4, precedence: 18, left_assoc: true }
    } else if token_is2(token, 47u8, 47u8) {
        Operator { id: 5, precedence: 18, left_assoc: true }
    } else if token_is1(token, 37u8) {
        Operator { id: 6, precedence: 18, left_assoc: true }
    } else if token_is2(token, 60u8, 61u8) {
        Operator { id: 8, precedence: 16, left_assoc: true }
    } else if token_is1(token, 60u8) {
        Operator { id: 9, precedence: 16, left_assoc: true }
    } else if token_is2(token, 62u8, 61u8) {
        Operator { id: 10, precedence: 16, left_assoc: true }
    } else if token_is1(token, 62u8) {
        Operator { id: 11, precedence: 16, left_assoc: true }
    } else if token_is2(token, 61u8, 61u8) {
        Operator { id: 12, precedence: 15, left_assoc: true }
    } else if token_is2(token, 33u8, 61u8) {
        Operator { id: 13, precedence: 15, left_assoc: true }
    } else if token_is4(token, 98u8, 97u8, 110u8, 100u8) {
        Operator { id: 14, precedence: 14, left_assoc: true }
    } else if token_is4(token, 98u8, 120u8, 111u8, 114u8) {
        Operator { id: 15, precedence: 13, left_assoc: true }
    } else if token_is3(token, 98u8, 111u8, 114u8) {
        Operator { id: 16, precedence: 12, left_assoc: true }
    } else if token_is3(token, 97u8, 110u8, 100u8) {
        Operator { id: 17, precedence: 11, left_assoc: true }
    } else if token_is3(token, 120u8, 111u8, 114u8) {
        Operator { id: 18, precedence: 10, left_assoc: true }
    } else if token_is2(token, 111u8, 114u8) {
        Operator { id: 19, precedence: 9, left_assoc: true }
    } else {
        proof {
            assert(false);
        }
        Operator { id: 0, precedence: 0, left_assoc: true }
    }
}

/// The binary operation an operator id stands for when an expression is
/// built from it.
pub open spec fn operation_of_id(id: u32) -> Option<BinaryOperator> {
    if id == 1 {
        Some(BinaryOperator::Add)
    } else if id == 2 {
        Some(BinaryOperator::Subtract)
    } else if id == 3 {
        Some(BinaryOperator::Multiply)
    } else if id == 4 {
        Some(BinaryOperator::Divide)
    } else if id == 5 {
        Some(BinaryOperator::IntDiv)
    } else if id == 6 {
        Some(BinaryOperator::Modulo)
    } else if id == 7 {
        Some(BinaryOperator::Power)
    } else if id == 8 {
        Some(BinaryOperator::LessThanOrEqual)
    } else if id == 9 {
        Some(BinaryOperator::LessThan)
    } else if id == 10 {
        Some(BinaryOperator::GreaterThanOrEqual)
    } else if id == 11 {
        Some(BinaryOperator::GreaterThan)
    } else if id == 12 {
        Some(BinaryOperator::Equal)
    } else if id == 13 {
        Some(BinaryOperator::NotEqual)
    } else if id == 14 {
        Some(BinaryOperator::BAnd)
    } else if id == 15 {
        Some(BinaryOperator::BXor)
    } else if id == 16 {
        Some(BinaryOperator::BOr)
    } else if id == 17 {
        Some(BinaryOperator::And)
    } else if id == 18 {
        Some(BinaryOperator::Xor)
    } else if id == 19 {
        Some(BinaryOperator::Or)
    } else {
        None
    }
}

/// The characters of an ASCII token.
pub open spec fn ascii_chars(token: Seq<u8>) -> Seq<char> {
    token.map_values(|b: u8| b as char)
}

/// Law: an operator token stands for the operation that is written with
/// that very token, so `-` is subtraction and `+` addition; in particular
/// different tokens name different operations.
pub proof fn lemma_operator_token_is_its_symbol(token: Seq<u8>)
    requires
        operator_for(token) is Some,
    ensures
        operation_of_id(operator_for(token)->Some_0.id) matches Some(op) && binary_symbol(op)
            == ascii_chars(token),
{
    reveal_strlit("+");
    reveal_strlit("-");
    reveal_strlit("*");
    reveal_strlit("/");
    reveal_strlit("//");
    reveal_strlit("%");
    reveal_strlit("**");
    reveal_strlit("and");
    reveal_strlit("or");
    reveal_strlit("xor");
    reveal_strlit("band");
    reveal_strlit("bor");
    reveal_strlit("bxor");
    reveal_strlit("==");
    reveal_strlit("!=");
    reveal_strlit("<");
    reveal_strlit(">");
    reveal_strlit("<=");
    reveal_strlit(">=");
    let op = operation_of_id(operator_for(token)->Some_0.id)->Some_0;
    assert(binary_symbol(op) =~= ascii_chars(token));
}

/// Law: different operator tokens get different ids.
pub proof fn lemma_operator_ids_distinct(t1: Seq<u8>, t2: Seq<u8>)
    requires
        operator_for(t1) is Some,
        operator_for(t2) is Some,
        t1 != t2,
    ensures
        operator_for(t1)->Some_0.id != operator_for(t2)->Some_0.id,
{
    lemma_operator_token_is_its_symbol(t1);
    lemma_operator_token_is_its_symbol(t2);
    if operator_for(t1)->Some_0.id == operator_for(t2)->Some_0.id {
        assert(ascii_chars(t1) == ascii_chars(t2));
        assert(t1.len() == t2.len());
        assert forall|i: int| 0 <= i < t1.len() implies t1[i] == t2[i] by {
            assert(ascii_chars(t1)[i] == ascii_chars(t2)[i]);
            let a = t1[i];
            let b = t2[i];
            assert((a as char) == (b as char));
            assert(a as u32 == (a as char) as u32);
        }
        assert(t1 =~= t2);
    }
}

} // verus!
