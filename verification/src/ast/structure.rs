//! Describing the grammar's rules in error messages.
use vstd::prelude::*;

use crate::problem::text::{chars_to_string, push_str_chars};

pub use super::Rule;

verus! {

/// How a rule is named in error messages.
pub open spec fn rule_description(rule: Rule) -> Seq<char> {
    match rule {
        Rule::WHITESPACE => "whitespace"@,
        Rule::COMMENT | Rule::block_comment | Rule::line_comment => "comment"@,
        Rule::EOI => "end of file"@,
        Rule::dec_int => "integer literal"@,
        Rule::hex_int => "hexadecimal literal"@,
        Rule::oct_int => "octal literal"@,
        Rule::legacy_oct_int => "c-style octal literal"@,
        Rule::bin_int => "binary literal"@,
        Rule::dec_digit => "digit"@,
        Rule::float => "float literal"@,
        Rule::integer => "int literal"@,
        Rule::literal => "literal value"@,
        Rule::identifier => "identifier"@,
        Rule::vp_var => "variable"@,
        Rule::build_array => "array data"@,
        Rule::vpe_part_1 | Rule::vpe_part_2 | Rule::vpe_part | Rule::vpe => "value-producing expression"@,
        Rule::build_array_type => "array type"@,
        Rule::vp_index => "index expression"@,
        Rule::negate => "negate"@,
        Rule::operator => "binary operator"@,
        Rule::var_dec => "variable declaration"@,
        Rule::vc_identifier => "variable"@,
        Rule::vc_index => "index expression"@,
        Rule::vce => "value-consuming expression"@,
        Rule::func_call_input_list => "input list for function call"@,
        Rule::inline_output => "inline keyword"@,
        Rule::func_call_output => "output for function call"@,
        Rule::func_call_output_list => "output list for function call"@,
        Rule::func_call => "single-output function callession"@,
        Rule::named_function_parameter => "function parameter definition"@,
        Rule::function_inputs => "input list for function definition"@,
        Rule::function_outputs => "output list for function definition"@,
        Rule::single_function_output => "single output for function definition"@,
        Rule::function_signature => "signature for function definition"@,
        Rule::function_definition => "function definition"@,
        Rule::else_if_clause => "else if clause"@,
        Rule::else_clause => "else clause"@,
        Rule::if_statement => "if statement"@,
        Rule::for_loop_statement => "for loop"@,
        Rule::input_variable_statement => "input declaration statement"@,
        Rule::output_variable_statement => "output declaration statement"@,
        Rule::assign_statement => "assignment statement"@,
        Rule::raw_vpe_statement => "value-producing expression as a statement"@,
        Rule::raw_vce_statement => "value-consuming expression as a statement"@,
        Rule::return_statement => "return statement"@,
        Rule::assert_statement => "assert statement"@,
        Rule::statement => "statement"@,
        Rule::code_block => "code block"@,
        Rule::returnable_code_block => "code block"@,
        Rule::root => "program"@,
    }
}

/// How a rule is named in error messages, such as "integer literal".
pub fn rule_name(rule: &Rule) -> (r: &'static str)
    ensures
        r@ == rule_description(*rule),
{
    match rule {
        Rule::WHITESPACE => "whitespace",
        Rule::COMMENT | Rule::block_comment | Rule::line_comment => "comment",
        Rule::EOI => "end of file",
        Rule::dec_int => "integer literal",
        Rule::hex_int => "hexadecimal literal",
        Rule::oct_int => "octal literal",
        Rule::legacy_oct_int => "c-style octal literal",
        Rule::bin_int => "binary literal",
        Rule::dec_digit => "digit",
        Rule::float => "float literal",
        Rule::integer => "int literal",
        Rule::literal => "literal value",
        Rule::identifier => "identifier",
        Rule::vp_var => "variable",
        Rule::build_array => "array data",
        Rule::vpe_part_1 | Rule::vpe_part_2 | Rule::vpe_part | Rule::vpe => "value-producing expression",
        Rule::build_array_type => "array type",
        Rule::vp_index => "index expression",
        Rule::negate => "negate",
        Rule::operator => "binary operator",
        Rule::var_dec => "variable declaration",
        Rule::vc_identifier => "variable",
        Rule::vc_index => "index expression",
        Rule::vce => "value-consuming expression",
        Rule::func_call_input_list => "input list for function call",
        Rule::inline_output => "inline keyword",
        Rule::func_call_output => "output for function call",
        Rule::func_call_output_list => "output list for function call",
        Rule::func_call => "single-output function callession",
        Rule::named_function_parameter => "function parameter definition",
        Rule::function_inputs => "input list for function definition",
        Rule::function_outputs => "output list for function definition",
        Rule::single_function_output => "single output for function definition",
        Rule::function_signature => "signature for function definition",
        Rule::function_definition => "function definition",
        Rule::else_if_clause => "else if clause",
        Rule::else_clause => "else clause",
        Rule::if_statement => "if statement",
        Rule::for_loop_statement => "for loop",
        Rule::input_variable_statement => "input declaration statement",
        Rule::output_variable_statement => "output declaration statement",
        Rule::assign_statement => "assignment statement",
        Rule::raw_vpe_statement => "value-producing expression as a statement",
        Rule::raw_vce_statement => "value-consuming expression as a statement",
        Rule::return_statement => "return statement",
        Rule::assert_statement => "assert statement",
        Rule::statement => "statement",
        Rule::code_block => "code block",
        Rule::returnable_code_block => "code block",
        Rule::root => "program",
    }
}

/// The names of the rules, separated by commas.
pub open spec fn joined_names(rules: Seq<Rule>) -> Seq<char>
    decreases rules.len(),
{
    if rules.len() == 0 {
        seq![]
    } else if rules.len() == 1 {
        rule_description(rules[0])
    } else {
        joined_names(rules.drop_last()) + ", "@ + rule_description(rules.last())
    }
}

/// The message of a syntax error: what the parser expected, and what it
/// found instead.
pub open spec fn syntax_message(positives: Seq<Rule>, negatives: Seq<Rule>) -> Seq<char> {
    "Expected "@ + joined_names(positives) + "... but found "@ + (if negatives.len() == 0 {
        "unknown syntax"@
    } else {
        joined_names(negatives)
    }) + "."@
}

fn append_names(out: &mut Vec<char>, rules: &[Rule])
    ensures
        final(out)@ == old(out)@ + joined_names(rules@),
{
    let mut i: usize = 0;
    assert(rules@.take(0) =~= Seq::<Rule>::empty());
    while i < rules.len()
        invariant
            i <= rules@.len(),
            out@ == old(out)@ + joined_names(rules@.take(i as int)),
        decreases rules@.len() - i,
    {
        let ghost before = out@;
        assert(rules@.take(i + 1).drop_last() =~= rules@.take(i as int));
        if i > 0 {
            push_str_chars(out, ", ");
        }
        push_str_chars(out, rule_name(&rules[i]));
        i = i + 1;
        if i == 1 {
            assert(out@ =~= old(out)@ + joined_names(rules@.take(i as int)));
        } else {
            assert(out@ =~= old(out)@ + joined_names(rules@.take(i as int)));
        }
    }
    assert(rules@.take(rules@.len() as int) =~= rules@);
}

/// The message of a syntax error: the rules the parser expected, then the
/// ones it found, or "unknown syntax" when it names none.
pub fn syntax_error_message(positives: &[Rule], negatives: &[Rule]) -> (r: String)
    ensures
        r@ == syntax_message(positives@, negatives@),
{
    let mut out: Vec<char> = Vec::new();
    push_str_chars(&mut out, "Expected ");
    append_names(&mut out, positives);
    push_str_chars(&mut out, "... but found ");
    if negatives.len() == 0 {
        push_str_chars(&mut out, "unknown syntax");
    } else {
        append_names(&mut out, negatives);
    }
    push_str_chars(&mut out, ".");
    assert(out@ =~= syntax_message(positives@, negatives@));
    chars_to_string(&out)
}

} // verus!
