//! The syntax tree: the grammar's rules and how they are described to
//! users.
use vstd::prelude::*;

pub mod structure;

verus! {

/// The rules of the grammar.
#[allow(non_camel_case_types)]
#[derive(Clone, Copy, Debug, PartialEq, Eq, Hash, Structural)]
pub enum Rule {
    WHITESPACE,
    COMMENT,
    block_comment,
    line_comment,
    EOI,
    dec_int,
    hex_int,
    oct_int,
    legacy_oct_int,
    bin_int,
    dec_digit,
    float,
    integer,
    literal,
    identifier,
    vp_var,
    build_array,
    vpe_part_1,
    vpe_part_2,
    vpe_part,
    vpe,
    build_array_type,
    vp_index,
    negate,
    operator,
    var_dec,
    vc_identifier,
    vc_index,
    vce,
    func_call_input_list,
    inline_output,
    func_call_output,
    func_call_output_list,
    func_call,
    named_function_parameter,
    function_inputs,
    function_outputs,
    single_function_output,
    function_signature,
    function_definition,
    else_if_clause,
    else_clause,
    if_statement,
    for_loop_statement,
    input_variable_statement,
    output_variable_statement,
    assign_statement,
    raw_vpe_statement,
    raw_vce_statement,
    return_statement,
    assert_statement,
    statement,
    code_block,
    returnable_code_block,
    root,
}

} // verus!
