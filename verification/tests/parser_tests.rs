use waveguide::parser::convert::{
    op_str_to_operator, parse_bin_int, parse_dec_int, parse_hex_int, parse_legacy_oct_int,
    parse_oct_int, Operator,
};

#[test]
fn integer_literals() {
    assert_eq!(parse_dec_int("1_000_000"), 1_000_000);
    assert_eq!(parse_dec_int("0"), 0);
    assert_eq!(parse_dec_int("9223372036854775807"), i64::MAX);
    assert_eq!(parse_dec_int("-9223372036854775808"), i64::MIN);
    assert_eq!(parse_dec_int("+42"), 42);
    assert_eq!(parse_hex_int("0xFF"), 255);
    assert_eq!(parse_hex_int("0xdead_beef"), 0xdead_beef);
    assert_eq!(parse_oct_int("0o17"), 15);
    assert_eq!(parse_legacy_oct_int("017"), 15);
    assert_eq!(parse_bin_int("0b1010_1010"), 170);
    assert_eq!(parse_bin_int("0_b1"), 1);
}

#[test]
fn operators() {
    assert_eq!(op_str_to_operator("**"), Operator { id: 7, precedence: 19, left_assoc: false });
    assert_eq!(op_str_to_operator("+"), Operator { id: 1, precedence: 17, left_assoc: true });
    assert_eq!(op_str_to_operator("//"), Operator { id: 5, precedence: 18, left_assoc: true });
    assert_eq!(op_str_to_operator("<="), Operator { id: 8, precedence: 16, left_assoc: true });
    assert_eq!(op_str_to_operator("band"), Operator { id: 14, precedence: 14, left_assoc: true });
    assert_eq!(op_str_to_operator("or"), Operator { id: 19, precedence: 9, left_assoc: true });
    // Multiplication binds tighter than addition.
    assert!(op_str_to_operator("*").precedence > op_str_to_operator("-").precedence);
}
