//! Token recognizers: literal constants, identifiers, and whitespace.

use jinko::Token;

#[test]
fn t_char_constant_valid() {
    assert_eq!(Token::char_constant("'a'"), Ok(("", 'a')));
    assert_eq!(Token::char_constant("'9'"), Ok(("", '9')));
}

#[test]
fn t_char_constant_invalid() {
    // Multiple characters
    match Token::char_constant("'abc'") {
        Ok(_) => assert!(false, "Too many characters in constant"),
        Err(_) => assert!(true),
    };
}

#[test]
fn t_string_constant() {
    // Simple string
    assert_eq!(Token::string_constant("\"a str\""), Ok(("", "a str")));
    assert_eq!(Token::string_constant("\"999 89 9\""), Ok(("", "999 89 9")));
    assert_eq!(Token::string_constant("\"4.01f\""), Ok(("", "4.01f")));
}

#[test]
fn t_string_constant_unclosed_quote() {
    // Simple string
    match Token::string_constant("\"a str") {
        Ok(_) => assert!(false, "Unclosed quote delimiter"),
        Err(_) => assert!(true),
    }
}

#[test]
fn t_int_constant_valid() {
    assert_eq!(Token::int_constant("12"), Ok(("", 12)));
    assert_eq!(Token::int_constant("-45"), Ok(("", -45)));
}

#[test]
fn t_int_constant_invalid() {
    match Token::int_constant("ff2") {
        Ok(_) => assert!(false, "Characters in integer"),
        Err(_) => assert!(true),
    }
}

#[test]
fn t_int_constant_bounds() {
    assert_eq!(
        Token::int_constant("9223372036854775807"),
        Ok(("", i64::MAX))
    );
    assert_eq!(
        Token::int_constant("-9223372036854775808"),
        Ok(("", i64::MIN))
    );
    assert!(Token::int_constant("9223372036854775808").is_err());
}

#[test]
fn t_consume_whitespace() {
    assert_eq!(Token::consume_whitespaces("   input"), Ok(("input", "   ")));
    assert_eq!(
        Token::consume_whitespaces(" \t input"),
        Ok(("input", " \t "))
    );
}

#[test]
fn t_consume_whitespace_invalid() {
    match Token::consume_whitespaces("something") {
        Ok(_) => assert!(false, "At least one whitespace required"),
        Err(_) => assert!(true),
    }
}

#[test]
fn t_id() {
    assert_eq!(Token::identifier("x"), Ok(("", "x")));
    assert_eq!(Token::identifier("x_"), Ok(("", "x_")));
    assert_eq!(Token::identifier("x_99"), Ok(("", "x_99")));
    assert_eq!(Token::identifier("99x"), Ok(("", "99x")));
    assert_eq!(Token::identifier("n99 x"), Ok((" x", "n99")));
    assert_eq!(Token::identifier("func_ x"), Ok((" x", "func_")));
}

#[test]
fn t_id_invalid() {
    match Token::identifier("99") {
        Ok(_) => assert!(false, "At least one alphabetical required"),
        Err(_) => assert!(true),
    }
    match Token::identifier("__99_") {
        Ok(_) => assert!(false, "At least one alphabetical required"),
        Err(_) => assert!(true),
    }
    match Token::identifier("func") {
        Ok(_) => assert!(false, "ID can't be a reserved keyword"),
        Err(_) => assert!(true),
    }
}
