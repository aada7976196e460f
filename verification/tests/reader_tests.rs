use mal::reader::read_str;
use mal::reader::tokenize;
use mal::reader::tokenize_quoted_string;
use mal::reader::unescape_string;
use mal::reader::parse_int_token;

#[test]
fn test_tokenize() {
    assert_eq!(tokenize("(1, 2 3)"), vec!["(", "1", "2", "3", ")"]);
}

#[test]
fn test_tokenize_quoted_str() {
    assert_eq!(tokenize_quoted_string(r#""a""#), ["\"", "a", "\""]);
    assert_eq!(tokenize_quoted_string(r#""a\n"#), ["\"", "a", "\\n"])
}

#[test]
fn test_unescape_str() {
    assert_eq!(unescape_string(r#""abc""#), Ok(r#"abc"#.to_string()));
    assert_eq!(
        unescape_string(r#""abc"#),
        Err(r#"invalid or unbalanced string "abc"#.to_string())
    );
    assert_eq!(
        format!("{:?}", unescape_string("abc")),
        r#"Err("invalid or unbalanced string abc")"#
    );
}

#[test]
fn test_read_str() {
    assert_eq!(
        format!("{:?}", read_str("(1 2 3)").unwrap()),
        "List([Int(1), Int(2), Int(3)])"
    );
    assert_eq!(
        format!("{:?}", read_str(r#"(1 "a" 2 3 (c))"#).unwrap()),
        r#"List([Int(1), String("a"), Int(2), Int(3), List([Symbol("c")])])"#
    );
    assert_eq!(
        format!("{:?}", read_str("(")),
        r#"Err("EOF while reading sequence")"#
    );
    assert_eq!(
        format!("{:?}", read_str("\"abc")),
        r#"Err("invalid or unbalanced string \"abc")"#
    );
}

#[test]
fn test_read_vectors_and_tables() {
    assert_eq!(
        format!("{:?}", read_str("[1 2]").unwrap()),
        "Vector([Int(1), Int(2)])"
    );
    assert_eq!(
        format!("{:?}", read_str("{1 2}").unwrap()),
        "HashTable([Int(1), Int(2)])"
    );
    assert_eq!(format!("{:?}", read_str(":kw").unwrap()), r#"Keyword("kw")"#);
    assert_eq!(format!("{:?}", read_str("nil").unwrap()), "Nil");
    assert_eq!(format!("{:?}", read_str("true").unwrap()), "Boolean(true)");
    assert_eq!(format!("{:?}", read_str("false").unwrap()), "Boolean(false)");
}

#[test]
fn test_read_sigils() {
    assert_eq!(
        format!("{:?}", read_str("'x").unwrap()),
        r#"List([Symbol("quote"), Symbol("x")])"#
    );
    assert_eq!(
        format!("{:?}", read_str("`x").unwrap()),
        r#"List([Symbol("quasiquote"), Symbol("x")])"#
    );
    assert_eq!(
        format!("{:?}", read_str("~x").unwrap()),
        r#"List([Symbol("unquote"), Symbol("x")])"#
    );
    assert_eq!(
        format!("{:?}", read_str("~@x").unwrap()),
        r#"List([Symbol("splice-unquote"), Symbol("x")])"#
    );
    assert_eq!(
        format!("{:?}", read_str("@x").unwrap()),
        r#"List([Symbol("deref"), Symbol("x")])"#
    );
}

#[test]
fn test_read_errors() {
    assert_eq!(
        format!("{:?}", read_str("1 2")),
        r#"Err("unexpected trailing tokens")"#
    );
    assert_eq!(
        format!("{:?}", read_str("(]")),
        r#"Err("mismatched delimiter in sequence")"#
    );
    assert_eq!(format!("{:?}", read_str("")), r#"Err("unexpected EOF")"#);
}

#[test]
fn test_comments_are_skipped() {
    assert_eq!(
        format!("{:?}", read_str("(1 ; a comment\n 2)").unwrap()),
        "List([Int(1), Int(2)])"
    );
}

#[test]
fn test_dot_number_is_a_symbol() {
    // A token that is not a valid integer reads as a symbol.
    assert_eq!(format!("{:?}", read_str(".3").unwrap()), r#"Symbol(".3")"#);
}

#[test]
fn surplus_arguments_are_an_error() {
    let mut env = mal::natives::core_ns();
    assert_eq!(
        mal::eval::rep(&mut env, "((fn* (a) a) 1 2)"),
        Err("too many arguments in function call".to_string())
    );
    assert_eq!(mal::eval::rep(&mut env, "((fn* (a) a) 1)"), Ok("1".to_string()));
}

#[test]
fn test_parse_int_token() {
    assert_eq!(parse_int_token("42"), Some(42));
    assert_eq!(parse_int_token("-42"), Some(-42));
    assert_eq!(parse_int_token("+42"), Some(42));
    assert_eq!(parse_int_token("2147483647"), Some(2147483647));
    assert_eq!(parse_int_token("-2147483648"), Some(-2147483648));
    assert_eq!(parse_int_token("2147483648"), None);
    assert_eq!(parse_int_token("12a"), None);
    assert_eq!(parse_int_token(""), None);
    assert_eq!(parse_int_token("-"), None);
}
