use mal::printer::pr_str;
use mal::printer::pr_str_slice;
use mal::printer::int_to_string;
use mal::types::MalExpression;
use mal::types::MalExpression::Int;

#[test]
fn test_pr_str() {
    assert_eq!(pr_str(&Int(1), true), "1");
    assert_eq!(pr_str(&MalExpression::Nil(), true), "nil");
    assert_eq!(pr_str(&MalExpression::Boolean(true), true), "true");
    assert_eq!(pr_str(&MalExpression::Boolean(false), true), "false");
    assert_eq!(
        pr_str(
            &MalExpression::List(vec![MalExpression::Nil(), MalExpression::Boolean(true)]),
            true
        ),
        "(nil true)"
    );
    assert_eq!(
        pr_str(&MalExpression::List(vec![MalExpression::Nil(), Int(42)]), true),
        "(nil 42)"
    );
}

#[test]
fn test_pr_str_structures() {
    let list = MalExpression::List(vec![Int(1), Int(2), Int(3)]);
    assert_eq!(pr_str(&list, true), "(1 2 3)");
    let vector = MalExpression::Vector(vec![Int(1), Int(2)]);
    assert_eq!(pr_str(&vector, true), "[1 2]");
    let table = MalExpression::HashTable(vec![Int(1), Int(2)]);
    assert_eq!(pr_str(&table, true), "{1 2}");
    assert_eq!(pr_str(&MalExpression::Nil(), true), "nil");
    assert_eq!(pr_str(&MalExpression::Boolean(true), true), "true");
    assert_eq!(pr_str(&MalExpression::Boolean(false), true), "false");
    assert_eq!(pr_str(&MalExpression::Keyword("kw".to_string()), true), ":kw");
}

#[test]
fn test_pr_str_strings() {
    let s = MalExpression::String("a\"b\\c\nd".to_string());
    assert_eq!(pr_str(&s, true), "\"a\\\"b\\\\c\\nd\"");
    assert_eq!(pr_str(&s, false), "a\"b\\c\nd");
}

#[test]
fn test_pr_str_slice_modes() {
    assert_eq!(pr_str_slice("ab", true), "\"ab\"");
    assert_eq!(pr_str_slice("ab", false), "ab");
    assert_eq!(pr_str_slice("a\nb", true), "\"a\\nb\"");
}

#[test]
fn test_int_to_string() {
    assert_eq!(int_to_string(0), "0");
    assert_eq!(int_to_string(907), "907");
    assert_eq!(int_to_string(-1), "-1");
    assert_eq!(int_to_string(2147483647), "2147483647");
    assert_eq!(int_to_string(-2147483648), "-2147483648");
}
