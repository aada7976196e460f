use mal::eval::rep;
use mal::natives::core_ns;
use mal::printer::pr_str;
use mal::reader::read_str;

fn read_print(line: &str) -> Result<String, String> {
    match read_str(line) {
        Ok(form) => Ok(pr_str(&form, true)),
        Err(e) => Err(e),
    }
}

#[test]
fn step1_read_print_test_rep() {
    assert_eq!(read_print("(1 2 3)").unwrap(), "(1 2 3)");
    assert_eq!(
        read_print("(1 2\r\n"),
        Err("EOF while reading sequence".to_string())
    );
    assert_eq!(read_print("(1 \"a\" 2 3 (c))").unwrap(), "(1 \"a\" 2 3 (c))");
    assert_eq!(read_print("1").unwrap(), "1");
    assert_eq!(read_print("a").unwrap(), "a");
    assert_eq!(read_print("\"a\"").unwrap(), "\"a\"");
    assert_eq!(read_print("(1  2 3)").unwrap(), "(1 2 3)");
}

#[test]
fn test_rep_nested_lists() {
    assert_eq!(read_print("(()())").unwrap(), "(() ())")
}

#[test]
fn step2_eval_test_rep() {
    let mut env = core_ns();
    assert_eq!(rep(&mut env, "1"), Ok("1".to_string()));
    assert_eq!(rep(&mut env, "(+ 1)"), Ok("1".to_string()));
    assert_eq!(rep(&mut env, "(+ 1 2)"), Ok("3".to_string()));
    assert_eq!(rep(&mut env, "(+ 1 2 3)"), Ok("6".to_string()));
    assert_eq!(rep(&mut env, "\":a\""), Ok("\":a\"".to_string()));
}

#[test]
fn step3_env_test_rep() {
    let mut env = core_ns();
    assert_eq!(rep(&mut env, "1"), Ok("1".to_string()));
    assert_eq!(rep(&mut env, "(+ 1)"), Ok("1".to_string()));
    assert_eq!(rep(&mut env, "(+ 1 2)"), Ok("3".to_string()));
    assert_eq!(rep(&mut env, "(+ 1 2 3)"), Ok("6".to_string()));
    assert_eq!(rep(&mut env, "\":a\""), Ok("\":a\"".to_string()));
}

#[test]
fn test_let() {
    let mut env = core_ns();
    assert_eq!(
        rep(&mut env, "(let* (p (+ 2 3) q (+ 2 p)) (+ p q))"),
        Ok("12".to_string())
    );
}

#[test]
fn step4_if_fn_do_test_do() {
    let mut env = core_ns();
    assert_eq!(rep(&mut env, "(do 1 2 3)"), Ok("3".to_string()));
    assert_eq!(rep(&mut env, "(do 2)"), Ok("2".to_string()));
    assert_eq!(rep(&mut env, "(do)"), Ok("nil".to_string()));
    assert_eq!(rep(&mut env, "(do 4 (+ 1 2))"), Ok("3".to_string()));
}

#[test]
fn step5_tco_test_do() {
    let mut env = core_ns();
    assert_eq!(rep(&mut env, "(do (def! sum2 (fn* (n acc) (if (= n 0) acc (sum2 (- n 1) (+ n acc))))) (sum2 50 0))"), Ok("1275".to_string()));
}

#[test]
fn step6_file_test_do() {
    let mut env = core_ns();
    assert_eq!(rep(&mut env, "(do (def! sum2 (fn* (n acc) (if (= n 0) acc (sum2 (- n 1) (+ n acc))))) (sum2 50 0))"), Ok("1275".to_string()));
}

#[test]
fn step7_quote_test_do() {
    let mut env = core_ns();
    assert_eq!(rep(&mut env, "(do (def! sum2 (fn* (n acc) (if (= n 0) acc (sum2 (- n 1) (+ n acc))))) (sum2 50 0))"), Ok("1275".to_string()));
}

#[test]
fn test_apply() {
    let mut env = core_ns();
    assert_eq!(rep(&mut env, "(apply + '(1 2))"), Ok("3".to_string()));
}

#[test]
fn test_eval() {
    let mut env = core_ns();
    assert_eq!(
        rep(
            &mut env,
            "(do (def! nums (list 1 2 3)) (def! double (fn* (a) (* 2 a))) (map double nums))"
        ),
        Ok("(2 4 6)".to_string())
    );
}
