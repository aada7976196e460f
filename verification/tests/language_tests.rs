use mal::eval::rep;
use mal::natives::core_ns;
use mal::printer::pr_str;
use mal::reader::read_str;

fn read_print(line: &str) -> Result<String, String> {
    match read_str(line) {
        Ok(form) => Ok(pr_str(&form, true)),
        Err(e) => Err(e),
    }
}

#[test]
fn round_trip_canonical_forms() {
    for s in [
        "(1 2 3)",
        "(+ 1 2)",
        "[1 2 3]",
        "{1 2}",
        "nil",
        "true",
        "false",
        ":kw",
        "-42",
        "\"a\\nb\\\\c\\\"d\"",
        "(a (b (c)) [])",
    ] {
        assert_eq!(read_print(s).unwrap(), s);
    }
}

#[test]
fn arithmetic() {
    let mut env = core_ns();
    assert_eq!(rep(&mut env, "(+ 1 2 3)"), Ok("6".to_string()));
    assert_eq!(rep(&mut env, "(- 5 2)"), Ok("3".to_string()));
    assert_eq!(rep(&mut env, "(* 2 3 4)"), Ok("24".to_string()));
    assert_eq!(rep(&mut env, "(/ 7 2)"), Ok("3".to_string()));
    assert_eq!(rep(&mut env, "(/ -7 2)"), Ok("-3".to_string()));
    assert_eq!(rep(&mut env, "(< 1 2)"), Ok("true".to_string()));
    assert_eq!(rep(&mut env, "(>= 2 2)"), Ok("true".to_string()));
    assert_eq!(rep(&mut env, "(/ 1 0)"), Err("division by zero".to_string()));
    assert_eq!(rep(&mut env, "(+ 1 nil)"), Err("function called with non-int".to_string()));
}

#[test]
fn lexical_scoping() {
    let mut env = core_ns();
    assert_eq!(
        rep(&mut env, "(let* (p (+ 2 3) q (+ 2 p)) (+ p q))"),
        Ok("12".to_string())
    );
    // The closure sees its defining environment, not the caller's.
    assert_eq!(rep(&mut env, "(def! x 10)"), Ok("10".to_string()));
    assert_eq!(
        rep(&mut env, "(def! getx (fn* () x))"),
        Ok("#<fn* function>".to_string())
    );
    assert_eq!(
        rep(&mut env, "(let* (x 99) (getx))"),
        Ok("10".to_string())
    );
}

#[test]
fn tail_call_safety() {
    let mut env = core_ns();
    assert_eq!(rep(&mut env, "(do (def! sum2 (fn* (n acc) (if (= n 0) acc (sum2 (- n 1) (+ n acc))))) (sum2 50 0))"), Ok("1275".to_string()));
    // A large count must not exhaust the call stack: the trampoline loops.
    assert_eq!(
        rep(&mut env, "(sum2 60000 0)"),
        Ok("1800030000".to_string())
    );
}

#[test]
fn macro_and_quasiquote() {
    let mut env = core_ns();
    assert_eq!(rep(&mut env, "(defmacro! cond (fn* (& xs) (if (> (count xs) 0) (list 'if (first xs) (if (> (count xs) 1) (nth xs 1) (throw \"odd number of forms to cond\")) (cons 'cond (rest (rest xs)))))))"), Ok("#<fn* function>".to_string()));
    assert_eq!(rep(&mut env, "(cond false 1 true 2)"), Ok("2".to_string()));
    assert_eq!(
        rep(&mut env, "`(1 ~(+ 1 2) ~@(list 3 4))"),
        Ok("(1 3 3 4)".to_string())
    );
    assert_eq!(rep(&mut env, "'(1 2)"), Ok("(1 2)".to_string()));
}

#[test]
fn macroexpand_special_form() {
    let mut env = core_ns();
    assert_eq!(
        rep(&mut env, "(defmacro! one (fn* () 1))"),
        Ok("#<fn* function>".to_string())
    );
    assert_eq!(rep(&mut env, "(macroexpand (one))"), Ok("1".to_string()));
}

#[test]
fn error_and_catch() {
    let mut env = core_ns();
    assert_eq!(
        rep(&mut env, "(try* (throw \"oops\") (catch* e e))"),
        Ok("\"oops\"".to_string())
    );
    // A thrown value that is not a string round-trips unchanged too.
    assert_eq!(
        rep(&mut env, "(try* (throw (list 1 2)) (catch* e e))"),
        Ok("(1 2)".to_string())
    );
    assert_eq!(rep(&mut env, "(c)"), Err("'c' not found".to_string()));
    assert_eq!(
        rep(&mut env, "(try* (c) (catch* e 7))"),
        Ok("7".to_string())
    );
}

#[test]
fn atoms_and_mutation() {
    let mut env = core_ns();
    assert_eq!(rep(&mut env, "(def! a (atom 1))"), Ok("#<atom>".to_string()));
    assert_eq!(
        rep(&mut env, "(swap! a (fn* (x) (+ x 1)))"),
        Ok("2".to_string())
    );
    assert_eq!(rep(&mut env, "(deref a)"), Ok("2".to_string()));
    assert_eq!(
        rep(&mut env, "(deref 1)"),
        Err("deref requires an atom argument".to_string())
    );
    assert_eq!(rep(&mut env, "@a"), Ok("2".to_string()));
    // Two closures that captured the same atom observe each other's mutation.
    assert_eq!(rep(&mut env, "(def! b (atom 5))"), Ok("#<atom>".to_string()));
    let _ = rep(&mut env, "(def! getb (fn* () (deref b)))").unwrap();
    let _ = rep(&mut env, "(def! incb (fn* () (swap! b (fn* (x) (+ x 1)))))").unwrap();
    assert_eq!(rep(&mut env, "(incb)"), Ok("6".to_string()));
    assert_eq!(rep(&mut env, "(getb)"), Ok("6".to_string()));
    assert_eq!(rep(&mut env, "(reset! b 11)"), Ok("11".to_string()));
    assert_eq!(rep(&mut env, "(getb)"), Ok("11".to_string()));
    // swap! applies a primitive function to the old contents and the extras.
    assert_eq!(rep(&mut env, "(def! c (atom 5))"), Ok("#<atom>".to_string()));
    assert_eq!(rep(&mut env, "(swap! c + 3)"), Ok("8".to_string()));
    assert_eq!(rep(&mut env, "(deref c)"), Ok("8".to_string()));
}

#[test]
fn list_primitives() {
    let mut env = core_ns();
    assert_eq!(rep(&mut env, "(list 1 2)"), Ok("(1 2)".to_string()));
    assert_eq!(rep(&mut env, "(list? (list 1))"), Ok("true".to_string()));
    assert_eq!(rep(&mut env, "(list? 1)"), Ok("false".to_string()));
    assert_eq!(rep(&mut env, "(empty? '())"), Ok("true".to_string()));
    assert_eq!(rep(&mut env, "(count '(1 2 3))"), Ok("3".to_string()));
    assert_eq!(rep(&mut env, "(count nil)"), Ok("0".to_string()));
    assert_eq!(rep(&mut env, "(cons 1 '(2 3))"), Ok("(1 2 3)".to_string()));
    assert_eq!(
        rep(&mut env, "(concat '(1) '(2 3) '())"),
        Ok("(1 2 3)".to_string())
    );
    assert_eq!(rep(&mut env, "(nth '(1 2 3) 1)"), Ok("2".to_string()));
    assert_eq!(
        rep(&mut env, "(nth '(1 2 3) 5)"),
        Err("nth called with out of range index".to_string())
    );
    assert_eq!(rep(&mut env, "(first '(7 8))"), Ok("7".to_string()));
    assert_eq!(rep(&mut env, "(first '())"), Ok("nil".to_string()));
    assert_eq!(rep(&mut env, "(rest '(7 8 9))"), Ok("(8 9)".to_string()));
    assert_eq!(rep(&mut env, "(= '(1 2) [1 2])"), Ok("true".to_string()));
    assert_eq!(rep(&mut env, "(= 1 2)"), Ok("false".to_string()));
}

#[test]
fn predicates_and_strings() {
    let mut env = core_ns();
    assert_eq!(rep(&mut env, "(nil? nil)"), Ok("true".to_string()));
    assert_eq!(rep(&mut env, "(true? true)"), Ok("true".to_string()));
    assert_eq!(rep(&mut env, "(false? false)"), Ok("true".to_string()));
    assert_eq!(rep(&mut env, "(symbol? 'x)"), Ok("true".to_string()));
    assert_eq!(rep(&mut env, "(atom? (atom 1))"), Ok("true".to_string()));
    assert_eq!(
        rep(&mut env, "(pr-str 1 \"a\")"),
        Ok("\"1 \\\"a\\\"\"".to_string())
    );
    assert_eq!(rep(&mut env, "(str 1 \"a\" 2)"), Ok("\"1a2\"".to_string()));
    assert_eq!(
        rep(&mut env, "(read-string \"(+ 1 2)\")"),
        Ok("(+ 1 2)".to_string())
    );
}

#[test]
fn special_form_errors() {
    let mut env = core_ns();
    assert_eq!(
        rep(&mut env, "`(unquote)"),
        Err("unquote requires an argument".to_string())
    );
    assert_eq!(
        rep(&mut env, "(let* (1 2) 3)"),
        Err("let* sub-argument not a symbol: 1".to_string())
    );
    assert_eq!(
        rep(&mut env, "(let* (x) 3)"),
        Err("let* bindings must come in symbol/value pairs".to_string())
    );
    assert_eq!(
        rep(&mut env, "(if)"),
        Err("if expression must have at least two arguments".to_string())
    );
    assert_eq!(
        rep(&mut env, "(1 2)"),
        Err("not a symbol, list, or function: 1".to_string())
    );
    assert_eq!(
        rep(&mut env, "()"),
        Ok("()".to_string())
    );
    assert_eq!(
        rep(&mut env, "((list) 1)"),
        Err("Cannot apply empty list as function".to_string())
    );
    assert_eq!(
        rep(&mut env, "(swap! 1 2)"),
        Err("swap! -- bad arguments".to_string())
    );
}

#[test]
fn truthiness_in_if() {
    let mut env = core_ns();
    assert_eq!(rep(&mut env, "(if nil 1 2)"), Ok("2".to_string()));
    assert_eq!(rep(&mut env, "(if false 1 2)"), Ok("2".to_string()));
    assert_eq!(rep(&mut env, "(if 0 1 2)"), Ok("1".to_string()));
    assert_eq!(rep(&mut env, "(if \"\" 1 2)"), Ok("1".to_string()));
    assert_eq!(rep(&mut env, "(if true 1)"), Ok("1".to_string()));
    assert_eq!(rep(&mut env, "(if false 1)"), Ok("nil".to_string()));
}

#[test]
fn integer_overflow_reads_as_symbol() {
    let mut env = core_ns();
    assert_eq!(
        rep(&mut env, "2147483648"),
        Err("'2147483648' not found".to_string())
    );
    assert_eq!(rep(&mut env, "2147483647"), Ok("2147483647".to_string()));
}

#[test]
fn variadic_binding() {
    let mut env = core_ns();
    assert_eq!(
        rep(&mut env, "((fn* (a & more) (count more)) 1 2 3 4)"),
        Ok("3".to_string())
    );
    assert_eq!(
        rep(&mut env, "((fn* (& all) all) 1 2)"),
        Ok("(1 2)".to_string())
    );
}

#[test]
fn output_primitives_collect_lines() {
    let mut env = core_ns();
    assert_eq!(rep(&mut env, "(prn \"a\" 1)"), Ok("nil".to_string()));
    assert_eq!(rep(&mut env, "(println \"a\" 1)"), Ok("nil".to_string()));
    assert_eq!(env.out.len(), 2);
    assert_eq!(env.out[0], "\"a\" 1");
    assert_eq!(env.out[1], "a 1");
}
