use mal::env::Env;
use mal::rep;
use mal::stdlib::ns;
use mal::stdlib::EvalError;
use mal::stdlib::Interp;
use mal::MalError;

const FUEL: u64 = 1_000_000;

fn fresh() -> (Interp, Env) {
    let mut st = Interp::new();
    let env = ns(&mut st);
    (st, env)
}

fn run(st: &mut Interp, env: Env, text: &str) -> String {
    match rep(text, st, env, FUEL) {
        Ok(s) => s,
        Err(e) => panic!("evaluating {} failed: {}", text, e.message()),
    }
}

fn run_err(st: &mut Interp, env: Env, text: &str) -> EvalError {
    match rep(text, st, env, FUEL) {
        Ok(s) => panic!("evaluating {} unexpectedly gave {}", text, s),
        Err(MalError::Eval(e)) => e,
        Err(MalError::Read(_)) => panic!("reading {} failed", text),
    }
}

#[test]
fn test_arithmetic_natives() {
    let (mut st, env) = fresh();
    assert_eq!(run(&mut st, env, "(+ 1 2)"), "3");
    assert_eq!(run(&mut st, env, "(- 5 2)"), "3");
    assert_eq!(run(&mut st, env, "(* 3 4)"), "12");
    assert_eq!(run(&mut st, env, "(/ 7 2)"), "3");
    assert_eq!(run(&mut st, env, "(+ 1 (* 2 3))"), "7");
}

#[test]
fn test_arithmetic_wrong_args() {
    let (mut st, env) = fresh();
    assert!(matches!(run_err(&mut st, env, "(+ 1 true)"), EvalError::NativeArgs(_)));
    assert!(matches!(run_err(&mut st, env, "(+ 1)"), EvalError::NativeArity(_, 1)));
    assert!(matches!(run_err(&mut st, env, "(+ 1 2 3)"), EvalError::NativeArity(_, 3)));
    assert!(matches!(run_err(&mut st, env, "(/ 1 0)"), EvalError::DivisionByZero));
    assert!(matches!(
        run_err(&mut st, env, "(+ 9223372036854775807 1)"),
        EvalError::Overflow
    ));
}

#[test]
fn test_comparisons() {
    let (mut st, env) = fresh();
    assert_eq!(run(&mut st, env, "(< 1 2)"), "true");
    assert_eq!(run(&mut st, env, "(<= 2 2)"), "true");
    assert_eq!(run(&mut st, env, "(> 1 2)"), "false");
    assert_eq!(run(&mut st, env, "(>= 1 2)"), "false");
    assert!(matches!(run_err(&mut st, env, "(< 1 nil)"), EvalError::NativeArgs(_)));
}

#[test]
fn test_equality_native() {
    let (mut st, env) = fresh();
    assert_eq!(run(&mut st, env, "(= 1 1)"), "true");
    assert_eq!(run(&mut st, env, "(= 1 2)"), "false");
    assert_eq!(run(&mut st, env, "(= (list 1 2) [1 2])"), "true");
    assert_eq!(run(&mut st, env, "(= \"a\" \"a\")"), "true");
    assert_eq!(run(&mut st, env, "(= nil nil)"), "true");
    assert!(matches!(run_err(&mut st, env, "(= 1)"), EvalError::NativeArity(_, 1)));
}

#[test]
fn test_list_natives() {
    let (mut st, env) = fresh();
    assert_eq!(run(&mut st, env, "(list 1 2 3)"), "(1 2 3)");
    assert_eq!(run(&mut st, env, "(list? (list 1))"), "true");
    assert_eq!(run(&mut st, env, "(list? [1])"), "false");
    assert_eq!(run(&mut st, env, "(empty? (list))"), "true");
    assert_eq!(run(&mut st, env, "(empty? (list 1))"), "false");
    assert_eq!(run(&mut st, env, "(count (list 1 2 3))"), "3");
    assert_eq!(run(&mut st, env, "(count nil)"), "0");
}

#[test]
fn test_def_binds_and_returns() {
    let (mut st, env) = fresh();
    assert_eq!(run(&mut st, env, "(def! x 3)"), "3");
    assert_eq!(run(&mut st, env, "x"), "3");
    assert_eq!(run(&mut st, env, "(+ x 1)"), "4");
}

#[test]
fn test_let_sees_earlier_bindings() {
    let (mut st, env) = fresh();
    assert_eq!(run(&mut st, env, "(let* (x 1 y (+ x 1)) y)"), "2");
}

#[test]
fn test_let_shadows_without_mutating() {
    let (mut st, env) = fresh();
    assert_eq!(run(&mut st, env, "(def! x 1)"), "1");
    assert_eq!(run(&mut st, env, "(let* (x 2) x)"), "2");
    assert_eq!(run(&mut st, env, "x"), "1");
}

#[test]
fn test_lexical_scoping() {
    let (mut st, env) = fresh();
    run(&mut st, env, "(def! x 1)");
    run(&mut st, env, "(def! f (fn* () x))");
    assert_eq!(run(&mut st, env, "(let* (x 2) (f))"), "1");
}

#[test]
fn test_if_truthiness() {
    let (mut st, env) = fresh();
    assert_eq!(run(&mut st, env, "(if true 1 2)"), "1");
    assert_eq!(run(&mut st, env, "(if false 1 2)"), "2");
    assert_eq!(run(&mut st, env, "(if nil 1 2)"), "2");
    assert_eq!(run(&mut st, env, "(if 0 1 2)"), "1");
    assert_eq!(run(&mut st, env, "(if \"\" 1 2)"), "1");
    assert_eq!(run(&mut st, env, "(if (list) 1 2)"), "1");
    assert_eq!(run(&mut st, env, "(if false 1)"), "nil");
}

#[test]
fn test_do_sequences() {
    let (mut st, env) = fresh();
    assert_eq!(run(&mut st, env, "(do)"), "nil");
    assert_eq!(run(&mut st, env, "(do (def! x 1) (def! y 2) (+ x y))"), "3");
    assert_eq!(run(&mut st, env, "x"), "1");
}

#[test]
fn test_empty_list_evaluates_to_itself() {
    let (mut st, env) = fresh();
    assert_eq!(run(&mut st, env, "()"), "()");
}

#[test]
fn test_collections_evaluate_elementwise() {
    let (mut st, env) = fresh();
    assert_eq!(run(&mut st, env, "[1 (+ 1 1) 3]"), "[1 2 3]");
    assert_eq!(run(&mut st, env, "{\"a\" (+ 1 1)}"), "{\"a\" 2}");
}

#[test]
fn test_closures_apply() {
    let (mut st, env) = fresh();
    run(&mut st, env, "(def! add2 (fn* (a b) (+ a b)))");
    assert_eq!(run(&mut st, env, "(add2 3 4)"), "7");
    assert_eq!(run(&mut st, env, "((fn* (x) (* x x)) 5)"), "25");
}

#[test]
fn test_variadic_binding() {
    let (mut st, env) = fresh();
    run(&mut st, env, "(def! f (fn* (a & b) b))");
    assert_eq!(run(&mut st, env, "(f 1 2 3)"), "(2 3)");
    assert_eq!(run(&mut st, env, "(f 1)"), "()");
}

#[test]
fn test_tail_call_deep_recursion() {
    let (mut st, env) = fresh();
    run(&mut st, env, "(def! f (fn* (n) (if (= n 0) 0 (f (- n 1)))))");
    assert_eq!(run(&mut st, env, "(f 100000)"), "0");
}

#[test]
fn test_eval_errors() {
    let (mut st, env) = fresh();
    assert!(matches!(run_err(&mut st, env, "y"), EvalError::NotFound(_)));
    assert!(matches!(run_err(&mut st, env, "(1 2)"), EvalError::NotAFunction));
    assert!(matches!(run_err(&mut st, env, "(def! 1 2)"), EvalError::DefNonVariable));
    assert!(matches!(run_err(&mut st, env, "(def!)"), EvalError::InvalidForm));
    assert!(matches!(run_err(&mut st, env, "(let* 1 2)"), EvalError::LetBindings));
    assert!(matches!(run_err(&mut st, env, "(let* (1 2) 3)"), EvalError::LetBindingSymbol));
    assert!(matches!(run_err(&mut st, env, "(let* (x) x)"), EvalError::LetNoValue(_)));
    assert!(matches!(run_err(&mut st, env, "(fn* 1 2)"), EvalError::FnParamList));
    assert!(matches!(run_err(&mut st, env, "(fn* (1) 2)"), EvalError::FnParamName));
}

#[test]
fn test_varargs_without_name_errors_at_call() {
    let (mut st, env) = fresh();
    run(&mut st, env, "(def! g (fn* (&) 1))");
    assert!(matches!(run_err(&mut st, env, "(g)"), EvalError::VarargsName));
}

#[test]
fn test_failed_def_leaves_no_binding() {
    let (mut st, env) = fresh();
    assert!(matches!(run_err(&mut st, env, "(def! z (+ 1 nil))"), EvalError::NativeArgs(_)));
    assert!(matches!(run_err(&mut st, env, "z"), EvalError::NotFound(_)));
}

#[test]
fn test_depth_exhaustion_reported() {
    let (mut st, env) = fresh();
    match rep("(+ 1 (+ 1 (+ 1 1)))", &mut st, env, 3) {
        Err(MalError::Eval(EvalError::DepthExceeded)) => {},
        _ => panic!("expected the depth budget to run out"),
    }
}

#[test]
fn test_functions_print_opaquely() {
    let (mut st, env) = fresh();
    assert_eq!(run(&mut st, env, "(fn* (x) x)"), "#<function>");
    assert_eq!(run(&mut st, env, "+"), "#<function>");
}

#[test]
fn test_function_equality_is_identity() {
    let (mut st, env) = fresh();
    run(&mut st, env, "(def! f (fn* () 1))");
    run(&mut st, env, "(def! g (fn* () 1))");
    assert_eq!(run(&mut st, env, "(= f f)"), "true");
    assert_eq!(run(&mut st, env, "(= f g)"), "false");
    assert_eq!(run(&mut st, env, "(= + +)"), "true");
}

#[test]
fn test_read_error_surfaces_through_rep() {
    let (mut st, env) = fresh();
    match rep("(1 2", &mut st, env, FUEL) {
        Err(MalError::Read(mal::reader::ReadErr::Eof)) => {},
        _ => panic!("expected the read error to surface"),
    }
    assert_eq!(rep("(1 2", &mut st, env, FUEL).unwrap_err().message(), "EOF");
}

#[test]
fn test_hashmap_values_evaluate_and_count() {
    let (mut st, env) = fresh();
    assert_eq!(run(&mut st, env, "(count {\"a\" 1 \"b\" 2})"), "1");
    assert_eq!(run(&mut st, env, "(empty? {})"), "true");
    assert_eq!(run(&mut st, env, "(= {\"a\" (+ 1 1)} {\"a\" 2})"), "true");
}

#[test]
fn test_closures_as_values() {
    let (mut st, env) = fresh();
    assert_eq!(run(&mut st, env, "((fn* (f) (f 2)) (fn* (x) (* x 10)))"), "20");
}

#[test]
fn test_not_from_prelude_definition() {
    let (mut st, env) = fresh();
    run(&mut st, env, "(def! not (fn* (a) (if a false true)))");
    assert_eq!(run(&mut st, env, "(not true)"), "false");
    assert_eq!(run(&mut st, env, "(not nil)"), "true");
}

#[test]
fn test_error_messages_name_the_operator() {
    let (mut st, env) = fresh();
    assert_eq!(run_err(&mut st, env, "(+ 1)").message(), "`+` expects 2 args: 1 were provided");
    assert_eq!(run_err(&mut st, env, "(< 1 nil)").message(), "`<` expects 2 numbers");
    assert_eq!(run_err(&mut st, env, "y").message(), "'y' not found");
}
