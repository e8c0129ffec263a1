use mal::env::MalEnv;
use mal::eval::{eval, rep};
use mal::reader::read_str;
use mal::intrinsics::initialize_env;
use mal::types::MalErr;

fn fresh() -> MalEnv {
    let mut env = MalEnv::new();
    initialize_env(&mut env);
    env
}

fn run(env: &mut MalEnv, src: &str) -> Result<String, MalErr> {
    let mut out: Vec<String> = Vec::new();
    rep(src.to_string(), env, &mut out)
}

fn ok(env: &mut MalEnv, src: &str) -> String {
    match run(env, src) {
        Ok(s) => s,
        Err(e) => panic!("{} failed: {}", src, e.message()),
    }
}

fn is_element_err(r: Result<String, MalErr>) -> bool {
    matches!(r, Err(MalErr::ElementErr1(_, _)))
}

fn is_type_err(r: Result<String, MalErr>) -> bool {
    matches!(r, Err(MalErr::TypeErr1(_, _, _)))
}

#[test]
fn nested_let_shadows_and_restores() {
    let mut env = fresh();
    assert_eq!(ok(&mut env, "(let* (x 1) (let* (x 2) x))"), "2");
    assert_eq!(ok(&mut env, "(let* (x 1) (let* (y (let* (x 2) x)) (list x y)))"), "(1 2)");
    assert_eq!(ok(&mut env, "(def! x 10)"), "10");
    assert_eq!(ok(&mut env, "(let* (x 1) (let* (x 2) x))"), "2");
    assert_eq!(ok(&mut env, "x"), "10");
}

#[test]
fn let_bindings_see_earlier_ones() {
    let mut env = fresh();
    assert_eq!(ok(&mut env, "(let* (a 2 b (+ a 1)) (* a b))"), "6");
    assert_eq!(ok(&mut env, "(let* [a 5] a)"), "5");
}

#[test]
fn let_frame_is_removed_on_error() {
    let mut env = fresh();
    assert!(matches!(run(&mut env, "(let* (q 1 r undefined-thing) q)"), Err(MalErr::SymbolErr1(_))));
    assert!(matches!(run(&mut env, "q"), Err(MalErr::SymbolErr1(_))));
    assert_eq!(env.0.len(), 1);
}

#[test]
fn let_odd_bindings_is_count_error() {
    let mut env = fresh();
    assert!(is_element_err(run(&mut env, "(let* (a 1 b) a)")));
    assert!(is_type_err(run(&mut env, "(let* 5 1)")));
    assert!(is_type_err(run(&mut env, "(let* (1 2) 1)")));
}

#[test]
fn zero_is_truthy() {
    let mut env = fresh();
    assert_eq!(ok(&mut env, "(if 0 \"t\" \"f\")"), "\"t\"");
}

#[test]
fn false_and_nil_are_falsy() {
    let mut env = fresh();
    assert_eq!(ok(&mut env, "(if false \"t\" \"f\")"), "\"f\"");
    assert_eq!(ok(&mut env, "(if nil \"t\" \"f\")"), "\"f\"");
    assert_eq!(ok(&mut env, "(if true \"t\" \"f\")"), "\"t\"");
    assert_eq!(ok(&mut env, "(if false 1)"), "nil");
    assert_eq!(ok(&mut env, "(if (list) 1 2)"), "1");
}

#[test]
fn function_call_adds() {
    let mut env = fresh();
    assert_eq!(ok(&mut env, "((fn* (a b) (+ a b)) 3 4)"), "7");
}

#[test]
fn function_call_wrong_count() {
    let mut env = fresh();
    assert!(is_element_err(run(&mut env, "((fn* (a b) (+ a b)) 3)")));
    assert!(is_element_err(run(&mut env, "((fn* (a b) (+ a b)) 3 4 5)")));
    assert_eq!(env.0.len(), 1);
}

#[test]
fn defined_function_recurses() {
    let mut env = fresh();
    ok(&mut env, "(def! sum (fn* (n) (if (= n 0) 0 (+ n (sum (- n 1))))))");
    assert_eq!(ok(&mut env, "(sum 10)"), "55");
}

#[test]
fn runaway_recursion_hits_depth_limit() {
    let mut env = fresh();
    ok(&mut env, "(def! f (fn* (n) (f n)))");
    let form = read_str("(f 1)".to_string()).unwrap();
    let mut out: Vec<String> = Vec::new();
    assert!(matches!(eval(&form, &mut env, &mut out, 60), Err(MalErr::DepthErr)));
    assert_eq!(env.0.len(), 1);
}

#[test]
fn fn_parameters_must_be_symbols() {
    let mut env = fresh();
    assert!(is_type_err(run(&mut env, "(fn* (a 1) a)")));
    assert!(is_type_err(run(&mut env, "(fn* [a] a)")));
    assert_eq!(ok(&mut env, "(fn* (a) a)"), "#function");
}

#[test]
fn list_equality_is_structural() {
    let mut env = fresh();
    assert_eq!(ok(&mut env, "(= (list 1 2) (list 1 2))"), "true");
    assert_eq!(ok(&mut env, "(= (list 1 2) (list 1 3))"), "false");
    assert!(is_type_err(run(&mut env, "(= (list 1 2) 1)")));
}

#[test]
fn equality_edge_cases() {
    let mut env = fresh();
    assert_eq!(ok(&mut env, "(= [1 [2 \"x\"]] [1 [2 \"x\"]])"), "true");
    assert_eq!(ok(&mut env, "(= nil nil)"), "true");
    assert_eq!(ok(&mut env, "(= \"a\" \"b\")"), "false");
    assert!(is_element_err(run(&mut env, "(= (list 1) (list 1 2))")));
    assert!(matches!(run(&mut env, "(= {} {})"), Err(MalErr::Generic1(_))));
    assert!(matches!(run(&mut env, "(= :a :a)"), Err(MalErr::Generic1(_))));
    assert!(is_element_err(run(&mut env, "(= 1)")));
}

#[test]
fn special_forms_reject_wrong_counts() {
    let mut env = fresh();
    for src in ["(def! x)", "(let* (x 1))", "(fn* (a))", "(if)", "(if 1 2 3 4)", "(do)"] {
        assert!(is_element_err(run(&mut env, src)), "{}", src);
    }
}

#[test]
fn intrinsics_reject_wrong_counts() {
    let mut env = fresh();
    for src in ["(+ 1)", "(- 1 2 3)", "(* )", "(/ 1)", "(count)", "(empty? 1 2)", "(list? )", "(< 1)", "(<= 1 2 3)", "(> 1)", "(>= 1)"] {
        assert!(is_element_err(run(&mut env, src)), "{}", src);
    }
}

#[test]
fn arithmetic_values() {
    let mut env = fresh();
    assert_eq!(ok(&mut env, "(+ 1 2)"), "3");
    assert_eq!(ok(&mut env, "(- 1 2)"), "-1");
    assert_eq!(ok(&mut env, "(* -3 4)"), "-12");
    assert_eq!(ok(&mut env, "(/ 7 2)"), "3");
    assert_eq!(ok(&mut env, "(/ -7 2)"), "-3");
    assert_eq!(ok(&mut env, "(/ -7 -2)"), "3");
}

#[test]
fn arithmetic_errors() {
    let mut env = fresh();
    assert!(matches!(run(&mut env, "(/ 1 0)"), Err(MalErr::Generic1(_))));
    assert!(matches!(run(&mut env, "(+ 9223372036854775807 1)"), Err(MalErr::Generic1(_))));
    assert!(matches!(run(&mut env, "(/ -9223372036854775808 -1)"), Err(MalErr::Generic1(_))));
    assert!(is_type_err(run(&mut env, "(+ 1 \"a\")")));
    assert!(is_type_err(run(&mut env, "(+ \"a\" 1)")));
}

#[test]
fn comparisons() {
    let mut env = fresh();
    assert_eq!(ok(&mut env, "(< 1 2)"), "true");
    assert_eq!(ok(&mut env, "(<= 2 2)"), "true");
    assert_eq!(ok(&mut env, "(> 1 2)"), "false");
    assert_eq!(ok(&mut env, "(>= 1 2)"), "false");
    assert!(is_type_err(run(&mut env, "(< 1 nil)")));
}

#[test]
fn list_intrinsics() {
    let mut env = fresh();
    assert_eq!(ok(&mut env, "(list 1 \"a\" :k)"), "(1 \"a\" :k)");
    assert_eq!(ok(&mut env, "(list? (list))"), "true");
    assert_eq!(ok(&mut env, "(list? [1])"), "false");
    assert_eq!(ok(&mut env, "(empty? [])"), "true");
    assert_eq!(ok(&mut env, "(empty? (list 1))"), "false");
    assert_eq!(ok(&mut env, "(count [1 2 3])"), "3");
    assert!(is_type_err(run(&mut env, "(count 5)")));
    assert!(is_type_err(run(&mut env, "(empty? nil)")));
}

#[test]
fn prn_emits_display_text() {
    let mut env = fresh();
    let mut out: Vec<String> = Vec::new();
    let r = rep("(prn \"a\\nb\")".to_string(), &mut env, &mut out);
    assert_eq!(r.unwrap(), "nil");
    assert_eq!(out, vec!["a\nb".to_string()]);
    let r = rep("(prn)".to_string(), &mut env, &mut out);
    assert_eq!(r.unwrap(), "nil");
    assert_eq!(out.len(), 1);
}

#[test]
fn do_evaluates_operands_in_order() {
    let mut env = fresh();
    assert_eq!(ok(&mut env, "(do 1 2 3)"), "3");
    let mut out: Vec<String> = Vec::new();
    ok(&mut env, "(def! a 7)");
    let r = rep("(do a [a 1])".to_string(), &mut env, &mut out);
    assert_eq!(r.unwrap(), "[7 1]");
}

#[test]
fn symbols_and_containers_evaluate() {
    let mut env = fresh();
    assert!(matches!(run(&mut env, "nope"), Err(MalErr::SymbolErr1(_))));
    assert_eq!(ok(&mut env, "[(+ 1 1) :k \"s\"]"), "[2 :k \"s\"]");
    assert_eq!(ok(&mut env, "{\"a\" (+ 1 2)}"), "{\"a\" 3}");
    assert_eq!(ok(&mut env, "()"), "()");
    assert_eq!(ok(&mut env, "+"), "#intrinsic");
    assert!(is_type_err(run(&mut env, "(1 2)")));
}

#[test]
fn def_requires_symbol() {
    let mut env = fresh();
    assert!(is_type_err(run(&mut env, "(def! 1 2)")));
    assert_eq!(ok(&mut env, "(def! y (+ 1 1))"), "2");
    assert_eq!(ok(&mut env, "y"), "2");
}

#[test]
fn read_errors_become_generic_errors() {
    let mut env = fresh();
    match run(&mut env, "(1 2") {
        Err(MalErr::Generic1(m)) => assert_eq!(m, "unbalanced list"),
        _ => panic!("expected a read error"),
    }
}

#[test]
fn error_messages() {
    assert_eq!(MalErr::SymbolErr1("x".to_string()).message(), "Symbol Error: 'x' not found");
    assert_eq!(
        MalErr::ElementErr1("2 arguments".to_string(), "1 arguments".to_string()).message(),
        "List Element Error: expected 2 arguments but got 1 arguments."
    );
    assert_eq!(
        MalErr::TypeErr1("number".to_string(), "string".to_string(), "x".to_string()).message(),
        "Type Error: expected a(n) number but got a(n) string for x."
    );
    assert_eq!(MalErr::Generic1("g".to_string()).message(), "Generic Error: g");
    assert_eq!(MalErr::InternalErr2("i").message(), "Internal Error: i.");
}

#[test]
fn arity_error_text() {
    let mut env = fresh();
    match run(&mut env, "(+ 1)") {
        Err(MalErr::ElementErr1(a, b)) => {
            assert_eq!(a, "2 arguments to intrinsic '+' function");
            assert_eq!(b, "1 arguments");
        }
        _ => panic!("expected a count error"),
    }
}

#[test]
fn evaluation_in_an_empty_environment() {
    let mut env = MalEnv::new();
    env.drop_env();
    let mut out: Vec<String> = Vec::new();
    let form = read_str("(def! z 3)".to_string()).unwrap();
    assert!(matches!(eval(&form, &mut env, &mut out, 10), Ok(mal::types::MalType::Number(3))));
    assert_eq!(env.0.len(), 1);
    let mut empty = MalEnv::new();
    empty.drop_env();
    let form = read_str("(let* (a 1) a)".to_string()).unwrap();
    assert!(matches!(eval(&form, &mut empty, &mut out, 10), Ok(mal::types::MalType::Number(1))));
    assert_eq!(empty.0.len(), 0);
}

#[test]
fn dash_tokens_are_symbols() {
    let mut env = fresh();
    assert!(matches!(run(&mut env, "-x"), Err(MalErr::SymbolErr1(s)) if s == "-x"));
    assert_eq!(ok(&mut env, "(let* (-> 5) ->)"), "5");
}

#[test]
fn if_count_error_text() {
    let mut env = fresh();
    match run(&mut env, "(if)") {
        Err(MalErr::ElementErr1(a, b)) => {
            assert_eq!(a, "3 or 4 arguments for if");
            assert_eq!(b, "1 arguments");
        }
        _ => panic!("expected a count error"),
    }
}
