use mal::env::MalEnv;
use mal::printer::pr_str;
use mal::reader::{read_str, read_tokens, parse_integer};
use mal::types::MalType;

fn read_print(src: &str) -> Result<String, &'static str> {
    read_str(src.to_string()).map(|v| pr_str(&v, true))
}

#[test]
fn missing_close_is_unbalanced_list() {
    assert_eq!(read_print("(1 2"), Err("unbalanced list"));
}

#[test]
fn missing_quote_is_unterminated_string() {
    assert_eq!(
        read_print("\"abc"),
        Err("unbalanced string: no terminating doublequote found for string")
    );
    assert_eq!(read_print("\""), Err("unbalanced string"));
}

#[test]
fn other_unbalanced_forms() {
    assert_eq!(read_print("[1 2"), Err("unbalanced vector"));
    assert_eq!(read_print("{\"a\" 1"), Err("unbalanced hashmap"));
    assert_eq!(read_print("{\"a\"}"), Err("unbalanced hashmap"));
    assert_eq!(read_print("{1 2}"), Err("Expecting string or keyword for hash key"));
}

#[test]
fn invalid_numbers() {
    assert_eq!(read_print("12abc"), Err("failed to convert string to integer"));
    assert_eq!(read_print("-1x"), Err("failed to convert string to integer"));
    assert_eq!(read_print("-x"), Ok("-x".to_string()));
    assert_eq!(read_print("->"), Ok("->".to_string()));
    assert_eq!(read_print("9223372036854775808"), Err("failed to convert string to integer"));
}

#[test]
fn empty_input() {
    assert_eq!(read_print(""), Err("unexpected end of input"));
    assert_eq!(read_print("   ; only a comment"), Err("unexpected end of input"));
}

#[test]
fn atoms_read() {
    assert_eq!(read_print("42"), Ok("42".to_string()));
    assert_eq!(read_print("-42"), Ok("-42".to_string()));
    assert_eq!(read_print("-"), Ok("-".to_string()));
    assert_eq!(read_print("nil"), Ok("nil".to_string()));
    assert_eq!(read_print("true"), Ok("true".to_string()));
    assert_eq!(read_print("false"), Ok("false".to_string()));
    assert_eq!(read_print("nilly"), Ok("nilly".to_string()));
    assert_eq!(read_print(":kw"), Ok(":kw".to_string()));
    assert_eq!(read_print("abc"), Ok("abc".to_string()));
    assert_eq!(read_print("\"\""), Ok("\"\"".to_string()));
}

#[test]
fn structures_read() {
    assert_eq!(read_print("( 1 , 2 [ 3 ] )"), Ok("(1 2 [3])".to_string()));
    assert_eq!(read_print("{:a 1 \"b\" [2]}"), Ok("{\"b\" [2] :a 1}".to_string()));
    assert_eq!(read_print("{:a 1 :a 2}"), Ok("{:a 2}".to_string()));
    assert_eq!(read_print("(+ 1 2) ; trailing comment"), Ok("(+ 1 2)".to_string()));
    assert_eq!(read_print("(1 2 ) "), Ok("(1 2)".to_string()));
}

#[test]
fn tokens_are_split_by_pattern() {
    match read_str("(+ 12 \"x y\")".to_string()) {
        Ok(MalType::List(items)) => {
            assert_eq!(items.len(), 3);
            assert!(matches!(&items[0], MalType::Symbol(s) if s == "+"));
            assert!(matches!(&items[1], MalType::Number(12)));
            assert!(matches!(&items[2], MalType::Str(s) if s == "x y"));
        }
        _ => panic!("expected a list"),
    }
}

#[test]
fn read_tokens_skips_comments_and_empty_tokens() {
    let toks = vec!["".to_string(), ";c".to_string(), "(".to_string(), "1".to_string(), ")".to_string()];
    assert_eq!(read_tokens(&toks).map(|v| pr_str(&v, true)), Ok("(1)".to_string()));
}

#[test]
fn string_escapes_decode() {
    match read_str("\"a\\nb\\\\c\\\"d\"".to_string()) {
        Ok(MalType::Str(s)) => assert_eq!(s, "a\nb\\c\"d"),
        _ => panic!("expected a string"),
    }
}

#[test]
fn print_round_trip_on_atoms() {
    for src in [
        "true",
        "false",
        "nil",
        "0",
        "-42",
        "9223372036854775807",
        "-9223372036854775808",
        ":kw",
        "\"\"",
        "\"a\\nb\\\\c\\\"d\"",
        "\"plain\"",
    ] {
        let first = read_print(src).unwrap();
        assert_eq!(first, src);
        let second = read_print(&first).unwrap();
        assert_eq!(second, first);
    }
}

#[test]
fn display_printing_is_raw() {
    let v = MalType::Str("a\"b\n".to_string());
    assert_eq!(pr_str(&v, false), "a\"b\n");
    assert_eq!(pr_str(&v, true), "\"a\\\"b\\n\"");
    let l = MalType::List(vec![MalType::Str("x".to_string()), MalType::NoValue]);
    assert_eq!(pr_str(&l, false), "(x nil)");
}

#[test]
fn parse_integer_bounds() {
    let chars = |s: &str| s.chars().collect::<Vec<char>>();
    assert_eq!(parse_integer(&chars("-9223372036854775808")), Some(i64::MIN));
    assert_eq!(parse_integer(&chars("9223372036854775807")), Some(i64::MAX));
    assert_eq!(parse_integer(&chars("-9223372036854775809")), None);
    assert_eq!(parse_integer(&chars("007")), Some(7));
    assert_eq!(parse_integer(&chars("-")), None);
    assert_eq!(parse_integer(&chars("")), None);
}

#[test]
fn environment_shadowing() {
    let mut env = MalEnv::new();
    env.set("x", MalType::Number(1));
    env.new_env(Some(vec![("x".to_string(), MalType::Number(2)), ("y".to_string(), MalType::Number(3))]));
    assert!(matches!(env.get("x"), Some(MalType::Number(2))));
    assert!(matches!(env.get("y"), Some(MalType::Number(3))));
    env.set("x", MalType::Number(4));
    assert!(matches!(env.get("x"), Some(MalType::Number(4))));
    env.drop_env();
    assert!(matches!(env.get("x"), Some(MalType::Number(1))));
    assert!(env.get("y").is_none());
    env.new_env(None);
    assert!(matches!(env.get("x"), Some(MalType::Number(1))));
}

#[test]
fn set_creates_frame_when_none() {
    let mut env = MalEnv::new();
    env.drop_env();
    assert!(env.get("a").is_none());
    env.set("a", MalType::Boolean(true));
    assert!(matches!(env.get("a"), Some(MalType::Boolean(true))));
    assert_eq!(env.0.len(), 1);
}

#[test]
fn deep_copy_is_independent() {
    let source = MalType::List(vec![MalType::Number(1), MalType::Str("s".to_string())]);
    let mut copy = source.clone();
    if let MalType::List(items) = &mut copy {
        items.push(MalType::NoValue);
    }
    assert_eq!(pr_str(&source, true), "(1 \"s\")");
    assert_eq!(pr_str(&copy, true), "(1 \"s\" nil)");
}

#[test]
fn environment_description_lists_innermost_first() {
    let mut env = MalEnv::new();
    env.set("a", MalType::Number(1));
    env.new_env(Some(vec![("b".to_string(), MalType::Str("x".to_string()))]));
    assert_eq!(
        env.describe(),
        "Environment 0:\nsym: b => \"x\"\nEnvironment 1:\nsym: a => 1\n"
    );
}
