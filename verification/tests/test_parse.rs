use minilisp::parse::{parse, parse_source};
use minilisp::value::{list, Value};

#[test]
fn test_cons_of_literal_strings() {
    // (cons "a" "b")
    let item = parse_source(r#"(cons "a" "b")"#).unwrap();
    assert_eq!(
        item,
        list(vec![
            Value::symbol("cons"),
            Value::string("a"),
            Value::string("b"),
        ])
    );
}

#[test]
fn test_list_of_literal_strings() {
    // (list "a" "b")
    let item = parse_source(r#"(list "a" "b")"#).unwrap();
    assert_eq!(
        item,
        list(vec![
            Value::symbol("list"),
            Value::string("a"),
            Value::string("b"),
        ])
    );
}

#[test]
fn test_quoted_list_of_literal_strings() {
    // '("a" "b") reads as (quote "a" "b")
    let item = parse_source(r#"'("a" "b")"#).unwrap();
    assert_eq!(
        item,
        list(vec![
            Value::symbol("quote"),
            Value::string("a"),
            Value::string("b"),
        ])
    );
}

#[test]
fn test_call_to_function_add_two_numbers() {
    // (+ 1 2)
    let item = parse_source(r#"(+ 1 2)"#).unwrap();
    assert_eq!(
        item,
        list(vec![
            Value::symbol("+"),
            Value::unsigned_integer(1),
            Value::unsigned_integer(2),
        ])
    );
}

#[test]
fn test_list_of_literal_strings_and_quoted_list_of_literal_strings() {
    // (list "a" "b" '("c" "d"))
    let item = parse_source(r#"(list "a" "b" '("c" "d"))"#).unwrap();
    assert_eq!(
        item,
        list(vec![
            Value::symbol("list"),
            Value::string("a"),
            Value::string("b"),
            list(vec![
                Value::symbol("quote"),
                Value::string("c"),
                Value::string("d"),
            ]),
        ])
    );
}

#[test]
fn test_cons_of_car_literal_string_and_cdr_quoted_list_of_literal_strings() {
    // (cons "a" '("b" "c"))
    let item = parse_source(r#"(cons "a" '("b" "c"))"#).unwrap();
    assert_eq!(
        item,
        list(vec![
            Value::symbol("cons"),
            Value::string("a"),
            list(vec![
                Value::symbol("quote"),
                Value::string("b"),
                Value::string("c"),
            ]),
        ])
    );
}

#[test]
fn test_parse_test_print() {
    let item = parse_source(r#"(print "t")"#).unwrap();
    assert_eq!(
        item,
        list(vec![Value::symbol("print"), Value::string("t")])
    );
}

#[test]
fn test_defun() {
    // (defun myfun() (cons "a" '("b" "c")))
    let item = parse_source(r#"(defun myfun() (cons "a" '("b" "c")))"#).unwrap();
    assert_eq!(
        item,
        list(vec![
            Value::symbol("defun"),
            Value::symbol("myfun"),
            list(vec![]),
            list(vec![
                Value::symbol("cons"),
                Value::string("a"),
                list(vec![
                    Value::symbol("quote"),
                    Value::string("b"),
                    Value::string("c"),
                ]),
            ]),
        ])
    );
}

#[test]
fn parse_atoms() {
    assert_eq!(parse("t").unwrap(), Value::T);
    assert_eq!(parse("nil").unwrap(), Value::Nil);
    assert_eq!(parse("42").unwrap(), Value::unsigned_integer(42));
    assert_eq!(parse("4294967295").unwrap(), Value::unsigned_integer(4294967295));
    assert_eq!(parse("4294967296").unwrap(), Value::integer(4294967296));
    assert_eq!(parse("-808").unwrap(), Value::integer(-808));
    assert_eq!(parse("1.5").unwrap(), Value::float("1.5"));
    assert_eq!(parse("-1.5").unwrap(), Value::float("-1.5"));
    assert_eq!(parse("foo").unwrap(), Value::symbol("foo"));
    assert_eq!(parse("'foo").unwrap(), Value::quoted_symbol("foo"));
    assert_eq!(parse("  t  ").unwrap(), Value::T);
}

#[test]
fn parse_rejects_bad_text() {
    assert!(parse("").is_err());
    assert!(parse("(((").is_err());
    assert!(parse(")").is_err());
    assert!(parse(r#""unterminated"#).is_err());
    assert!(parse("t nil").is_err());
    assert!(parse("99999999999999999999").is_err());
}

#[test]
fn parse_error_reports_position() {
    let e = parse("(a\n   ?").unwrap_err();
    assert!(e.start().line >= 1);
    assert!(e.start().column >= 1);
}

#[test]
fn parse_then_render_round_trip() {
    let item = parse(r#"(car '(a b) "x" 3)"#).unwrap();
    assert_eq!(item.text(), r#"(car (quote a b) "x" 3)"#);
}
