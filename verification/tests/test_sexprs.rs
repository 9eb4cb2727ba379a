use minilisp::value::{car, cdr, list, Cell, Value};

#[test]
fn test_car_cdr() {
    // '(a b c)
    let lst = Value::quoted_list({
        let mut cell = Cell::new(Value::symbol("a"));
        cell.add(&Cell::new(Value::symbol("b")));
        cell.add(&Cell::new(Value::symbol("c")));
        cell
    });
    // (car '(a b c)) => 'a : the head of a quoted list is re-quoted
    assert_eq!(car(&lst), Value::quoted_symbol("a"));
    assert_eq!(car(&lst).text(), "'a");
    // (cdr '(a b c)) => (b c)
    assert_eq!(
        cdr(&lst),
        list(vec![Value::symbol("b"), Value::symbol("c")])
    );
    assert_eq!(cdr(&lst).text(), "(b c)");
    // (car (cdr '(a b c))) => b
    assert_eq!(car(&cdr(&lst)), Value::symbol("b"));
    assert_eq!(car(&cdr(&lst)).text(), "b");
}

#[test]
fn test_cdr_nil_single_element_list() {
    // (cdr '(x)) => nil
    assert_eq!(
        cdr(&Value::list(Cell::new(Value::symbol("x")))),
        Value::nil()
    );
    assert_eq!(
        cdr(&Value::quoted_list(Cell::new(Value::symbol("x")))),
        Value::nil()
    );
}

#[test]
fn test_car_and_cdr_nil_empty_list() {
    // (car '()) => nil
    // (cdr '()) => nil
    assert_eq!(car(&Value::EmptyList), Value::Nil);
    assert_eq!(car(&Value::EmptyQuotedList), Value::Nil);
}

#[test]
fn test_car_and_cdr_nil_single_nil_element_list() {
    // (car '(nil)) => nil
    // (cdr '(nil)) => nil
    assert_eq!(car(&Value::list(Cell::nil())), Value::nil());
    assert_eq!(car(&Value::quoted_list(Cell::nil())), Value::nil());
    assert_eq!(cdr(&Value::list(Cell::nil())), Value::nil());
    assert_eq!(cdr(&Value::quoted_list(Cell::nil())), Value::nil());
}

#[test]
fn test_list_quoted_sexprs() {
    // (list 'a 'b 'c): each item's Cell form is appended as it is, so the
    // quoting of every element is kept
    let quoted = list(vec![
        Value::quoted_symbol("a"),
        Value::quoted_symbol("b"),
        Value::quoted_symbol("c"),
    ]);
    assert_eq!(
        quoted.values(),
        vec![
            Value::quoted_symbol("a"),
            Value::quoted_symbol("b"),
            Value::quoted_symbol("c"),
        ]
    );
    assert_ne!(
        quoted,
        list(vec![
            Value::symbol("a"),
            Value::symbol("b"),
            Value::symbol("c"),
        ])
    );
    // (list '(x y z) 3) keeps the quoting of the inner list too
    let quoted_inner = Value::quoted_list({
        let mut cell = Cell::new(Value::symbol("x"));
        cell.add(&Cell::new(Value::symbol("y")));
        cell.add(&Cell::new(Value::symbol("z")));
        cell
    });
    let with_inner = list(vec![quoted_inner.duplicate(), Value::integer(3)]);
    assert_eq!(with_inner.values(), vec![quoted_inner, Value::integer(3)]);
    assert_eq!(with_inner.text(), "('(x y z) 3)");
}
