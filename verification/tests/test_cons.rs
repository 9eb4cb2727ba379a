use minilisp::value::{append, car, cdr, cons, list, Cell, Value};

#[test]
fn test_cons() {
    let cell = cons(
        &Value::symbol("head"),
        &Cell::new(Value::symbol("tail")),
    );
    assert_eq!(
        cell.values(),
        vec![Value::symbol("head"), Value::symbol("tail")]
    );
}

#[test]
fn test_cons_test_list() {
    let value = list(vec![
        Value::string("head"),
        Value::string("middle"),
        Value::byte(33),
        Value::string("tail"),
    ]);
    assert_eq!(
        value.values(),
        vec![
            Value::string("head"),
            Value::string("middle"),
            Value::Byte(33),
            Value::string("tail"),
        ]
    );
}

#[test]
fn test_cons_test_car() {
    let value = list(vec![
        Value::string("head"),
        Value::string("middle"),
        Value::byte(33),
        Value::string("tail"),
    ]);
    assert_eq!(value.head(), Value::string("head"));
    assert_eq!(car(&value), Value::string("head"));
}

#[test]
fn test_cdr() {
    let value = list(vec![
        Value::symbol("a"),
        Value::symbol("b"),
        Value::symbol("c"),
    ]);
    assert_eq!(
        cdr(&value),
        list(vec![Value::symbol("b"), Value::symbol("c")])
    );
}

#[test]
fn test_append() {
    let value = append(vec![
        list(vec![
            Value::symbol("list1-head"),
            Value::symbol("list1-tail"),
        ]),
        Value::string("middle"),
        list(vec![
            Value::symbol("list2-head"),
            Value::symbol("list2-tail"),
        ]),
    ]);
    assert_eq!(
        value.values(),
        vec![
            Value::symbol("list1-head"),
            Value::symbol("list1-tail"),
            Value::string("middle"),
            Value::symbol("list2-head"),
            Value::symbol("list2-tail"),
        ]
    );
}
