use minilisp::value::{list, List, Value};

#[test]
fn value_equals() {
    assert_eq!(Value::string("string"), Value::string("string"));
    assert_eq!(Value::float("10.0"), Value::float("10.0"));
    assert_eq!(Value::byte(0xF1), Value::byte(0xF1));
    assert_eq!(Value::unsigned_integer(0xF1), Value::unsigned_integer(0xF1));
    assert_eq!(Value::integer(7), Value::integer(7));
}

#[test]
fn value_ref_equals() {
    assert_eq!(&Value::string("string"), &Value::string("string"));
    assert_eq!(&Value::float("10.0"), &Value::float("10.0"));
    assert_eq!(&Value::byte(0xF1), &Value::byte(0xF1));
    assert_eq!(&Value::unsigned_integer(0xF1), &Value::unsigned_integer(0xF1));
    assert_eq!(&Value::integer(7), &Value::integer(7));
}

#[test]
fn value_option_ref_equals() {
    assert_eq!(Some(Value::string("string")), Some(Value::string("string")));
    assert_eq!(Some(Value::float("10.0")), Some(Value::float("10.0")));
    assert_eq!(Some(Value::byte(0xF1)), Some(Value::byte(0xF1)));
    assert_eq!(
        Some(Value::unsigned_integer(0xF1)),
        Some(Value::unsigned_integer(0xF1))
    );
    assert_eq!(Some(Value::integer(7)), Some(Value::integer(7)));
}

#[test]
fn value_distinguishes_variants() {
    assert_ne!(Value::Nil, Value::T);
    assert_ne!(Value::string("a"), Value::symbol("a"));
    assert_ne!(Value::symbol("a"), Value::quoted_symbol("a"));
    assert_ne!(Value::byte(1), Value::unsigned_integer(1));
    assert_ne!(Value::EmptyList, Value::EmptyQuotedList);
}

#[test]
fn cell_equality_ignores_quoting_flags() {
    // a list and a quoted list differ, but their contents compare equal
    let a = list(vec![Value::symbol("a"), Value::symbol("b")]);
    let b = list(vec![Value::symbol("a"), Value::symbol("b")]);
    assert_eq!(a, b);
    assert_ne!(a, Value::quoted_list(a.tail()));
}

#[test]
fn as_list_view_normalizes_quoting() {
    // nil and the empty lists collapse to the empty view
    match Value::Nil.as_list() {
        List::Empty(quoted) => assert!(!quoted),
        List::Linked(..) => panic!("expected the empty view"),
    }
    match Value::EmptyQuotedList.as_list() {
        List::Empty(quoted) => assert!(quoted),
        List::Linked(..) => panic!("expected the quoted empty view"),
    }
    // a non-empty list keeps its elements beside the quoting mark
    let v = list(vec![Value::symbol("a"), Value::symbol("b")]);
    match v.as_list() {
        List::Linked(cell, quoted) => {
            assert!(!quoted);
            assert_eq!(cell.values(), vec![Value::symbol("a"), Value::symbol("b")]);
        },
        List::Empty(_) => panic!("expected a linked view"),
    }
    // an atom stands alone in a one-element chain
    match Value::unsigned_integer(7).as_list() {
        List::Linked(cell, quoted) => {
            assert!(!quoted);
            assert_eq!(cell.values(), vec![Value::unsigned_integer(7)]);
        },
        List::Empty(_) => panic!("expected a linked view"),
    }
    // a quoted symbol carries its mark onto the view
    match Value::quoted_symbol("a").as_list() {
        List::Linked(cell, quoted) => {
            assert!(quoted);
            assert!(cell.is_quoted());
            assert_eq!(cell.values(), vec![Value::quoted_symbol("a")]);
        },
        List::Empty(_) => panic!("expected a linked view"),
    }
}

#[test]
fn test_value_list_into_iterator() {
    let value = list(vec![
        Value::symbol("a"),
        Value::symbol("b"),
        Value::symbol("c"),
    ]);
    let strings: Vec<String> = value.values().iter().map(|v| v.text()).collect();
    assert_eq!(strings, vec!["a", "b", "c"]);
}

#[test]
fn test_value_quoted_list_into_iterator() {
    let mut cell = minilisp::value::Cell::new(Value::symbol("a"));
    cell.add(&minilisp::value::Cell::new(Value::symbol("b")));
    cell.add(&minilisp::value::Cell::new(Value::symbol("c")));
    let value = Value::quoted_list(cell);
    let strings: Vec<String> = value.values().iter().map(|v| v.text()).collect();
    assert_eq!(strings, vec!["a", "b", "c"]);
}
