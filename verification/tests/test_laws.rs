use minilisp::value::{append, car, cdr, list, makelist, Cell, Value};

#[test]
fn quote_unquote_round_trip() {
    // unquote(quote(v)) == v, and the result can be quoted again
    let v = Value::symbol("a");
    let q = v.quote();
    assert_eq!(q, Value::quoted_symbol("a"));
    let u = q.unquote();
    assert_eq!(u, v);
    assert_eq!(u.quote(), q);

    let lst = list(vec![Value::symbol("x"), Value::integer(1)]);
    let qlst = lst.quote();
    assert_ne!(qlst, lst);
    assert_eq!(qlst.unquote(), lst);
    assert_eq!(qlst.unquote().quote(), qlst);

    // quoting leaves self-evaluating atoms unchanged
    let n = Value::unsigned_integer(7);
    assert_eq!(n.quote(), n);
    assert_eq!(n.unquote(), n);
    assert_eq!(n.quote().unquote(), n);
}

#[test]
fn list_length_and_cdr_chain() {
    // n atoms added one by one give length n, and cdr applied n times
    // reaches nil
    let mut cell = Cell::nil();
    cell.add(&Cell::new(Value::unsigned_integer(1)));
    cell.add(&Cell::new(Value::unsigned_integer(2)));
    cell.add(&Cell::new(Value::unsigned_integer(3)));
    assert_eq!(cell.len(), 3);
    let v = Value::list(cell);
    assert_eq!(v.len(), 3);
    let step1 = cdr(&v);
    let step2 = cdr(&step1);
    let step3 = cdr(&step2);
    assert_ne!(step2, Value::Nil);
    assert_eq!(step3, Value::Nil);
}

#[test]
fn cdr_of_single_element_list_is_nil() {
    // cdr of a one-element list is nil, not an empty list
    let single = Value::list(Cell::new(Value::symbol("x")));
    assert_eq!(cdr(&single), Value::Nil);
    assert_ne!(cdr(&single), Value::EmptyList);
}

#[test]
fn car_total_on_non_lists() {
    assert_eq!(car(&Value::unsigned_integer(3)), Value::Nil);
    assert_eq!(cdr(&Value::string("a")), Value::Nil);
}

#[test]
fn append_splices_and_skips_nil() {
    let v = append(vec![
        Value::Nil,
        list(vec![Value::symbol("a")]),
        Value::EmptyList,
        Value::symbol("b"),
    ]);
    assert_eq!(v, list(vec![Value::symbol("a"), Value::symbol("b")]));
}

#[test]
fn makelist_repeats_a_value() {
    let v = makelist(&Value::symbol("x"), 3);
    assert_eq!(
        v,
        list(vec![
            Value::symbol("x"),
            Value::symbol("x"),
            Value::symbol("x"),
        ])
    );
}

#[test]
fn wrap_in_list_and_unwrap_list() {
    let v = Value::symbol("a");
    let wrapped = v.wrap_in_list();
    assert_eq!(wrapped, list(vec![Value::symbol("a")]));
    assert_eq!(wrapped.unwrap_list(), v);
}
