use minilisp::value::{Cell, Value};

#[test]
fn test_nil() {
    assert_eq!(Value::Nil.text(), "nil");
}

#[test]
fn test_t() {
    assert_eq!(Value::T.text(), "t");
}

#[test]
fn test_string() {
    assert_eq!(Value::string("string").text(), r#""string""#);
}

#[test]
fn test_symbol() {
    assert_eq!(Value::symbol("symbol").text(), "symbol");
}

#[test]
fn test_quotedsymbol() {
    assert_eq!(Value::quoted_symbol("symbol").text(), "'symbol");
}

#[test]
fn test_byte() {
    assert_eq!(Value::byte(0xF1).text(), "0xf1");
}

#[test]
fn test_unsignedinteger() {
    assert_eq!(Value::unsigned_integer(808).text(), "808");
}

#[test]
fn test_integer() {
    assert_eq!(Value::integer(-808).text(), "-808");
    assert_eq!(Value::integer(808).text(), "808");
}

#[test]
fn test_float() {
    assert_eq!(Value::float("2.718281828459045").text(), "2.718281828459045");
    assert_eq!(Value::float("3.141592653589793").text(), "3.141592653589793");
}

#[test]
fn test_value_repr_test_list() {
    let mut cell = Cell::new(Value::symbol("head"));
    cell.add(&Cell::new(Value::integer(10)));
    cell.add(&Cell::new(Value::symbol("x")));
    assert_eq!(Value::list(cell).text(), "(head 10 x)");

    let mut cell = Cell::nil();
    cell.add(&Cell::new(Value::symbol("head")));
    cell.add(&Cell::new(Value::integer(10)));
    cell.add(&Cell::new(Value::symbol("x")));
    assert_eq!(Value::list(cell).text(), "(head 10 x)");
}

#[test]
fn test_quotedlist() {
    let mut cell = Cell::new(Value::symbol("head"));
    cell.add(&Cell::new(Value::integer(10)));
    cell.add(&Cell::new(Value::symbol("x")));
    assert_eq!(Value::quoted_list(cell).text(), "'(head 10 x)");
}

#[test]
fn test_emptylist() {
    assert_eq!(Value::empty_list().text(), "()");
    assert_eq!(Value::EmptyList.text(), "()");
}

#[test]
fn test_emptyquotedlist() {
    assert_eq!(Value::empty_quoted_list().text(), "'()");
    assert_eq!(Value::EmptyQuotedList.text(), "'()");
}
