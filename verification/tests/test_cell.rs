use minilisp::value::{list, Cell, Value};
use minilisp::vm::VirtualMachine;

#[test]
fn cell_basics() {
    let mut cell = Cell::nil();
    assert!(cell.is_nil());
    assert!(cell.is_empty());
    assert_eq!(cell.len(), 0);
    assert!(cell.head().is_none());
    assert!(cell.tail().is_none());

    cell.add(&Cell::new(Value::symbol("a")));
    cell.add(&Cell::new(Value::symbol("b")));
    assert!(!cell.is_nil());
    assert_eq!(cell.len(), 2);
    assert_eq!(cell.head(), Some(Value::symbol("a")));
    let tail = cell.tail().unwrap();
    assert_eq!(tail.values(), vec![Value::symbol("b")]);
}

#[test]
fn cell_add_appends_whole_chains() {
    let mut left = Cell::new(Value::symbol("a"));
    let mut right = Cell::new(Value::symbol("b"));
    right.add(&Cell::new(Value::symbol("c")));
    left.add(&right);
    assert_eq!(
        left.values(),
        vec![Value::symbol("a"), Value::symbol("b"), Value::symbol("c")]
    );
}

#[test]
fn cell_pop_drops_the_tail() {
    let mut cell = Cell::new(Value::symbol("a"));
    cell.add(&Cell::new(Value::symbol("b")));
    cell.add(&Cell::new(Value::symbol("c")));
    assert!(cell.pop());
    assert_eq!(cell.values(), vec![Value::symbol("a")]);
    assert!(cell.pop());
    assert_eq!(cell.len(), 0);
    assert!(!cell.pop());
}

#[test]
fn cell_quoting_flag() {
    let cell = Cell::new(Value::symbol("a"));
    assert!(!cell.is_quoted());
    let quoted = cell.quote();
    assert!(quoted.is_quoted());
    assert_eq!(quoted.with_quoting(false).is_quoted(), false);
    // the flag does not take part in equality
    assert_eq!(cell, quoted);
}

#[test]
fn cell_as_value_unwraps() {
    assert_eq!(Cell::nil().as_value(), Value::Nil);
    assert_eq!(
        Cell::new(Value::symbol("a")).as_value(),
        Value::symbol("a")
    );
    let mut two = Cell::new(Value::symbol("a"));
    two.add(&Cell::new(Value::symbol("b")));
    let v = two.unwrap_value();
    assert_eq!(
        v.values(),
        vec![Value::symbol("a"), Value::symbol("b")]
    );
    assert!(v.is_list());
}

#[test]
fn value_predicates() {
    assert!(Value::Nil.is_nil());
    assert!(!Value::T.is_nil());
    assert!(Value::symbol("a").is_symbol());
    assert!(Value::quoted_symbol("a").is_symbol());
    assert!(!Value::string("a").is_symbol());
    assert!(Value::quoted_symbol("a").is_quoted());
    assert!(!Value::symbol("a").is_quoted());
    assert!(Value::EmptyQuotedList.is_quoted());
    assert_eq!(Value::symbol("a").len(), 0);
}

#[test]
fn builtin_t_and_backquote() {
    let mut vm = VirtualMachine::new();
    // the keyword `t` parses as the truth value itself, so the builtin is
    // reached with an explicitly built symbol head
    let call_t = list(vec![Value::symbol("t")]);
    assert_eq!(vm.eval(&call_t).unwrap(), Value::T);
    assert_eq!(vm.eval_string("t").unwrap(), Value::T);
    let v = vm.eval_string("(backquote a b)").unwrap();
    assert_eq!(v.text(), "(a b)");
}

#[test]
fn defun_renders_as_data() {
    let mut vm = VirtualMachine::new();
    let v = vm.eval_string("(defun sum (a b) (+ a b))").unwrap();
    // the definition reads back as the function's name and parameter list:
    // a displayable description of the signature, never the body
    assert_eq!(v.text(), "(sum (a b))");
    assert!(!v.text().contains("+"));
}
