use minilisp::errors::ErrorKind;
use minilisp::value::{list, Value};
use minilisp::vm::VirtualMachine;

#[test]
fn test_multiply_numbers() {
    let mut vm = VirtualMachine::new();
    let ast = list(vec![
        Value::symbol("*"),
        Value::integer(3),
        Value::integer(7),
    ]);
    let val = vm.eval(&ast).unwrap();
    assert_eq!(val, Value::integer(21));
}

#[test]
fn test_add_numbers() {
    let mut vm = VirtualMachine::new();
    let ast = list(vec![
        Value::symbol("+"),
        Value::unsigned_integer(2),
        Value::unsigned_integer(2),
    ]);
    let val = vm.eval(&ast).unwrap();
    assert_eq!(val, Value::unsigned_integer(4));
}

#[test]
fn test_subtract_numbers() {
    let mut vm = VirtualMachine::new();
    let ast = list(vec![
        Value::symbol("-"),
        Value::unsigned_integer(5),
        Value::unsigned_integer(2),
    ]);
    let val = vm.eval(&ast).unwrap();
    assert_eq!(val, Value::unsigned_integer(3));
}

#[test]
fn test_divide_numbers() {
    // integer division in place of the float quotient: float arithmetic is
    // outside the verified core, which carries float literals as opaque text
    let mut vm = VirtualMachine::new();
    let val = vm.eval_string("(/ 30 3)").unwrap();
    assert_eq!(val, Value::unsigned_integer(10));
}

#[test]
fn test_list_test_car() {
    let mut vm = VirtualMachine::new();
    let ast = list(vec![
        Value::symbol("car"),
        list(vec![
            Value::symbol("a"),
            Value::symbol("b"),
            Value::symbol("c"),
        ]),
    ]);
    let val = vm.eval(&ast).unwrap();
    assert_eq!(val, Value::symbol("a"));
}

#[test]
fn test_eval_defun_recursive() {
    let mut vm = VirtualMachine::new();
    vm.eval_string(r#"(defun sum (a b) (+ a b))"#).unwrap();
    let val = vm.eval_string(r#"(sum 40 (sum 1 1))"#).unwrap();
    assert_eq!(val, Value::unsigned_integer(42));
}

#[test]
fn test_string_test_print() {
    let mut vm = VirtualMachine::new();
    let ast = list(vec![
        Value::symbol("print"),
        Value::unsigned_integer(2),
        Value::unsigned_integer(2),
    ]);
    let val = vm.eval(&ast).unwrap();
    // print returns its raw argument list and records it on the output
    let expected = list(vec![
        Value::unsigned_integer(2),
        Value::unsigned_integer(2),
    ]);
    assert_eq!(val, expected);
    let out = vm.take_output();
    assert_eq!(out, vec![expected]);
    assert_eq!(vm.take_output(), Vec::<Value>::new());
}

#[test]
fn arithmetic_kind_promotion() {
    let mut vm = VirtualMachine::new();
    // (+ 1 2) folds in the unsigned kind
    assert_eq!(vm.eval_string("(+ 1 2)").unwrap(), Value::unsigned_integer(3));
    // (+ 1 2 3) folds left to right
    assert_eq!(vm.eval_string("(+ 1 2 3)").unwrap(), Value::unsigned_integer(6));
    // a float first rejects a later integer, naming the offending value
    let e = vm.eval_string("(+ 1.0 2)").unwrap_err();
    assert_eq!(e.kind(), ErrorKind::TypeMismatch);
    assert_eq!(
        e.cause().unwrap().message(),
        "mixed numeric kinds in arithmetic: 2"
    );
}

#[test]
fn arithmetic_errors_name_the_offending_value() {
    let mut vm = VirtualMachine::new();
    let e = vm.eval_string(r#"(+ "a" 1)"#).unwrap_err();
    assert_eq!(e.kind(), ErrorKind::TypeMismatch);
    assert_eq!(
        e.cause().unwrap().message(),
        "arithmetic on a non-numeric value: \"a\""
    );
    let e = vm.eval_string("(+ 1 -2)").unwrap_err();
    assert_eq!(e.kind(), ErrorKind::TypeMismatch);
    assert_eq!(
        e.cause().unwrap().message(),
        "mixed numeric kinds in arithmetic: -2"
    );
}

#[test]
fn defun_scoping() {
    let mut vm = VirtualMachine::new();
    vm.eval_string("(defun sum (a b) (+ a b))").unwrap();
    let val = vm.eval_string("(sum 1 1)").unwrap();
    assert_eq!(val, Value::unsigned_integer(2));
    // the call's parameters do not leak into the global table
    for (sym, _) in vm.symbols() {
        assert_ne!(sym.name(), "a");
        assert_ne!(sym.name(), "b");
    }
}

#[test]
fn setq_visibility_across_evaluations() {
    let mut vm = VirtualMachine::new();
    vm.eval_string("(setq x 5)").unwrap();
    let val = vm.eval_string("x").unwrap();
    assert_eq!(val, Value::unsigned_integer(5));
}

#[test]
fn setq_binds_pairs_and_returns_last() {
    let mut vm = VirtualMachine::new();
    let val = vm.eval_string("(setq a 1 b 2)").unwrap();
    assert_eq!(val, Value::unsigned_integer(2));
    assert_eq!(vm.eval_string("a").unwrap(), Value::unsigned_integer(1));
    assert_eq!(vm.eval_string("b").unwrap(), Value::unsigned_integer(2));
}

#[test]
fn unbound_symbol_self_evaluates() {
    let mut vm = VirtualMachine::new();
    let val = vm.eval(&Value::symbol("foo")).unwrap();
    assert_eq!(val, Value::symbol("foo"));
}

#[test]
fn parse_and_eval_cons_scenario() {
    let mut vm = VirtualMachine::new();
    let ast = minilisp::parse::parse(r#"(cons "a" "b")"#).unwrap();
    // the parsed form is a list holding two string values after its head
    assert_eq!(
        ast.values(),
        vec![Value::symbol("cons"), Value::string("a"), Value::string("b")]
    );
    let val = vm.eval(&ast).unwrap();
    assert_eq!(
        val.values(),
        vec![Value::string("a"), Value::string("b")]
    );
}

#[test]
fn quoted_values_evaluate_to_themselves() {
    let mut vm = VirtualMachine::new();
    let val = vm.eval(&Value::quoted_symbol("foo")).unwrap();
    assert_eq!(val, Value::quoted_symbol("foo"));
    let q = vm.eval_string("'(a b)").unwrap();
    assert_eq!(q.text(), "'(a b)");
}

#[test]
fn quote_builtin_marks_data() {
    let mut vm = VirtualMachine::new();
    let val = vm.eval_string("(quote a b)").unwrap();
    assert_eq!(val.text(), "'(a b)");
}

#[test]
fn error_arity_mismatch() {
    let mut vm = VirtualMachine::new();
    vm.eval_string("(defun sum (a b) (+ a b))").unwrap();
    let e = vm.eval_string("(sum 1)").unwrap_err();
    assert_eq!(e.kind(), ErrorKind::ArityMismatch);
    let e = vm.eval_string("(+ 1)").unwrap_err();
    assert_eq!(e.kind(), ErrorKind::ArityMismatch);
}

#[test]
fn error_malformed_setq() {
    let mut vm = VirtualMachine::new();
    let e = vm.eval_string("(setq x)").unwrap_err();
    assert_eq!(e.kind(), ErrorKind::MalformedForm);
}

#[test]
fn error_type_mismatch_setq_name() {
    let mut vm = VirtualMachine::new();
    let e = vm.eval_string("(setq 5 5)").unwrap_err();
    assert_eq!(e.kind(), ErrorKind::TypeMismatch);
}

#[test]
fn error_arithmetic_overflow_and_division() {
    let mut vm = VirtualMachine::new();
    let e = vm.eval_string("(+ 4294967295 1)").unwrap_err();
    assert_eq!(e.kind(), ErrorKind::Arithmetic);
    let e = vm.eval_string("(/ 1 0)").unwrap_err();
    assert_eq!(e.kind(), ErrorKind::Arithmetic);
}

#[test]
fn error_recursion_limit() {
    let mut vm = VirtualMachine::new();
    vm.eval_string("(defun spin (n) (spin n))").unwrap();
    let e = vm.eval_string("(spin 1)").unwrap_err();
    assert_eq!(e.kind(), ErrorKind::RecursionLimit);
}

#[test]
fn error_unsupported_float_fold() {
    let mut vm = VirtualMachine::new();
    let e = vm.eval_string("(+ 1.5 2.5)").unwrap_err();
    assert_eq!(e.kind(), ErrorKind::Unsupported);
}

#[test]
fn error_parse_kind() {
    let mut vm = VirtualMachine::new();
    let e = vm.eval_string("(((").unwrap_err();
    assert_eq!(e.kind(), ErrorKind::Parse);
}

#[test]
fn errors_wrap_preserving_kind() {
    let mut vm = VirtualMachine::new();
    vm.eval_string("(defun bad (a) (+ a 1.0))").unwrap();
    let e = vm.eval_string("(bad 1)").unwrap_err();
    // the failure inside the call is wrapped with the caller's context but
    // keeps its kind and cause
    assert_eq!(e.kind(), ErrorKind::TypeMismatch);
    assert!(e.cause().is_some());
}

#[test]
fn nested_arithmetic_operands_evaluate() {
    let mut vm = VirtualMachine::new();
    let val = vm.eval_string("(* 4 (+ 3 2))").unwrap();
    assert_eq!(val, Value::unsigned_integer(20));
}

#[test]
fn arithmetic_promotes_bytes() {
    let mut vm = VirtualMachine::new();
    // a byte operand folds into the unsigned kind
    let ast = list(vec![
        Value::symbol("+"),
        Value::byte(1),
        Value::unsigned_integer(2),
    ]);
    assert_eq!(vm.eval(&ast).unwrap(), Value::unsigned_integer(3));
}

#[test]
fn list_with_non_symbol_head_is_data() {
    let mut vm = VirtualMachine::new();
    let ast = list(vec![Value::unsigned_integer(2), Value::unsigned_integer(3)]);
    let val = vm.eval(&ast).unwrap();
    assert_eq!(val, ast);
}

#[test]
fn failed_evaluation_does_not_merge_globals() {
    let mut vm = VirtualMachine::new();
    vm.eval_string("(setq x 1)").unwrap();
    // the first binding of this form happens before the failure, but a
    // failed top-level evaluation merges nothing back
    let e = vm.eval_string("(setq x 2 y (+ 1 1.0))").unwrap_err();
    assert_eq!(e.kind(), ErrorKind::TypeMismatch);
    assert_eq!(vm.eval_string("x").unwrap(), Value::unsigned_integer(1));
}

#[test]
fn arity_error_message_names_function_and_counts() {
    let mut vm = VirtualMachine::new();
    vm.eval_string("(defun sum (a b) (+ a b))").unwrap();
    let e = vm.eval_string("(sum 1)").unwrap_err();
    assert_eq!(e.message(), "failed to evaluate function sum");
    let cause = e.cause().unwrap();
    assert_eq!(cause.message(), "sum expected 2 args but received 1");
}

#[test]
fn setq_error_messages_report_the_detail() {
    let mut vm = VirtualMachine::new();
    let e = vm.eval_string("(setq x)").unwrap_err();
    assert_eq!(e.cause().unwrap().message(), "odd number of arguments (1) in setq");
    let e = vm.eval_string("(setq 5 5)").unwrap_err();
    assert_eq!(e.cause().unwrap().message(), "setq invoked with a non-symbol: 5");
}

#[test]
fn symbols_snapshot_is_complete_and_deduplicated() {
    let mut vm = VirtualMachine::new();
    vm.eval_string("(setq x 1)").unwrap();
    vm.eval_string("(setq x 2)").unwrap();
    let snapshot = vm.symbols();
    let xs: Vec<&(minilisp::sym::Symbol, Value)> =
        snapshot.iter().filter(|(s, _)| s.name() == "x").collect();
    assert_eq!(xs.len(), 1);
    assert_eq!(xs[0].1, Value::unsigned_integer(2));
    // the builtin registry is part of the snapshot
    assert!(snapshot.iter().any(|(s, _)| s.name() == "car"));
}

#[test]
fn list_builtin_keeps_item_quoting() {
    let mut vm = VirtualMachine::new();
    let v = vm.eval_string("(list 'a 'b)").unwrap();
    assert_eq!(v.text(), "('a 'b)");
    assert_eq!(
        v.values(),
        vec![Value::quoted_symbol("a"), Value::quoted_symbol("b")]
    );
}
