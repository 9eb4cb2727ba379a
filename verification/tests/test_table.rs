use minilisp::parse::{NodePosition, SourceInfo};
use minilisp::sym::Symbol;
use minilisp::table::{Sym, SymbolTable};
use minilisp::value::Value;

#[test]
fn symbol_quoting() {
    let s = Symbol::new("a");
    assert!(!s.is_quoted());
    let q = s.quote();
    assert!(q.is_quoted());
    assert!(!q.unquote().is_quoted());
    assert_eq!(q.name(), "a");
    // equality is by name, independent of quoting
    assert_eq!(s, q);
    assert!(s.same_name(&q));
    assert!(!s.same_name(&Symbol::new("b")));
    let explicit = Symbol::quoted("a", true);
    assert!(explicit.is_quoted());
}

#[test]
fn table_lookup_auto_declares_local() {
    let mut table = SymbolTable::empty();
    match table.get(&Symbol::new("x")) {
        Sym::Value(v) => assert_eq!(v, Value::symbol("x")),
        Sym::Function(_) => panic!("expected a self-valued binding"),
    }
}

#[test]
fn table_locals_shadow_globals() {
    let mut table = SymbolTable::empty();
    table.set_global(&Symbol::new("x"), Sym::Value(Value::unsigned_integer(1)));
    match table.get(&Symbol::new("x")) {
        Sym::Value(v) => assert_eq!(v, Value::unsigned_integer(1)),
        Sym::Function(_) => panic!("expected a value binding"),
    }
    table.set_local(&Symbol::new("x"), Sym::Value(Value::unsigned_integer(2)));
    match table.get(&Symbol::new("x")) {
        Sym::Value(v) => assert_eq!(v, Value::unsigned_integer(2)),
        Sym::Function(_) => panic!("expected a value binding"),
    }
}

#[test]
fn table_extend_merges_globals() {
    let mut a = SymbolTable::empty();
    a.set_global(&Symbol::new("x"), Sym::Value(Value::unsigned_integer(1)));
    let mut b = SymbolTable::empty();
    b.set_global(&Symbol::new("x"), Sym::Value(Value::unsigned_integer(9)));
    b.set_global(&Symbol::new("y"), Sym::Value(Value::unsigned_integer(2)));
    a.extend(&b);
    match a.get(&Symbol::new("x")) {
        Sym::Value(v) => assert_eq!(v, Value::unsigned_integer(9)),
        Sym::Function(_) => panic!("expected a value binding"),
    }
    match a.get(&Symbol::new("y")) {
        Sym::Value(v) => assert_eq!(v, Value::unsigned_integer(2)),
        Sym::Function(_) => panic!("expected a value binding"),
    }
}

#[test]
fn node_position_tuples() {
    let p = NodePosition::from_tuple((3, 7));
    assert_eq!(p.line, 3);
    assert_eq!(p.column, 7);
    assert_eq!(p.to_tuple(), (3, 7));
}

#[test]
fn source_info_filename() {
    let with = SourceInfo::new("(car x)", Some("input.lisp"));
    assert_eq!(with.filename(), Some("input.lisp".to_string()));
    let without = SourceInfo::without_filename("(car x)");
    assert_eq!(without.filename(), None);
}
