//! Symbols: interned-by-value identifier strings carrying a quoting flag.
//!
//! Two symbols are equal when their names are equal, independently of the
//! quoting flag, so `a` and `'a` are the same table key but distinct runtime
//! values at the `Value` level (which separates the quoted form into its own
//! variant).

use vstd::prelude::*;

verus! {

/// Mathematical model of a symbol: its name and its quoting flag.
pub ghost struct SymModel {
    pub name: Seq<char>,
    pub quoted: bool,
}

#[derive(Debug, Clone)]
pub struct Symbol {
    name: String,
    quoted: bool,
}

impl View for Symbol {
    type V = SymModel;

    closed spec fn view(&self) -> SymModel {
        SymModel { name: self.name@, quoted: self.quoted }
    }
}

impl Symbol {
    /// A fresh, unquoted symbol with the given name.
    pub fn new(name: &str) -> (r: Symbol)
        ensures
            r@.name == name@,
            !r@.quoted,
    {
        Symbol { name: name.to_owned(), quoted: false }
    }

    /// A symbol with an explicit quoting flag.
    pub fn quoted(name: &str, quoted: bool) -> (r: Symbol)
        ensures
            r@.name == name@,
            r@.quoted == quoted,
    {
        Symbol { name: name.to_owned(), quoted }
    }

    /// The same name, marked quoted.
    pub fn quote(&self) -> (r: Symbol)
        ensures
            r@.name == self@.name,
            r@.quoted,
    {
        Symbol { name: self.name.clone(), quoted: true }
    }

    /// The same name, with the quoting mark removed.
    pub fn unquote(&self) -> (r: Symbol)
        ensures
            r@.name == self@.name,
            !r@.quoted,
    {
        Symbol { name: self.name.clone(), quoted: false }
    }

    pub fn is_quoted(&self) -> (r: bool)
        ensures
            r == self@.quoted,
    {
        self.quoted
    }

    /// The symbol's name.
    pub fn name(&self) -> (r: &str)
        ensures
            r@ == self@.name,
    {
        self.name.as_str()
    }

    /// An exact copy.  Unlike the derived `Clone`, this carries a contract.
    pub fn duplicate(&self) -> (r: Symbol)
        ensures
            r == *self,
    {
        Symbol { name: self.name.clone(), quoted: self.quoted }
    }

    /// Name equality, ignoring the quoting flag: the relation under which
    /// symbols act as table keys.
    pub fn same_name(&self, other: &Symbol) -> (r: bool)
        ensures
            r == (self@.name == other@.name),
    {
        self.name == other.name
    }
}

/// Symbol equality compares names only: quoting does not change the key.
impl PartialEq for Symbol {
    fn eq(&self, other: &Symbol) -> (r: bool) {
        self.name == other.name
    }
}

impl vstd::std_specs::cmp::PartialEqSpecImpl for Symbol {
    open spec fn obeys_eq_spec() -> bool {
        true
    }

    open spec fn eq_spec(&self, other: &Symbol) -> bool {
        self@.name == other@.name
    }
}

impl Eq for Symbol {

}

} // verus!
