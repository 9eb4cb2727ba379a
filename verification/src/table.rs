//! Callables and the two-tier binding store.
//!
//! A `Function` is either a native operation from the closed builtin set or a
//! user-defined name/parameter-list/body triple.  A `Sym` is what a symbol
//! can be bound to: a plain value or a function.  The `SymbolTable` keeps two
//! binding stores, `globals` and `locals`; lookup checks locals first, and a
//! miss auto-declares the symbol as a self-valued local binding, so lookups
//! never fail.
//!
//! Each store is a list of bindings where the latest binding for a name
//! wins; its mathematical model is a map from symbol names to bindings.

use vstd::prelude::*;

use crate::sym::Symbol;
use crate::value::{ValModel, Value};
use crate::value::Cell;

verus! {

broadcast use crate::value::lemma_view_cases, crate::value::lemma_wf_cases;

/// The closed set of native operations.
#[derive(Debug, Clone, Copy, PartialEq, Eq, Structural)]
pub enum NativeOp {
    /// `t`: the identity truth function.
    T,
    /// `setq`: bind global variables.
    Setq,
    /// `defun`: define a function.
    Defun,
    /// `car`: first element of a list.
    Car,
    /// `cdr`: remainder of a list.
    Cdr,
    /// `cons`: prefix an element onto a list.
    Cons,
    /// `list`: build a list from the arguments.
    List,
    /// `append`: splice lists and atoms into one list.
    Append,
    /// `quote`: mark the argument list as literal data.
    Quote,
    /// `backquote`: return the argument list unchanged.
    Backquote,
    /// `print`: record the arguments on the output and return them.
    Print,
    /// `+`, `-`, `*`, `/`: the arithmetic folds.
    Add,
    Sub,
    Mul,
    Div,
}

/// A callable: a native operation or a user-defined function.
#[derive(Debug)]
pub enum Function {
    Builtin { name: Symbol, op: NativeOp },
    Defun { name: Symbol, args: Value, body: Value },
}

/// Mathematical model of a callable.
pub ghost enum FunModel {
    Builtin { name: Seq<char>, op: NativeOp },
    Defun { name: Seq<char>, args: ValModel, body: ValModel },
}

impl View for Function {
    type V = FunModel;

    open spec fn view(&self) -> FunModel {
        match self {
            Function::Builtin { name, op } => FunModel::Builtin { name: name@.name, op: *op },
            Function::Defun { name, args, body } => FunModel::Defun {
                name: name@.name,
                args: args@,
                body: body@,
            },
        }
    }
}

impl Function {
    /// Well-formedness: a user-defined function's parameter list and body
    /// are well-formed values.
    pub open spec fn wf(&self) -> bool {
        match self {
            Function::Builtin { .. } => true,
            Function::Defun { name: _, args, body } => args.wf() && body.wf(),
        }
    }

    /// An exact copy.
    pub fn duplicate(&self) -> (r: Function)
        ensures
            r@ == self@,
            self.wf() ==> r.wf(),
    {
        match self {
            Function::Builtin { name, op } => Function::Builtin {
                name: name.duplicate(),
                op: *op,
            },
            Function::Defun { name, args, body } => Function::Defun {
                name: name.duplicate(),
                args: args.duplicate(),
                body: body.duplicate(),
            },
        }
    }
}

/// What a symbol is bound to: a plain value or a function.
#[derive(Debug)]
pub enum Sym {
    Value(Value),
    Function(Function),
}

/// Mathematical model of a binding.
pub ghost enum BindModel {
    Value(ValModel),
    Function(FunModel),
}

impl BindModel {
    /// The value a binding renders to when read back as data: a plain value
    /// itself, a builtin its name, a user-defined function a displayable
    /// description of its signature — its name and parameter list, never its
    /// body.
    pub open spec fn as_value_m(self) -> ValModel {
        match self {
            BindModel::Value(v) => v,
            BindModel::Function(FunModel::Builtin { name, op: _ }) => ValModel::Sym(name),
            BindModel::Function(FunModel::Defun { name, args, body: _ }) => ValModel::List(
                seq![ValModel::Sym(name), args],
            ),
        }
    }
}

impl View for Sym {
    type V = BindModel;

    open spec fn view(&self) -> BindModel {
        match self {
            Sym::Value(v) => BindModel::Value(v@),
            Sym::Function(f) => BindModel::Function(f@),
        }
    }
}

impl Sym {
    /// Well-formedness of the bound value or function.
    pub open spec fn wf(&self) -> bool {
        match self {
            Sym::Value(v) => v.wf(),
            Sym::Function(f) => f.wf(),
        }
    }

    /// An exact copy.
    pub fn duplicate(&self) -> (r: Sym)
        ensures
            r@ == self@,
            self.wf() ==> r.wf(),
    {
        match self {
            Sym::Value(v) => Sym::Value(v.duplicate()),
            Sym::Function(f) => Sym::Function(f.duplicate()),
        }
    }

    /// The binding read back as data.
    pub fn as_value(&self) -> (r: Value)
        requires
            self.wf(),
        ensures
            r@ == self@.as_value_m(),
            r.wf(),
    {
        match self {
            Sym::Value(v) => v.duplicate(),
            Sym::Function(f) => match f {
                Function::Builtin { name, op: _ } => Value::Symbol(name.unquote()),
                Function::Defun { name, args, body: _ } => {
                    let mut cell = Cell::new(Value::Symbol(name.unquote()));
                    cell.add(&Cell::new(args.duplicate()));
                    proof {
                        assert(cell@ =~= seq![ValModel::Sym(name@.name), args@]);
                    }
                    Value::List(cell)
                },
            },
        }
    }
}

/// The bindings of one store, as a map from names to bindings: later entries
/// shadow earlier ones.
pub open spec fn entries_map(s: Seq<(Symbol, Sym)>) -> Map<Seq<char>, BindModel>
    decreases s.len(),
{
    if s.len() == 0 {
        Map::empty()
    } else {
        entries_map(s.drop_last()).insert(s.last().0@.name, s.last().1@)
    }
}

/// Every key of a store's map comes from one of its entries.
pub proof fn lemma_entries_map_key_has_entry(s: Seq<(Symbol, Sym)>, k: Seq<char>)
    requires
        entries_map(s).contains_key(k),
    ensures
        exists|i: int| 0 <= i < s.len() && (#[trigger] s[i]).0@.name == k,
    decreases s.len(),
{
    if s.len() > 0 {
        if s.last().0@.name == k {
            assert(s[s.len() - 1].0@.name == k);
        } else {
            lemma_entries_map_key_has_entry(s.drop_last(), k);
            let i = choose|i: int|
                0 <= i < s.drop_last().len() && (#[trigger] s.drop_last()[i]).0@.name == k;
            assert(s[i].0@.name == k);
        }
    }
}

/// Every entry's name is a key of the store's map.
pub proof fn lemma_entries_map_has_entry_key(s: Seq<(Symbol, Sym)>, i: int)
    requires
        0 <= i < s.len(),
    ensures
        entries_map(s).contains_key(s[i].0@.name),
    decreases s.len(),
{
    if i < s.len() - 1 {
        lemma_entries_map_has_entry_key(s.drop_last(), i);
        assert(s.drop_last()[i] == s[i]);
    }
}

/// Well-formedness of every binding of a store.
pub open spec fn entries_wf(s: Seq<(Symbol, Sym)>) -> bool {
    forall|i: int| 0 <= i < s.len() ==> (#[trigger] s[i]).1.wf()
}

/// Mathematical model of the two-tier binding store.
pub ghost struct TableModel {
    pub globals: Map<Seq<char>, BindModel>,
    pub locals: Map<Seq<char>, BindModel>,
}

impl TableModel {
    /// Local-then-global lookup.
    pub open spec fn lookup(self, name: Seq<char>) -> Option<BindModel> {
        if self.locals.contains_key(name) {
            Option::Some(self.locals[name])
        } else if self.globals.contains_key(name) {
            Option::Some(self.globals[name])
        } else {
            Option::None
        }
    }
}

/// The two-tier (global, local) binding store.
#[derive(Debug)]
pub struct SymbolTable {
    globals: Vec<(Symbol, Sym)>,
    locals: Vec<(Symbol, Sym)>,
}

impl View for SymbolTable {
    type V = TableModel;

    closed spec fn view(&self) -> TableModel {
        TableModel { globals: entries_map(self.globals@), locals: entries_map(self.locals@) }
    }
}

/// Look a name up in one store: the latest binding wins.
fn store_lookup(entries: &Vec<(Symbol, Sym)>, name: &Symbol) -> (r: Option<Sym>)
    ensures
        (match r {
            Option::Some(b) => entries_map(entries@).contains_key(name@.name)
                && b@ == entries_map(entries@)[name@.name] && (entries_wf(entries@) ==> b.wf()),
            Option::None => !entries_map(entries@).contains_key(name@.name),
        }),
{
    let ghost k = name@.name;
    let mut i = entries.len();
    proof {
        assert(entries@.subrange(0, entries@.len() as int) =~= entries@);
    }
    while i > 0
        invariant
            k == name@.name,
            i <= entries@.len(),
            entries_map(entries@).contains_key(k) == entries_map(
                entries@.subrange(0, i as int),
            ).contains_key(k),
            entries_map(entries@).contains_key(k) ==> entries_map(entries@)[k] == entries_map(
                entries@.subrange(0, i as int),
            )[k],
        decreases i,
    {
        i = i - 1;
        proof {
            let pre = entries@.subrange(0, i as int + 1);
            let cur = entries@.subrange(0, i as int);
            assert(pre.drop_last() =~= cur);
            assert(pre.last() == entries@[i as int]);
            assert(entries_map(pre) == entries_map(cur).insert(
                entries@[i as int].0@.name,
                entries@[i as int].1@,
            ));
        }
        let entry = &entries[i];
        if entry.0.same_name(name) {
            proof {
                assert(entries_wf(entries@) ==> entries@[i as int].1.wf());
                assert(entries_map(entries@).contains_key(k));
                assert(entries_map(entries@)[k] == entries@[i as int].1@);
            }
            return Some(entry.1.duplicate());
        }
    }
    proof {
        assert(entries@.subrange(0, 0) =~= Seq::<(Symbol, Sym)>::empty());
    }
    None
}

/// Add a binding to one store: the model map gains or replaces the name.
fn store_insert(entries: &mut Vec<(Symbol, Sym)>, name: &Symbol, binding: Sym)
    ensures
        entries_map(final(entries)@) == entries_map(old(entries)@).insert(name@.name, binding@),
        entries_wf(old(entries)@) && binding.wf() ==> entries_wf(final(entries)@),
{
    entries.push((name.unquote(), binding));
    proof {
        assert(entries@.drop_last() =~= old(entries)@);
    }
}

impl SymbolTable {
    /// Well-formedness of every binding in both stores.
    pub closed spec fn wf(&self) -> bool {
        entries_wf(self.globals@) && entries_wf(self.locals@)
    }

    /// An empty table: no globals, no locals.
    pub fn empty() -> (r: SymbolTable)
        ensures
            r@ == (TableModel {
                globals: Map::<Seq<char>, BindModel>::empty(),
                locals: Map::<Seq<char>, BindModel>::empty(),
            }),
            r.wf(),
    {
        SymbolTable { globals: Vec::new(), locals: Vec::new() }
    }

    /// An exact copy of both stores.
    pub fn duplicate(&self) -> (r: SymbolTable)
        ensures
            r@ == self@,
            self.wf() ==> r.wf(),
    {
        let globals = duplicate_entries(&self.globals);
        let locals = duplicate_entries(&self.locals);
        SymbolTable { globals, locals }
    }

    /// Local-then-global lookup.  A miss auto-declares the symbol as a local
    /// binding that evaluates to itself, so the lookup never fails.
    pub fn get(&mut self, sym: &Symbol) -> (r: Sym)
        requires
            old(self).wf(),
        ensures
            final(self).wf(),
            r.wf(),
            (match old(self)@.lookup(sym@.name) {
                Option::Some(b) => final(self)@ == old(self)@ && r@ == b,
                Option::None => {
                    &&& r@ == BindModel::Value(ValModel::Sym(sym@.name))
                    &&& final(self)@ == (TableModel {
                        globals: old(self)@.globals,
                        locals: old(self)@.locals.insert(
                            sym@.name,
                            BindModel::Value(ValModel::Sym(sym@.name)),
                        ),
                    })
                },
            }),
    {
        match store_lookup(&self.locals, sym) {
            Option::Some(b) => b,
            Option::None => match store_lookup(&self.globals, sym) {
                Option::Some(b) => b,
                Option::None => {
                    let binding = Sym::Value(Value::Symbol(sym.unquote()));
                    let r = binding.duplicate();
                    store_insert(&mut self.locals, sym, binding);
                    r
                },
            },
        }
    }

    /// Insert or replace a binding in the global store; the new binding is
    /// returned read back as data.
    pub fn set_global(&mut self, sym: &Symbol, binding: Sym) -> (r: Value)
        requires
            old(self).wf(),
            binding.wf(),
        ensures
            final(self).wf(),
            final(self)@ == (TableModel {
                globals: old(self)@.globals.insert(sym@.name, binding@),
                locals: old(self)@.locals,
            }),
            r@ == binding@.as_value_m(),
            r.wf(),
    {
        let r = binding.as_value();
        store_insert(&mut self.globals, sym, binding);
        r
    }

    /// Insert or replace a binding in the local store; the new binding is
    /// returned read back as data.
    pub fn set_local(&mut self, sym: &Symbol, binding: Sym) -> (r: Value)
        requires
            old(self).wf(),
            binding.wf(),
        ensures
            final(self).wf(),
            final(self)@ == (TableModel {
                globals: old(self)@.globals,
                locals: old(self)@.locals.insert(sym@.name, binding@),
            }),
            r@ == binding@.as_value_m(),
            r.wf(),
    {
        let r = binding.as_value();
        store_insert(&mut self.locals, sym, binding);
        r
    }

    /// Merge another table's globals into this one's globals: the other
    /// table's bindings win on common names.  Locals are untouched.
    pub fn extend(&mut self, other: &SymbolTable)
        requires
            old(self).wf(),
            other.wf(),
        ensures
            final(self).wf(),
            final(self)@ == (TableModel {
                globals: old(self)@.globals.union_prefer_right(other@.globals),
                locals: old(self)@.locals,
            }),
    {
        let n = other.globals.len();
        let mut i: usize = 0;
        proof {
            assert(other.globals@.subrange(0, 0) =~= Seq::<(Symbol, Sym)>::empty());
            assert(entries_map(self.globals@) =~= entries_map(old(self).globals@)
                .union_prefer_right(entries_map(other.globals@.subrange(0, 0))));
        }
        while i < n
            invariant
                i <= n,
                n == other.globals@.len(),
                entries_wf(other.globals@),
                entries_wf(self.globals@),
                self.locals@ == old(self).locals@,
                entries_map(self.globals@) == entries_map(old(self).globals@)
                    .union_prefer_right(entries_map(other.globals@.subrange(0, i as int))),
            decreases n - i,
        {
            let entry = &other.globals[i];
            proof {
                assert(other.globals@[i as int].1.wf());
            }
            let ghost before = self.globals@;
            self.globals.push((entry.0.duplicate(), entry.1.duplicate()));
            proof {
                assert(self.globals@.drop_last() =~= before);
                assert(other.globals@.subrange(0, i as int + 1).drop_last() =~= other.globals@
                    .subrange(0, i as int));
                assert(other.globals@.subrange(0, i as int + 1).last() == other.globals@[i as int]);
                assert(entries_map(self.globals@) =~= entries_map(old(self).globals@)
                    .union_prefer_right(
                    entries_map(other.globals@.subrange(0, i as int + 1)),
                ));
            }
            i += 1;
        }
        proof {
            assert(other.globals@.subrange(0, n as int) =~= other.globals@);
        }
    }

    /// Drop all local bindings, keeping the globals.
    pub fn clear_locals(&mut self)
        requires
            old(self).wf(),
        ensures
            final(self).wf(),
            final(self)@ == (TableModel {
                globals: old(self)@.globals,
                locals: Map::<Seq<char>, BindModel>::empty(),
            }),
    {
        self.locals.clear();
        proof {
            assert(self.locals@ =~= Seq::<(Symbol, Sym)>::empty());
        }
    }

    /// A complete snapshot of the global bindings: every bound name appears
    /// exactly once, paired with its current binding read back as data.
    pub fn global_bindings(&self) -> (r: Vec<(Symbol, Value)>)
        requires
            self.wf(),
        ensures
            forall|j: int| 0 <= j < r@.len() ==> {
                &&& self@.globals.contains_key((#[trigger] r@[j]).0@.name)
                &&& r@[j].1@ == self@.globals[r@[j].0@.name].as_value_m()
                &&& r@[j].1.wf()
            },
            forall|k: Seq<char>| self@.globals.contains_key(k) ==> exists|j: int|
                0 <= j < r@.len() && (#[trigger] r@[j]).0@.name == k,
            forall|j1: int, j2: int| 0 <= j1 < j2 < r@.len() ==> (#[trigger] r@[j1]).0@.name != (
            #[trigger] r@[j2]).0@.name,
    {
        let n = self.globals.len();
        let mut out: Vec<(Symbol, Value)> = Vec::new();
        let mut i: usize = 0;
        while i < n
            invariant
                i <= n,
                n == self.globals@.len(),
                entries_wf(self.globals@),
                entries_map(self.globals@) == self@.globals,
                forall|j: int| 0 <= j < out@.len() ==> {
                    &&& entries_map(self.globals@).contains_key((#[trigger] out@[j]).0@.name)
                    &&& out@[j].1@ == entries_map(self.globals@)[out@[j].0@.name].as_value_m()
                    &&& out@[j].1.wf()
                },
                forall|j: int| 0 <= j < i ==> exists|m: int|
                    0 <= m < out@.len() && (#[trigger] out@[m]).0@.name == (#[trigger] self
                        .globals@[j]).0@.name,
                forall|j1: int, j2: int| 0 <= j1 < j2 < out@.len()
                    ==> (#[trigger] out@[j1]).0@.name != (#[trigger] out@[j2]).0@.name,
            decreases n - i,
        {
            let name = self.globals[i].0.duplicate();
            let mut seen = false;
            let mut k: usize = 0;
            while k < out.len()
                invariant
                    k <= out@.len(),
                    seen == exists|m: int|
                        0 <= m < k && (#[trigger] out@[m]).0@.name == name@.name,
                decreases out@.len() - k,
            {
                if out[k].0.same_name(&name) {
                    seen = true;
                }
                k += 1;
            }
            proof {
                lemma_entries_map_has_entry_key(self.globals@, i as int);
                assert(name@.name == self.globals@[i as int].0@.name);
            }
            let ghost before = out@;
            if !seen {
                match store_lookup(&self.globals, &name) {
                    Option::Some(b) => {
                        let rendered = b.as_value();
                        out.push((name, rendered));
                    },
                    Option::None => {
                        proof {
                            assert(false);
                        }
                    },
                }
            }
            proof {
                assert(seen ==> exists|m: int|
                    0 <= m < before.len() && (#[trigger] before[m]).0@.name == name@.name);
                assert forall|j: int| 0 <= j < i + 1 implies exists|m: int|
                    0 <= m < out@.len() && (#[trigger] out@[m]).0@.name == (#[trigger] self
                        .globals@[j]).0@.name by {
                    if j == i as int {
                        if seen {
                            let m = choose|m: int|
                                0 <= m < before.len() && (#[trigger] before[m]).0@.name == name@
                                    .name;
                            assert(out@[m].0@.name == self.globals@[j].0@.name);
                        } else {
                            assert(out@[out@.len() - 1].0@.name == self.globals@[j].0@.name);
                        }
                    } else {
                        let m = choose|m: int|
                            0 <= m < before.len() && (#[trigger] before[m]).0@.name == self
                                .globals@[j].0@.name;
                        assert(out@[m].0@.name == self.globals@[j].0@.name);
                    }
                }
            }
            i += 1;
        }
        proof {
            assert forall|k: Seq<char>| self@.globals.contains_key(k) implies exists|j: int|
                0 <= j < out@.len() && (#[trigger] out@[j]).0@.name == k by {
                lemma_entries_map_key_has_entry(self.globals@, k);
                let e = choose|e: int|
                    0 <= e < self.globals@.len() && (#[trigger] self.globals@[e]).0@.name == k;
                assert(exists|m: int|
                    0 <= m < out@.len() && (#[trigger] out@[m]).0@.name == self.globals@[e].0@
                        .name);
            }
        }
        out
    }
}

/// A saved copy of the local store: lets a caller's local scope be put back
/// exactly after a nested call returns.
pub struct LocalsSnapshot {
    entries: Vec<(Symbol, Sym)>,
}

impl View for LocalsSnapshot {
    type V = Map<Seq<char>, BindModel>;

    closed spec fn view(&self) -> Map<Seq<char>, BindModel> {
        entries_map(self.entries@)
    }
}

impl LocalsSnapshot {
    /// Well-formedness of every saved binding.
    pub closed spec fn wf(&self) -> bool {
        entries_wf(self.entries@)
    }
}

impl SymbolTable {
    /// A copy of the current local bindings.
    pub fn snapshot_locals(&self) -> (r: LocalsSnapshot)
        requires
            self.wf(),
        ensures
            r@ == self@.locals,
            r.wf(),
    {
        LocalsSnapshot { entries: duplicate_entries(&self.locals) }
    }

    /// Replace the local bindings with a saved copy, leaving the globals as
    /// they are.
    pub fn restore_locals(&mut self, snap: LocalsSnapshot)
        requires
            old(self).wf(),
            snap.wf(),
        ensures
            final(self).wf(),
            final(self)@ == (TableModel { globals: old(self)@.globals, locals: snap@ }),
    {
        self.locals = snap.entries;
    }
}

/// Copy every entry of one store.
fn duplicate_entries(entries: &Vec<(Symbol, Sym)>) -> (r: Vec<(Symbol, Sym)>)
    ensures
        entries_map(r@) == entries_map(entries@),
        entries_wf(entries@) ==> entries_wf(r@),
{
    let n = entries.len();
    let mut out: Vec<(Symbol, Sym)> = Vec::new();
    let mut i: usize = 0;
    proof {
        assert(entries@.subrange(0, 0) =~= Seq::<(Symbol, Sym)>::empty());
        assert(out@ =~= entries@.subrange(0, 0));
    }
    while i < n
        invariant
            i <= n,
            n == entries@.len(),
            out@.len() == i,
            entries_map(out@) == entries_map(entries@.subrange(0, i as int)),
            forall|j: int| 0 <= j < i
                ==> ((#[trigger] out@[j]).1.wf() || !entries@[j].1.wf()),
        decreases n - i,
    {
        let entry = &entries[i];
        let ghost before = out@;
        out.push((entry.0.duplicate(), entry.1.duplicate()));
        proof {
            assert(out@.drop_last() =~= before);
            assert(entries@.subrange(0, i as int + 1).drop_last() =~= entries@.subrange(
                0,
                i as int,
            ));
            assert(entries@.subrange(0, i as int + 1).last() == entries@[i as int]);
        }
        i += 1;
    }
    proof {
        assert(entries@.subrange(0, n as int) =~= entries@);
        if entries_wf(entries@) {
            assert forall|j: int| 0 <= j < out@.len() implies (#[trigger] out@[j]).1.wf() by {
                assert(entries@[j].1.wf());
            }
        }
    }
    out
}

} // verus!
