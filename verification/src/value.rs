//! The tagged runtime datum (`Value`) and the list cell backing list-typed
//! values (`Cell`).
//!
//! Lists have full value semantics: a `Cell` owns its elements outright, and
//! cloning a list is a real deep copy.  The hand-rolled shared-ownership
//! pointer the design note discusses is resolved here in favour of plain
//! ownership, so there is no reference count to keep consistent and no
//! aliasing visible to callers.
//!
//! Quoting is recorded twice, as the design demands: once in the `Value` tag
//! (`List` vs `QuotedList`, `Symbol` vs `QuotedSymbol`) and once as a flag on
//! the wrapped `Cell` or `Symbol`.  The well-formedness predicate [`Value::wf`]
//! states that the two always agree; constructors establish it and every
//! operation preserves it.

use vstd::prelude::*;

use crate::sym::Symbol;

verus! {

/// Mathematical model of a runtime value.  List variants carry the flattened
/// sequence of element models; the redundant quoting flag of the underlying
/// cell is not part of the model (well-formedness ties it to the tag).
/// Floats are opaque literals: the model keeps their spelling, never their
/// numeric value.
#[verifier::ext_equal]
pub ghost enum ValModel {
    Nil,
    T,
    Str(Seq<char>),
    Sym(Seq<char>),
    QSym(Seq<char>),
    Byte(u8),
    UInt(u32),
    Int(i64),
    Flt(Seq<char>),
    List(Seq<ValModel>),
    QList(Seq<ValModel>),
    Empty,
    QEmpty,
}

impl ValModel {
    /// Values that have a quoted and an unquoted form.
    pub open spec fn quotable(self) -> bool {
        match self {
            ValModel::Sym(_) | ValModel::QSym(_) => true,
            ValModel::List(_) | ValModel::QList(_) => true,
            ValModel::Empty | ValModel::QEmpty => true,
            _ => false,
        }
    }

    /// Values currently marked as quoted.
    pub open spec fn quoted_form(self) -> bool {
        match self {
            ValModel::QSym(_) | ValModel::QList(_) | ValModel::QEmpty => true,
            _ => false,
        }
    }

    /// The quoted counterpart of a value: marks symbols and lists as literal
    /// data and leaves every other (self-evaluating) value unchanged.
    pub open spec fn quoted(self) -> ValModel {
        match self {
            ValModel::Sym(n) => ValModel::QSym(n),
            ValModel::List(s) => ValModel::QList(s),
            ValModel::Empty => ValModel::QEmpty,
            _ => self,
        }
    }

    /// The unquoted counterpart of a value.
    pub open spec fn unquoted(self) -> ValModel {
        match self {
            ValModel::QSym(n) => ValModel::Sym(n),
            ValModel::QList(s) => ValModel::List(s),
            ValModel::QEmpty => ValModel::Empty,
            _ => self,
        }
    }

    /// Re-quote an extracted element when the list it came from was quoted:
    /// already-quoted elements are kept as they are.
    pub open spec fn requoted(self) -> ValModel {
        if self.quoted_form() {
            self
        } else {
            self.quoted()
        }
    }

    /// The flattened element sequence of a list value; empty for non-lists.
    pub open spec fn elems(self) -> Seq<ValModel> {
        match self {
            ValModel::List(s) | ValModel::QList(s) => s,
            _ => Seq::empty(),
        }
    }

    /// Whether the value is a (possibly quoted) non-empty list.
    pub open spec fn is_list(self) -> bool {
        match self {
            ValModel::List(_) | ValModel::QList(_) => true,
            _ => false,
        }
    }

    /// A one-element list unwraps to its element, an empty chain to `Nil`;
    /// everything else stands for itself.
    pub open spec fn unwrap_list_m(self) -> ValModel {
        match self {
            ValModel::List(s) | ValModel::QList(s) => if s.len() == 0 {
                ValModel::Nil
            } else if s.len() == 1 {
                s[0]
            } else {
                self
            },
            _ => self,
        }
    }

    /// The head of a list value, re-quoted when the list itself was quoted;
    /// `Nil` for non-lists and empty chains.
    pub open spec fn car_m(self) -> ValModel {
        match self {
            ValModel::List(s) => if s.len() == 0 {
                ValModel::Nil
            } else {
                s[0]
            },
            ValModel::QList(s) => if s.len() == 0 {
                ValModel::Nil
            } else {
                s[0].requoted()
            },
            _ => ValModel::Nil,
        }
    }

    /// The remainder of a list value as an unquoted list; `Nil` when there
    /// is no remainder, including for a one-element list.
    pub open spec fn cdr_m(self) -> ValModel {
        match self {
            ValModel::List(s) | ValModel::QList(s) => if s.len() <= 1 {
                ValModel::Nil
            } else {
                ValModel::List(s.subrange(1, s.len() as int))
            },
            _ => ValModel::Nil,
        }
    }

    /// The element sequence a value contributes when treated as a cell:
    /// lists contribute their elements, anything else itself.
    pub open spec fn as_cell_m(self) -> Seq<ValModel> {
        match self {
            ValModel::List(s) | ValModel::QList(s) => s,
            _ => seq![self],
        }
    }

    /// The first element of a list value, without re-quoting; `Nil` for
    /// non-lists and empty chains.
    pub open spec fn head_m(self) -> ValModel {
        if self.is_list() && self.elems().len() > 0 {
            self.elems()[0]
        } else {
            ValModel::Nil
        }
    }

    /// The element sequence after the head; empty when there is none.
    pub open spec fn tail_elems(self) -> Seq<ValModel> {
        if self.is_list() && self.elems().len() > 1 {
            self.elems().subrange(1, self.elems().len() as int)
        } else {
            Seq::empty()
        }
    }

    /// The element sequence a value contributes when spliced by `append`:
    /// lists contribute their elements, empty lists and `Nil` nothing,
    /// any other atom itself.
    pub open spec fn splice_m(self) -> Seq<ValModel> {
        match self {
            ValModel::List(s) | ValModel::QList(s) => s,
            ValModel::Nil | ValModel::Empty | ValModel::QEmpty => Seq::empty(),
            _ => seq![self],
        }
    }

    /// The spliced concatenation of a sequence of values.
    pub open spec fn flatten_m(s: Seq<ValModel>) -> Seq<ValModel>
        decreases s.len(),
    {
        if s.len() == 0 {
            Seq::empty()
        } else {
            s[0].splice_m() + ValModel::flatten_m(s.subrange(1, s.len() as int))
        }
    }
}

/// A list cell: the ordered elements of one list plus the quoting flag shared
/// with the `Value` wrapping it.  An empty cell is the `nil` terminator.
#[derive(Debug)]
pub struct Cell {
    items: Vec<Value>,
    quoted: bool,
}

/// The runtime datum: a closed tagged union.  `Float` carries the literal
/// spelling of the number; the core never computes with floats.
#[derive(Debug)]
pub enum Value {
    Nil,
    T,
    Str(String),
    Symbol(Symbol),
    QuotedSymbol(Symbol),
    Byte(u8),
    UnsignedInteger(u32),
    Integer(i64),
    Float(String),
    List(Cell),
    QuotedList(Cell),
    EmptyList,
    EmptyQuotedList,
}

impl Value {
    /// The model of a value: the abstraction every contract speaks of.
    pub closed spec fn view_at(self) -> ValModel
        decreases self,
    {
        match self {
            Value::Nil => ValModel::Nil,
            Value::T => ValModel::T,
            Value::Str(s) => ValModel::Str(s@),
            Value::Symbol(s) => ValModel::Sym(s@.name),
            Value::QuotedSymbol(s) => ValModel::QSym(s@.name),
            Value::Byte(b) => ValModel::Byte(b),
            Value::UnsignedInteger(u) => ValModel::UInt(u),
            Value::Integer(i) => ValModel::Int(i),
            Value::Float(t) => ValModel::Flt(t@),
            Value::List(c) => ValModel::List(Value::seq_view(c.items@)),
            Value::QuotedList(c) => ValModel::QList(Value::seq_view(c.items@)),
            Value::EmptyList => ValModel::Empty,
            Value::EmptyQuotedList => ValModel::QEmpty,
        }
    }

    /// Pointwise model of a sequence of values.
    pub open spec fn seq_view(s: Seq<Value>) -> Seq<ValModel>
        decreases s,
    {
        Seq::new(
            s.len(),
            |i: int| if 0 <= i < s.len() {
                s[i].view_at()
            } else {
                ValModel::Nil
            },
        )
    }

    /// Well-formedness: the quoting tag of every symbol and list variant
    /// agrees with the flag carried by the wrapped `Symbol` or `Cell`,
    /// recursively through list elements.
    pub closed spec fn wf(self) -> bool
        decreases self,
    {
        match self {
            Value::Symbol(s) => !s@.quoted,
            Value::QuotedSymbol(s) => s@.quoted,
            Value::List(c) => !c.quoted && Value::seq_wf(c.items@),
            Value::QuotedList(c) => c.quoted && Value::seq_wf(c.items@),
            _ => true,
        }
    }

    /// Well-formedness of every value of a sequence.
    pub open spec fn seq_wf(s: Seq<Value>) -> bool
        decreases s,
    {
        s.len() == 0 || (s[0].wf() && Value::seq_wf(s.subrange(1, s.len() as int)))
    }
}

/// The model of a value, by variant: lets every module compute views of
/// values it builds or matches, while the representation stays private.
pub broadcast proof fn lemma_view_cases(v: Value)
    ensures
        #[trigger] v@ == (match v {
            Value::Nil => ValModel::Nil,
            Value::T => ValModel::T,
            Value::Str(s) => ValModel::Str(s@),
            Value::Symbol(s) => ValModel::Sym(s@.name),
            Value::QuotedSymbol(s) => ValModel::QSym(s@.name),
            Value::Byte(b) => ValModel::Byte(b),
            Value::UnsignedInteger(u) => ValModel::UInt(u),
            Value::Integer(i) => ValModel::Int(i),
            Value::Float(t) => ValModel::Flt(t@),
            Value::List(c) => ValModel::List(c@),
            Value::QuotedList(c) => ValModel::QList(c@),
            Value::EmptyList => ValModel::Empty,
            Value::EmptyQuotedList => ValModel::QEmpty,
        }),
{
}

/// Well-formedness of a value, by variant.
pub broadcast proof fn lemma_wf_cases(v: Value)
    ensures
        #[trigger] v.wf() == (match v {
            Value::Symbol(s) => !s@.quoted,
            Value::QuotedSymbol(s) => s@.quoted,
            Value::List(c) => !c.spec_quoted() && c.wf(),
            Value::QuotedList(c) => c.spec_quoted() && c.wf(),
            _ => true,
        }),
{
}

/// The model of a sequence of values has the sequence's length.
pub broadcast proof fn lemma_seq_view_len(s: Seq<Value>)
    ensures
        #[trigger] Value::seq_view(s).len() == s.len(),
{
}

/// The model of a sequence of values is pointwise the values' models.
pub broadcast proof fn lemma_seq_view_index(s: Seq<Value>, i: int)
    requires
        0 <= i < s.len(),
    ensures
        #[trigger] Value::seq_view(s)[i] == s[i]@,
{
}

/// Every element of a well-formed sequence is well-formed.
pub proof fn seq_wf_index(s: Seq<Value>, i: int)
    requires
        Value::seq_wf(s),
        0 <= i < s.len(),
    ensures
        s[i].wf(),
    decreases s,
{
    if i > 0 {
        seq_wf_index(s.subrange(1, s.len() as int), i - 1);
    }
}

/// A sequence of pointwise well-formed values is well-formed.
pub proof fn seq_wf_intro(s: Seq<Value>)
    requires
        forall|i: int| 0 <= i < s.len() ==> (#[trigger] s[i]).wf(),
    ensures
        Value::seq_wf(s),
    decreases s,
{
    if s.len() > 0 {
        let t = s.subrange(1, s.len() as int);
        assert forall|i: int| 0 <= i < t.len() implies (#[trigger] t[i]).wf() by {
            assert(t[i] == s[i + 1]);
        }
        seq_wf_intro(t);
    }
}

impl View for Value {
    type V = ValModel;

    open spec fn view(&self) -> ValModel {
        self.view_at()
    }
}

impl View for Cell {
    type V = Seq<ValModel>;

    closed spec fn view(&self) -> Seq<ValModel> {
        Value::seq_view(self.items@)
    }
}

impl Cell {
    /// The quoting flag of the cell.
    pub closed spec fn spec_quoted(self) -> bool {
        self.quoted
    }

    /// Well-formedness of every element held by the cell.
    pub closed spec fn wf(self) -> bool {
        Value::seq_wf(self.items@)
    }
}

impl Value {
    /// An exact copy.  Unlike the derived `Clone`, this carries a contract.
    pub fn duplicate(&self) -> (r: Value)
        ensures
            r@ == self@,
            self.wf() ==> r.wf(),
        decreases self,
    {
        match self {
            Value::Nil => Value::Nil,
            Value::T => Value::T,
            Value::Str(s) => Value::Str(s.clone()),
            Value::Symbol(s) => Value::Symbol(s.duplicate()),
            Value::QuotedSymbol(s) => Value::QuotedSymbol(s.duplicate()),
            Value::Byte(b) => Value::Byte(*b),
            Value::UnsignedInteger(u) => Value::UnsignedInteger(*u),
            Value::Integer(i) => Value::Integer(*i),
            Value::Float(t) => Value::Float(t.clone()),
            Value::List(c) => Value::List(c.duplicate()),
            Value::QuotedList(c) => Value::QuotedList(c.duplicate()),
            Value::EmptyList => Value::EmptyList,
            Value::EmptyQuotedList => Value::EmptyQuotedList,
        }
    }
}

impl Cell {
    /// An exact copy of the whole chain.
    pub fn duplicate(&self) -> (r: Cell)
        ensures
            r@ == self@,
            r.spec_quoted() == self.spec_quoted(),
            self.wf() ==> r.wf(),
        decreases self,
    {
        let n = self.items.len();
        let mut items: Vec<Value> = Vec::new();
        let mut i: usize = 0;
        while i < n
            invariant
                i <= n,
                n == self.items@.len(),
                items@.len() == i,
                forall|j: int| 0 <= j < i ==> (#[trigger] items@[j])@ == self.items@[j]@,
                forall|j: int| 0 <= j < i ==> (self.items@[j].wf() ==> (#[trigger] items@[j]).wf()),
            decreases n - i,
        {
            let item = &self.items[i];
            items.push(item.duplicate());
            i += 1;
        }
        proof {
            assert(Value::seq_view(items@) =~= Value::seq_view(self.items@));
            if self.wf() {
                assert forall|j: int| 0 <= j < items@.len() implies (#[trigger] items@[j]).wf() by {
                    seq_wf_index(self.items@, j);
                }
                seq_wf_intro(items@);
            }
        }
        Cell { items, quoted: self.quoted }
    }

    /// An unquoted cell holding the given elements in order.
    pub fn from_values(items: Vec<Value>) -> (r: Cell)
        ensures
            r@ == Value::seq_view(items@),
            !r.spec_quoted(),
            Value::seq_wf(items@) ==> r.wf(),
    {
        Cell { items, quoted: false }
    }

    /// The empty cell: the `nil` list terminator.
    pub fn nil() -> (r: Cell)
        ensures
            r@ == Seq::<ValModel>::empty(),
            !r.spec_quoted(),
            r.wf(),
    {
        Cell { items: Vec::new(), quoted: false }
    }

    /// A single-element cell.
    pub fn new(item: Value) -> (r: Cell)
        ensures
            r@ == seq![item@],
            !r.spec_quoted(),
            item.wf() ==> r.wf(),
    {
        let mut items: Vec<Value> = Vec::new();
        items.push(item);
        let r = Cell { items, quoted: false };
        proof {
            assert(r@ =~= seq![r.items@[0]@]);
            if item.wf() {
                seq_wf_intro(r.items@);
            }
        }
        r
    }

    /// A cell holding at most one element, with an explicit quoting flag.
    pub fn quoted(item: Option<Value>, quoted: bool) -> (r: Cell)
        ensures
            r@ == (match item {
                Option::Some(v) => seq![v@],
                Option::None => Seq::<ValModel>::empty(),
            }),
            r.spec_quoted() == quoted,
            (match item {
                Option::Some(v) => v.wf(),
                Option::None => true,
            }) ==> r.wf(),
    {
        let mut items: Vec<Value> = Vec::new();
        match item {
            Option::Some(v) => {
                items.push(v);
                let r = Cell { items, quoted };
                proof {
                    assert(r@ =~= seq![r.items@[0]@]);
                    if v.wf() {
                        seq_wf_intro(r.items@);
                    }
                }
                r
            },
            Option::None => Cell { items, quoted },
        }
    }

    /// The same chain, marked quoted.
    pub fn quote(&self) -> (r: Cell)
        ensures
            r@ == self@,
            r.spec_quoted(),
            self.wf() ==> r.wf(),
    {
        let mut r = self.duplicate();
        r.quoted = true;
        r
    }

    /// The same chain, with an explicit quoting flag.
    pub fn with_quoting(&self, quoted: bool) -> (r: Cell)
        ensures
            r@ == self@,
            r.spec_quoted() == quoted,
            self.wf() ==> r.wf(),
    {
        let mut r = self.duplicate();
        r.quoted = quoted;
        r
    }

    /// The quoting flag of the cell.
    pub fn is_quoted(&self) -> (r: bool)
        ensures
            r == self.spec_quoted(),
    {
        self.quoted
    }

    /// Whether the cell is the empty terminator.
    pub fn is_nil(&self) -> (r: bool)
        ensures
            r == (self@.len() == 0),
    {
        self.items.len() == 0
    }

    /// Whether the cell holds no element.
    pub fn is_empty(&self) -> (r: bool)
        ensures
            r == (self@.len() == 0),
    {
        self.items.len() == 0
    }

    /// The number of elements in the chain.
    pub fn len(&self) -> (r: usize)
        ensures
            r == self@.len(),
    {
        self.items.len()
    }

    /// The first element, or `None` for the empty cell.
    pub fn head(&self) -> (r: Option<Value>)
        ensures
            match r {
                Option::Some(v) => self@.len() > 0 && v@ == self@[0] && (self.wf() ==> v.wf()),
                Option::None => self@.len() == 0,
            },
    {
        if self.items.len() == 0 {
            None
        } else {
            let v = &self.items[0];
            proof {
                if self.wf() {
                    seq_wf_index(self.items@, 0);
                }
            }
            Some(v.duplicate())
        }
    }

    /// The remainder of the chain, or `None` for an empty or single-element
    /// cell.  The returned cell is unquoted: quoting is not contagious past
    /// the head of a chain.
    pub fn tail(&self) -> (r: Option<Cell>)
        ensures
            match r {
                Option::Some(t) => self@.len() > 1 && t@ == self@.subrange(1, self@.len() as int)
                    && !t.spec_quoted() && (self.wf() ==> t.wf()),
                Option::None => self@.len() <= 1,
            },
    {
        let n = self.items.len();
        if n <= 1 {
            None
        } else {
            let mut items: Vec<Value> = Vec::new();
            let mut i: usize = 1;
            while i < n
                invariant
                    1 <= i <= n,
                    n == self.items@.len(),
                    items@.len() == i - 1,
                    forall|j: int| 0 <= j < i - 1 ==> (#[trigger] items@[j])@ == self.items@[j + 1]@,
                    forall|j: int| 0 <= j < i - 1 ==> (self.items@[j + 1].wf() ==> (#[trigger] items@[j]).wf()),
                decreases n - i,
            {
                let item = &self.items[i];
                items.push(item.duplicate());
                i += 1;
            }
            proof {
                assert(Value::seq_view(items@) =~= self@.subrange(1, self@.len() as int));
                if self.wf() {
                    assert forall|j: int| 0 <= j < items@.len() implies (#[trigger] items@[j]).wf() by {
                        seq_wf_index(self.items@, j + 1);
                    }
                    seq_wf_intro(items@);
                }
            }
            Some(Cell { items, quoted: false })
        }
    }

    /// Append the elements of `other` at the end of the chain, in order.
    pub fn add(&mut self, other: &Cell)
        ensures
            final(self)@ == old(self)@ + other@,
            final(self).spec_quoted() == old(self).spec_quoted(),
            old(self).wf() && other.wf() ==> final(self).wf(),
    {
        let n = other.items.len();
        let ghost base = self.items@.len() as int;
        let mut i: usize = 0;
        while i < n
            invariant
                i <= n,
                n == other.items@.len(),
                base == old(self).items@.len(),
                self.items@.len() == base + i,
                self.quoted == old(self).quoted,
                forall|j: int| 0 <= j < base ==> (#[trigger] self.items@[j]) == old(self).items@[j],
                forall|j: int| base <= j < base + i
                    ==> (#[trigger] self.items@[j])@ == other.items@[j - base]@,
                forall|j: int| base <= j < base + i
                    ==> (other.items@[j - base].wf() ==> (#[trigger] self.items@[j]).wf()),
            decreases n - i,
        {
            let item = &other.items[i];
            self.items.push(item.duplicate());
            i += 1;
        }
        proof {
            assert(self@ =~= old(self)@ + other@);
            if old(self).wf() && other.wf() {
                assert forall|j: int| 0 <= j < self.items@.len()
                    implies (#[trigger] self.items@[j]).wf() by {
                    if j < base {
                        seq_wf_index(old(self).items@, j);
                    } else {
                        seq_wf_index(other.items@, j - base);
                    }
                }
                seq_wf_intro(self.items@);
            }
        }
    }

    /// Drop everything after the head; on a single-element cell drop the
    /// head itself.  Reports whether anything was removed.
    pub fn pop(&mut self) -> (r: bool)
        ensures
            r == (old(self)@.len() > 0),
            final(self)@ == (if old(self)@.len() > 1 {
                old(self)@.subrange(0, 1)
            } else {
                Seq::<ValModel>::empty()
            }),
            final(self).spec_quoted() == old(self).spec_quoted(),
            old(self).wf() ==> final(self).wf(),
    {
        let n = self.items.len();
        if n > 1 {
            self.items.truncate(1);
            proof {
                assert(self@ =~= old(self)@.subrange(0, 1));
                if old(self).wf() {
                    assert forall|j: int| 0 <= j < self.items@.len()
                        implies (#[trigger] self.items@[j]).wf() by {
                        seq_wf_index(old(self).items@, j);
                    }
                    seq_wf_intro(self.items@);
                }
            }
            true
        } else if n == 1 {
            self.items.truncate(0);
            proof {
                assert(self@ =~= Seq::<ValModel>::empty());
            }
            true
        } else {
            false
        }
    }

    /// The flattened element sequence, as a vector of copies.
    pub fn values(&self) -> (r: Vec<Value>)
        ensures
            Value::seq_view(r@) == self@,
            self.wf() ==> Value::seq_wf(r@),
    {
        let r = self.duplicate();
        let Cell { items, quoted: _ } = r;
        items
    }

    /// The flattened element sequence; same contents as `values`.
    pub fn to_vec(&self) -> (r: Vec<Value>)
        ensures
            Value::seq_view(r@) == self@,
            self.wf() ==> Value::seq_wf(r@),
    {
        self.values()
    }

    /// The value a cell stands for: a single-element cell unwraps to its
    /// element (itself unwrapped if a singleton list), the empty cell to
    /// `Nil`, and a longer chain to a list value carrying the cell's flag.
    pub fn as_value(&self) -> (r: Value)
        requires
            self.wf(),
        ensures
            r@ == (if self@.len() == 0 {
                ValModel::Nil
            } else if self@.len() == 1 {
                self@[0].unwrap_list_m()
            } else if self.spec_quoted() {
                ValModel::QList(self@)
            } else {
                ValModel::List(self@)
            }),
            r.wf(),
    {
        let n = self.items.len();
        if n == 0 {
            Value::Nil
        } else if n == 1 {
            let v = &self.items[0];
            proof {
                seq_wf_index(self.items@, 0);
            }
            v.unwrap_list()
        } else if self.quoted {
            Value::QuotedList(self.duplicate())
        } else {
            Value::List(self.duplicate())
        }
    }

    /// Same as `as_value`: the value form of the cell.
    pub fn unwrap_value(&self) -> (r: Value)
        requires
            self.wf(),
        ensures
            r@ == (if self@.len() == 0 {
                ValModel::Nil
            } else if self@.len() == 1 {
                self@[0].unwrap_list_m()
            } else if self.spec_quoted() {
                ValModel::QList(self@)
            } else {
                ValModel::List(self@)
            }),
            r.wf(),
    {
        self.as_value()
    }
}

impl Value {
    /// The `nil` value.
    pub fn nil() -> (r: Value)
        ensures
            r@ == ValModel::Nil,
            r.wf(),
    {
        Value::Nil
    }

    /// The truth value.
    pub fn t() -> (r: Value)
        ensures
            r@ == ValModel::T,
            r.wf(),
    {
        Value::T
    }

    /// An unquoted symbol value.
    pub fn symbol(name: &str) -> (r: Value)
        ensures
            r@ == ValModel::Sym(name@),
            r.wf(),
    {
        Value::Symbol(Symbol::new(name))
    }

    /// A quoted symbol value.
    pub fn quoted_symbol(name: &str) -> (r: Value)
        ensures
            r@ == ValModel::QSym(name@),
            r.wf(),
    {
        Value::QuotedSymbol(Symbol::quoted(name, true))
    }

    /// A string value.
    pub fn string(text: &str) -> (r: Value)
        ensures
            r@ == ValModel::Str(text@),
            r.wf(),
    {
        Value::Str(text.to_owned())
    }

    /// A byte value.
    pub fn byte(b: u8) -> (r: Value)
        ensures
            r@ == ValModel::Byte(b),
            r.wf(),
    {
        Value::Byte(b)
    }

    /// An unsigned integer value.
    pub fn unsigned_integer(u: u32) -> (r: Value)
        ensures
            r@ == ValModel::UInt(u),
            r.wf(),
    {
        Value::UnsignedInteger(u)
    }

    /// A signed integer value.
    pub fn integer(i: i64) -> (r: Value)
        ensures
            r@ == ValModel::Int(i),
            r.wf(),
    {
        Value::Integer(i)
    }

    /// A float value, carried as its literal spelling: the core stores and
    /// compares floats as text and never computes with them.
    pub fn float(text: &str) -> (r: Value)
        ensures
            r@ == ValModel::Flt(text@),
            r.wf(),
    {
        Value::Float(text.to_owned())
    }

    /// A list value wrapping the cell; quoted when the cell is marked so.
    pub fn list(cell: Cell) -> (r: Value)
        requires
            cell.wf(),
        ensures
            r@ == (if cell.spec_quoted() {
                ValModel::QList(cell@)
            } else {
                ValModel::List(cell@)
            }),
            r.wf(),
    {
        if cell.is_quoted() {
            Value::QuotedList(cell)
        } else {
            Value::List(cell)
        }
    }

    /// A quoted list value wrapping the cell.
    pub fn quoted_list(cell: Cell) -> (r: Value)
        requires
            cell.wf(),
        ensures
            r@ == ValModel::QList(cell@),
            r.wf(),
    {
        Value::QuotedList(cell.with_quoting(true))
    }

    /// The empty list value.
    pub fn empty_list() -> (r: Value)
        ensures
            r@ == ValModel::Empty,
            r.wf(),
    {
        Value::EmptyList
    }

    /// The empty quoted list value.
    pub fn empty_quoted_list() -> (r: Value)
        ensures
            r@ == ValModel::QEmpty,
            r.wf(),
    {
        Value::EmptyQuotedList
    }

    /// Whether the value is `Nil`.
    pub fn is_nil(&self) -> (r: bool)
        ensures
            r == (self@ == ValModel::Nil),
    {
        match self {
            Value::Nil => true,
            _ => false,
        }
    }

    /// Whether the value is marked as quoted.
    pub fn is_quoted(&self) -> (r: bool)
        ensures
            r == self@.quoted_form(),
    {
        match self {
            Value::QuotedSymbol(_) => true,
            Value::QuotedList(_) => true,
            Value::EmptyQuotedList => true,
            _ => false,
        }
    }

    /// Whether the value is a (possibly quoted) symbol.
    pub fn is_symbol(&self) -> (r: bool)
        ensures
            r == (self@ matches ValModel::Sym(_) || self@ matches ValModel::QSym(_)),
    {
        match self {
            Value::Symbol(_) => true,
            Value::QuotedSymbol(_) => true,
            _ => false,
        }
    }

    /// Whether the value is a (possibly quoted) non-empty list.
    pub fn is_list(&self) -> (r: bool)
        ensures
            r == self@.is_list(),
    {
        match self {
            Value::List(_) => true,
            Value::QuotedList(_) => true,
            _ => false,
        }
    }

    /// Mark a symbol or list as literal data.  Quoting an already-quoted
    /// value is a precondition violation, never a silent no-op; values with
    /// no quoted form are returned unchanged.
    pub fn quote(&self) -> (r: Value)
        requires
            self.wf(),
            !self@.quoted_form(),
        ensures
            r@ == self@.quoted(),
            r.wf(),
    {
        match self {
            Value::Symbol(s) => Value::QuotedSymbol(s.quote()),
            Value::List(c) => Value::QuotedList(c.quote()),
            Value::EmptyList => Value::EmptyQuotedList,
            _ => self.duplicate(),
        }
    }

    /// Strip the quoting mark.  Unquoting a value that has an unquoted form
    /// but is not quoted is a precondition violation; values with no quoted
    /// form are returned unchanged.
    pub fn unquote(&self) -> (r: Value)
        requires
            self.wf(),
            self@.quotable() ==> self@.quoted_form(),
        ensures
            r@ == self@.unquoted(),
            r.wf(),
    {
        match self {
            Value::QuotedSymbol(s) => Value::Symbol(s.unquote()),
            Value::QuotedList(c) => Value::List(c.with_quoting(false)),
            Value::EmptyQuotedList => Value::EmptyList,
            _ => self.duplicate(),
        }
    }

    /// The number of elements of a list value; zero for anything else.
    pub fn len(&self) -> (r: usize)
        ensures
            r == self@.elems().len(),
    {
        match self {
            Value::List(c) => c.len(),
            Value::QuotedList(c) => c.len(),
            _ => 0,
        }
    }

    /// The flattened elements of a list value, empty for anything else.
    pub fn values(&self) -> (r: Vec<Value>)
        ensures
            Value::seq_view(r@) == self@.elems(),
            self.wf() ==> Value::seq_wf(r@),
    {
        match self {
            Value::List(c) => c.values(),
            Value::QuotedList(c) => c.values(),
            _ => Vec::new(),
        }
    }

    /// The first element of a list value, `Nil` otherwise.
    pub fn head(&self) -> (r: Value)
        requires
            self.wf(),
        ensures
            r@ == self@.head_m(),
            r.wf(),
    {
        match self {
            Value::List(c) | Value::QuotedList(c) => match c.head() {
                Option::Some(v) => v,
                Option::None => Value::Nil,
            },
            _ => Value::Nil,
        }
    }

    /// The chain after the head, as an unquoted cell; empty otherwise.
    pub fn tail(&self) -> (r: Cell)
        requires
            self.wf(),
        ensures
            r@ == self@.tail_elems(),
            !r.spec_quoted(),
            r.wf(),
    {
        match self {
            Value::List(c) | Value::QuotedList(c) => match c.tail() {
                Option::Some(t) => t,
                Option::None => Cell::nil(),
            },
            _ => Cell::nil(),
        }
    }

    /// Wrap the value as the sole element of a list, quoted when the value
    /// itself is quoted.
    pub fn wrap_in_list(&self) -> (r: Value)
        requires
            self.wf(),
        ensures
            r@ == (if self@.quoted_form() {
                ValModel::QList(seq![self@])
            } else {
                ValModel::List(seq![self@])
            }),
            r.wf(),
    {
        if self.is_quoted() {
            Value::QuotedList(Cell::quoted(Some(self.duplicate()), true))
        } else {
            Value::List(Cell::quoted(Some(self.duplicate()), false))
        }
    }

    /// A one-element list unwraps to its element, an empty chain to `Nil`;
    /// everything else is returned unchanged.
    pub fn unwrap_list(&self) -> (r: Value)
        requires
            self.wf(),
        ensures
            r@ == self@.unwrap_list_m(),
            r.wf(),
    {
        match self {
            Value::List(c) | Value::QuotedList(c) => {
                let n = c.len();
                if n == 0 {
                    Value::Nil
                } else if n == 1 {
                    match c.head() {
                        Option::Some(v) => v,
                        Option::None => Value::Nil,
                    }
                } else {
                    self.duplicate()
                }
            },
            _ => self.duplicate(),
        }
    }
}

/// The head of a list value, re-quoted when the input was quoted; `Nil`
/// for any non-list input.
pub fn car(value: &Value) -> (r: Value)
    requires
        value.wf(),
    ensures
        r@ == value@.car_m(),
        r.wf(),
{
    match value {
        Value::List(c) => match c.head() {
            Option::Some(v) => v,
            Option::None => Value::Nil,
        },
        Value::QuotedList(c) => match c.head() {
            Option::Some(v) => if v.is_quoted() {
                v
            } else {
                v.quote()
            },
            Option::None => Value::Nil,
        },
        _ => Value::Nil,
    }
}

/// The remainder of a list value after its head, re-wrapped as an unquoted
/// list; `Nil` when there is no remainder, in particular for a one-element
/// list.
pub fn cdr(value: &Value) -> (r: Value)
    requires
        value.wf(),
    ensures
        r@ == value@.cdr_m(),
        r.wf(),
{
    match value {
        Value::List(c) | Value::QuotedList(c) => match c.tail() {
            Option::Some(t) => Value::List(t),
            Option::None => Value::Nil,
        },
        _ => Value::Nil,
    }
}

impl Value {
    /// The cell form of a value: a list's own chain, or a one-element chain
    /// holding the value; the chain is marked quoted for quoted values.
    pub fn as_cell(&self) -> (r: Cell)
        requires
            self.wf(),
        ensures
            r@ == self@.as_cell_m(),
            r.spec_quoted() == self@.quoted_form(),
            r.wf(),
    {
        match self {
            Value::List(c) => c.duplicate(),
            Value::QuotedList(c) => c.duplicate(),
            Value::Symbol(s) => Cell::quoted(Some(Value::Symbol(s.unquote())), false),
            Value::QuotedSymbol(s) => Cell::quoted(Some(Value::QuotedSymbol(s.quote())), true),
            _ => {
                let quoted = self.is_quoted();
                Cell::quoted(Some(self.duplicate()), quoted)
            },
        }
    }
}

/// The list view of a value: the empty view or a linked chain, each
/// carrying the quoting mark normalized out of the value's tag.
#[derive(Debug)]
pub enum List {
    Empty(bool),
    Linked(Cell, bool),
}

/// Mathematical model of a list view: the element models beside the quoting
/// mark.
pub ghost enum ListModel {
    Empty(bool),
    Linked(Seq<ValModel>, bool),
}

impl View for List {
    type V = ListModel;

    open spec fn view(&self) -> ListModel {
        match self {
            List::Empty(q) => ListModel::Empty(*q),
            List::Linked(c, q) => ListModel::Linked(c@, *q),
        }
    }
}

impl List {
    /// Well-formedness: a linked view holds at least one well-formed
    /// element, and its chain's own flag agrees with the view's mark.
    pub open spec fn wf(&self) -> bool {
        match self {
            List::Empty(_) => true,
            List::Linked(c, q) => c.wf() && c.spec_quoted() == *q && c@.len() > 0,
        }
    }
}

impl ValModel {
    /// The list view of a value: `Nil` and empty lists collapse to the
    /// empty view, a non-empty list keeps its elements, and any other value
    /// stands alone in a one-element chain; the quoting mark moves from the
    /// value's tag onto the view.
    pub open spec fn as_list_m(self) -> ListModel {
        match self {
            ValModel::Nil | ValModel::Empty => ListModel::Empty(false),
            ValModel::QEmpty => ListModel::Empty(true),
            ValModel::List(s) => if s.len() == 0 {
                ListModel::Empty(false)
            } else {
                ListModel::Linked(s, false)
            },
            ValModel::QList(s) => if s.len() == 0 {
                ListModel::Empty(true)
            } else {
                ListModel::Linked(s, true)
            },
            ValModel::QSym(n) => ListModel::Linked(seq![ValModel::QSym(n)], true),
            _ => ListModel::Linked(seq![self], false),
        }
    }
}

impl Value {
    /// The list view of the value, with quoting normalized onto the view.
    pub fn as_list(&self) -> (r: List)
        requires
            self.wf(),
        ensures
            r@ == self@.as_list_m(),
            r.wf(),
    {
        match self {
            Value::Nil | Value::EmptyList => List::Empty(false),
            Value::EmptyQuotedList => List::Empty(true),
            Value::List(c) => if c.is_empty() {
                List::Empty(false)
            } else {
                List::Linked(c.duplicate(), false)
            },
            Value::QuotedList(c) => if c.is_empty() {
                List::Empty(true)
            } else {
                List::Linked(c.duplicate(), true)
            },
            Value::QuotedSymbol(s) => List::Linked(
                Cell::quoted(Some(Value::QuotedSymbol(s.quote())), true),
                true,
            ),
            _ => List::Linked(Cell::new(self.duplicate()), false),
        }
    }
}

/// Prefix a list chain with a head element: the head's cell form with the
/// tail chain appended.
pub fn cons(head: &Value, tail: &Cell) -> (r: Cell)
    requires
        head.wf(),
        tail.wf(),
    ensures
        r@ == head@.as_cell_m() + tail@,
        r.spec_quoted() == head@.quoted_form(),
        r.wf(),
{
    let mut c = head.as_cell();
    c.add(tail);
    c
}

/// Build a list value holding the items in order, exactly as given:
/// length, order, duplicates and each item's own quoting are all kept.
pub fn list(items: Vec<Value>) -> (r: Value)
    requires
        Value::seq_wf(items@),
    ensures
        r@ == ValModel::List(Value::seq_view(items@)),
        r.wf(),
{
    Value::List(Cell { items, quoted: false })
}

/// Splice a sequence of values into one list: list items contribute their
/// elements, `Nil` and empty lists nothing, other atoms themselves.
pub fn append(items: Vec<Value>) -> (r: Value)
    requires
        Value::seq_wf(items@),
    ensures
        r@ == ValModel::List(ValModel::flatten_m(Value::seq_view(items@))),
        r.wf(),
{
    let ghost all = Value::seq_view(items@);
    let n = items.len();
    let mut out: Vec<Value> = Vec::new();
    let mut i: usize = 0;
    proof {
        assert(all.subrange(0, n as int) =~= all);
        assert(Value::seq_view(out@) + ValModel::flatten_m(all.subrange(0, n as int))
            =~= ValModel::flatten_m(all));
    }
    while i < n
        invariant
            i <= n,
            n == items@.len(),
            Value::seq_wf(items@),
            all == Value::seq_view(items@),
            Value::seq_view(out@) + ValModel::flatten_m(all.subrange(i as int, n as int))
                == ValModel::flatten_m(all),
            forall|j: int| 0 <= j < out@.len() ==> (#[trigger] out@[j]).wf(),
        decreases n - i,
    {
        let ghost out_before = out@;
        let item = &items[i];
        proof {
            seq_wf_index(items@, i as int);
        }
        match item {
            Value::List(c) | Value::QuotedList(c) => {
                let elems = c.values();
                let m = elems.len();
                let mut k: usize = 0;
                while k < m
                    invariant
                        k <= m,
                        m == elems@.len(),
                        Value::seq_wf(elems@),
                        Value::seq_view(elems@) == c@,
                        out@.len() == out_before.len() + k,
                        forall|j: int| 0 <= j < out_before.len()
                            ==> (#[trigger] out@[j]) == out_before[j],
                        forall|j: int| out_before.len() <= j < out_before.len() + k
                            ==> (#[trigger] out@[j])@ == elems@[j - out_before.len()]@,
                        forall|j: int| 0 <= j < out@.len() ==> (#[trigger] out@[j]).wf(),
                    decreases m - k,
                {
                    let e = &elems[k];
                    proof {
                        seq_wf_index(elems@, k as int);
                    }
                    out.push(e.duplicate());
                    k += 1;
                }
                proof {
                    assert(Value::seq_view(out@) =~= Value::seq_view(out_before) + c@);
                }
            },
            Value::Nil | Value::EmptyList | Value::EmptyQuotedList => {
            },
            _ => {
                out.push(item.duplicate());
                proof {
                    assert(Value::seq_view(out@) =~= Value::seq_view(out_before)
                        + seq![items@[i as int]@]);
                }
            },
        }
        proof {
            let rest = all.subrange(i as int, n as int);
            assert(rest[0] == all[i as int]);
            assert(rest.subrange(1, rest.len() as int) =~= all.subrange(i as int + 1, n as int));
            assert(Value::seq_view(out@) =~= Value::seq_view(out_before) + all[i as int].splice_m());
            assert(Value::seq_view(out@) + ValModel::flatten_m(all.subrange(i as int + 1, n as int))
                =~= ValModel::flatten_m(all));
        }
        i += 1;
    }
    proof {
        assert(ValModel::flatten_m(all.subrange(n as int, n as int)) =~= Seq::<ValModel>::empty());
        assert(Value::seq_view(out@) =~= ValModel::flatten_m(all));
        seq_wf_intro(out@);
    }
    Value::List(Cell { items: out, quoted: false })
}

/// A vector holding `head` followed by copies of the elements of `rest`.
pub fn vec_with_prefix(head: Value, rest: &Vec<Value>) -> (r: Vec<Value>)
    ensures
        Value::seq_view(r@) == seq![head@] + Value::seq_view(rest@),
        head.wf() && Value::seq_wf(rest@) ==> Value::seq_wf(r@),
{
    let ghost headm = head@;
    let ghost headwf = head.wf();
    let mut out: Vec<Value> = Vec::new();
    out.push(head);
    let n = rest.len();
    let mut i: usize = 0;
    while i < n
        invariant
            i <= n,
            n == rest@.len(),
            out@.len() == i + 1,
            out@[0]@ == headm,
            headwf ==> out@[0].wf(),
            forall|j: int| 1 <= j < i + 1 ==> (#[trigger] out@[j])@ == rest@[j - 1]@,
            forall|j: int| 1 <= j < i + 1 ==> (rest@[j - 1].wf() ==> (#[trigger] out@[j]).wf()),
        decreases n - i,
    {
        let item = &rest[i];
        out.push(item.duplicate());
        i += 1;
    }
    proof {
        assert(Value::seq_view(out@) =~= seq![headm] + Value::seq_view(rest@));
        if headwf && Value::seq_wf(rest@) {
            assert forall|j: int| 0 <= j < out@.len() implies (#[trigger] out@[j]).wf() by {
                if j >= 1 {
                    seq_wf_index(rest@, j - 1);
                }
            }
            seq_wf_intro(out@);
        }
    }
    out
}

/// Copies of the elements from `start` on.
pub fn vec_suffix(items: &Vec<Value>, start: usize) -> (r: Vec<Value>)
    requires
        start <= items@.len(),
    ensures
        Value::seq_view(r@) == Value::seq_view(items@).subrange(
            start as int,
            items@.len() as int,
        ),
        Value::seq_wf(items@) ==> Value::seq_wf(r@),
{
    let n = items.len();
    let mut out: Vec<Value> = Vec::new();
    let mut i = start;
    while i < n
        invariant
            start <= i <= n,
            n == items@.len(),
            out@.len() == i - start,
            forall|j: int| start <= j < i ==> (#[trigger] items@[j])@ == out@[j - start]@,
            forall|j: int| start <= j < i ==> (items@[j].wf() ==> out@[j - start].wf()),
        decreases n - i,
    {
        let item = &items[i];
        out.push(item.duplicate());
        i += 1;
    }
    proof {
        assert(Value::seq_view(out@) =~= Value::seq_view(items@).subrange(
            start as int,
            items@.len() as int,
        ));
        if Value::seq_wf(items@) {
            assert forall|j: int| 0 <= j < out@.len() implies (#[trigger] out@[j]).wf() by {
                seq_wf_index(items@, j + start);
                assert(items@[j + start]@ == out@[j]@);
            }
            seq_wf_intro(out@);
        }
    }
    out
}

/// A list holding `count` copies of the value.
pub fn makelist(value: &Value, count: usize) -> (r: Value)
    requires
        value.wf(),
    ensures
        r@ == ValModel::List(Seq::new(count as nat, |i: int| value@)),
        r.wf(),
{
    let mut out: Vec<Value> = Vec::new();
    let mut i: usize = 0;
    while i < count
        invariant
            i <= count,
            value.wf(),
            out@.len() == i,
            forall|j: int| 0 <= j < i ==> (#[trigger] out@[j])@ == value@,
            forall|j: int| 0 <= j < i ==> (#[trigger] out@[j]).wf(),
        decreases count - i,
    {
        out.push(value.duplicate());
        i += 1;
    }
    proof {
        assert(Value::seq_view(out@) =~= Seq::new(count as nat, |i: int| value@));
        seq_wf_intro(out@);
    }
    Value::List(Cell { items: out, quoted: false })
}


impl Value {
    /// Structural equality on the models: variants must match, symbols
    /// compare by name, and lists compare their flattened element sequences.
    pub fn eq_value(a: &Value, b: &Value) -> (r: bool)
        ensures
            r == (a@ == b@),
        decreases a,
    {
        match a {
            Value::Nil => (matches!(b, Value::Nil)),
            Value::T => (matches!(b, Value::T)),
            Value::Str(x) => match b {
                Value::Str(y) => *x == *y,
                _ => false,
            },
            Value::Symbol(x) => match b {
                Value::Symbol(y) => x.same_name(y),
                _ => false,
            },
            Value::QuotedSymbol(x) => match b {
                Value::QuotedSymbol(y) => x.same_name(y),
                _ => false,
            },
            Value::Byte(x) => match b {
                Value::Byte(y) => x == y,
                _ => false,
            },
            Value::UnsignedInteger(x) => match b {
                Value::UnsignedInteger(y) => x == y,
                _ => false,
            },
            Value::Integer(x) => match b {
                Value::Integer(y) => x == y,
                _ => false,
            },
            Value::Float(x) => match b {
                Value::Float(y) => *x == *y,
                _ => false,
            },
            Value::List(x) => match b {
                Value::List(y) => Value::eq_cells(x, y),
                _ => false,
            },
            Value::QuotedList(x) => match b {
                Value::QuotedList(y) => Value::eq_cells(x, y),
                _ => false,
            },
            Value::EmptyList => (matches!(b, Value::EmptyList)),
            Value::EmptyQuotedList => (matches!(b, Value::EmptyQuotedList)),
        }
    }

    /// Content equality of two chains: their flattened element sequences are
    /// compared element-wise; the quoting flags play no part.
    pub fn eq_cells(a: &Cell, b: &Cell) -> (r: bool)
        ensures
            r == (a@ == b@),
        decreases a,
    {
        let n = a.items.len();
        if n != b.items.len() {
            proof {
                assert(a@.len() == a.items@.len());
                assert(b@.len() == b.items@.len());
            }
            return false;
        }
        let mut i: usize = 0;
        while i < n
            invariant
                i <= n,
                n == a.items@.len(),
                n == b.items@.len(),
                forall|j: int| 0 <= j < i ==> (#[trigger] a.items@[j])@ == b.items@[j]@,
            decreases n - i,
        {
            let ea = &a.items[i];
            let eb = &b.items[i];
            if !Value::eq_value(ea, eb) {
                proof {
                    assert(a@[i as int] != b@[i as int]);
                }
                return false;
            }
            i += 1;
        }
        proof {
            assert(a@ =~= b@);
        }
        true
    }
}

/// Equality on values is equality of their models: structural, with symbol
/// and list quoting flags tied to the tags by well-formedness.
impl PartialEq for Value {
    fn eq(&self, other: &Value) -> (r: bool) {
        Value::eq_value(self, other)
    }
}

impl vstd::std_specs::cmp::PartialEqSpecImpl for Value {
    open spec fn obeys_eq_spec() -> bool {
        true
    }

    open spec fn eq_spec(&self, other: &Value) -> bool {
        self@ == other@
    }
}

impl Eq for Value {

}

/// Equality on cells compares flattened element sequences, never chain
/// identity and never the quoting flags.
impl PartialEq for Cell {
    fn eq(&self, other: &Cell) -> (r: bool) {
        Value::eq_cells(self, other)
    }
}

impl vstd::std_specs::cmp::PartialEqSpecImpl for Cell {
    open spec fn obeys_eq_spec() -> bool {
        true
    }

    open spec fn eq_spec(&self, other: &Cell) -> bool {
        self@ == other@
    }
}

impl Eq for Cell {

}

/// How often `cdr` must be applied: `n` applications of `cdr_m`.
pub open spec fn cdr_iter_m(v: ValModel, n: nat) -> ValModel
    decreases n,
{
    if n == 0 {
        v
    } else {
        cdr_iter_m(v.cdr_m(), (n - 1) as nat)
    }
}

/// Law: on a value that is not already quoted, `unquote` undoes `quote`
/// exactly, and the result can be quoted again, giving back the same quoted
/// value: quote and unquote are exact inverses.  On quotable values quoting
/// is never idempotent: the quoted form differs from the original and may
/// not be quoted again.
pub proof fn lemma_quote_unquote_inverse(v: ValModel)
    requires
        !v.quoted_form(),
    ensures
        v.quoted().unquoted() == v,
        !v.quoted().unquoted().quoted_form(),
        v.quoted().unquoted().quoted() == v.quoted(),
        v.quotable() ==> v.quoted().quoted_form() && v.quoted() != v,
{
}

/// Law: a list value over an element sequence of length `n >= 1` has exactly
/// `n` elements, and applying `cdr` `n` times yields `Nil`.
pub proof fn lemma_len_and_cdr_to_nil(s: Seq<ValModel>)
    requires
        s.len() > 0,
    ensures
        ValModel::List(s).elems().len() == s.len(),
        cdr_iter_m(ValModel::List(s), s.len()) == ValModel::Nil,
    decreases s.len(),
{
    if s.len() == 1 {
        assert(ValModel::List(s).cdr_m() == ValModel::Nil);
        assert(cdr_iter_m(ValModel::List(s), 1) == cdr_iter_m(ValModel::Nil, 0));
        assert(cdr_iter_m(ValModel::Nil, 0) == ValModel::Nil);
    } else {
        let t = s.subrange(1, s.len() as int);
        lemma_len_and_cdr_to_nil(t);
        assert(ValModel::List(s).cdr_m() == ValModel::List(t));
        assert(cdr_iter_m(ValModel::List(s), s.len())
            == cdr_iter_m(ValModel::List(t), (s.len() - 1) as nat));
    }
}

/// Law: `cdr` of a one-element list is `Nil`, not an empty list.
pub proof fn lemma_cdr_singleton(x: ValModel)
    ensures
        ValModel::List(seq![x]).cdr_m() == ValModel::Nil,
        ValModel::QList(seq![x]).cdr_m() == ValModel::Nil,
        ValModel::List(seq![x]).cdr_m() != ValModel::Empty,
{
}

/// The display character of one decimal digit.
pub open spec fn dec_digit(d: nat) -> char {
    if d == 0 {
        '0'
    } else if d == 1 {
        '1'
    } else if d == 2 {
        '2'
    } else if d == 3 {
        '3'
    } else if d == 4 {
        '4'
    } else if d == 5 {
        '5'
    } else if d == 6 {
        '6'
    } else if d == 7 {
        '7'
    } else if d == 8 {
        '8'
    } else {
        '9'
    }
}

/// The decimal spelling of a natural number.
pub open spec fn dec_of(n: nat) -> Seq<char>
    decreases n,
{
    if n < 10 {
        seq![dec_digit(n)]
    } else {
        dec_of(n / 10).push(dec_digit(n % 10))
    }
}

/// The display character of one hexadecimal digit.
pub open spec fn hex_digit(d: nat) -> char {
    if d < 10 {
        dec_digit(d)
    } else if d == 10 {
        'a'
    } else if d == 11 {
        'b'
    } else if d == 12 {
        'c'
    } else if d == 13 {
        'd'
    } else if d == 14 {
        'e'
    } else {
        'f'
    }
}

/// The display text of a value: how the runtime shows its data.  Bytes show
/// as two lowercase hex digits behind `0x`; floats show their spelling;
/// strings are re-quoted without escaping.
pub open spec fn display_of(v: ValModel) -> Seq<char>
    decreases v,
{
    match v {
        ValModel::Nil => seq!['n', 'i', 'l'],
        ValModel::T => seq!['t'],
        ValModel::Str(s) => seq!['"'] + s + seq!['"'],
        ValModel::Sym(n) => n,
        ValModel::QSym(n) => seq!['\''] + n,
        ValModel::Byte(b) => seq!['0', 'x', hex_digit(b as nat / 16), hex_digit(b as nat % 16)],
        ValModel::UInt(u) => dec_of(u as nat),
        ValModel::Int(i) => if i < 0 {
            seq!['-'] + dec_of((0 - i as int) as nat)
        } else {
            dec_of(i as nat)
        },
        ValModel::Flt(t) => t,
        ValModel::List(s) => seq!['('] + display_join(s) + seq![')'],
        ValModel::QList(s) => seq!['\'', '('] + display_join(s) + seq![')'],
        ValModel::Empty => seq!['(', ')'],
        ValModel::QEmpty => seq!['\'', '(', ')'],
    }
}

/// The display texts of list elements, separated by single spaces.
pub open spec fn display_join(s: Seq<ValModel>) -> Seq<char>
    decreases s,
{
    if s.len() == 0 {
        Seq::empty()
    } else if s.len() == 1 {
        display_of(s[0])
    } else {
        display_of(s[0]) + seq![' '] + display_join(s.subrange(1, s.len() as int))
    }
}

/// Append one decimal digit's character.
pub(crate) fn push_digit(out: &mut String, d: u64)
    requires
        d < 10,
    ensures
        final(out)@ == old(out)@.push(dec_digit(d as nat)),
{
    let c: char = if d == 0 {
        '0'
    } else if d == 1 {
        '1'
    } else if d == 2 {
        '2'
    } else if d == 3 {
        '3'
    } else if d == 4 {
        '4'
    } else if d == 5 {
        '5'
    } else if d == 6 {
        '6'
    } else if d == 7 {
        '7'
    } else if d == 8 {
        '8'
    } else {
        '9'
    };
    out.push(c);
}

/// Append the decimal spelling of a number.
pub(crate) fn push_dec(out: &mut String, n: u64)
    ensures
        final(out)@ == old(out)@ + dec_of(n as nat),
    decreases n,
{
    if n < 10 {
        push_digit(out, n);
        proof {
            assert(old(out)@ + dec_of(n as nat) =~= old(out)@.push(dec_digit(n as nat)));
        }
    } else {
        push_dec(out, n / 10);
        push_digit(out, n % 10);
        proof {
            assert(old(out)@ + dec_of(n as nat) =~= (old(out)@ + dec_of(n as nat / 10)).push(
                dec_digit(n as nat % 10),
            ));
        }
    }
}

/// Append one hexadecimal digit's character.
fn push_hex_digit(out: &mut String, d: u8)
    requires
        d < 16,
    ensures
        final(out)@ == old(out)@.push(hex_digit(d as nat)),
{
    if d < 10 {
        push_digit(out, d as u64);
    } else {
        let c: char = if d == 10 {
            'a'
        } else if d == 11 {
            'b'
        } else if d == 12 {
            'c'
        } else if d == 13 {
            'd'
        } else if d == 14 {
            'e'
        } else {
            'f'
        };
        out.push(c);
    }
}

impl Value {
    /// The display text of the value.
    pub fn text(&self) -> (r: String)
        ensures
            r@ == display_of(self@),
    {
        let mut out = String::new();
        self.write_text(&mut out);
        proof {
            assert(Seq::<char>::empty() + display_of(self@) =~= display_of(self@));
        }
        out
    }

    /// Append the display text of the value.
    fn write_text(&self, out: &mut String)
        ensures
            final(out)@ == old(out)@ + display_of(self@),
        decreases self, 0int,
    {
        proof {
            reveal_strlit("nil");
            reveal_strlit("t");
            reveal_strlit("0x");
            reveal_strlit("()");
            reveal_strlit("'()");
        }
        match self {
            Value::Nil => {
                out.append("nil");
                proof {
                    assert(old(out)@ + "nil"@ =~= old(out)@ + display_of(self@));
                }
            },
            Value::T => {
                out.append("t");
                proof {
                    assert(old(out)@ + "t"@ =~= old(out)@ + display_of(self@));
                }
            },
            Value::Str(s) => {
                out.push('"');
                out.append(s.as_str());
                out.push('"');
                proof {
                    assert(final(out)@ =~= old(out)@ + display_of(self@));
                }
            },
            Value::Symbol(s) => {
                out.append(s.name());
            },
            Value::QuotedSymbol(s) => {
                out.push('\'');
                out.append(s.name());
                proof {
                    assert(final(out)@ =~= old(out)@ + display_of(self@));
                }
            },
            Value::Byte(b) => {
                out.append("0x");
                push_hex_digit(out, *b / 16);
                push_hex_digit(out, *b % 16);
                proof {
                    assert(final(out)@ =~= old(out)@ + display_of(self@));
                }
            },
            Value::UnsignedInteger(u) => {
                push_dec(out, *u as u64);
            },
            Value::Integer(i) => {
                if *i < 0 {
                    out.push('-');
                    let mag: u64 = ((0i128 - (*i as i128)) as u64);
                    push_dec(out, mag);
                    proof {
                        assert(final(out)@ =~= old(out)@ + display_of(self@));
                    }
                } else {
                    push_dec(out, *i as u64);
                }
            },
            Value::Float(t) => {
                out.append(t.as_str());
            },
            Value::List(c) => {
                out.push('(');
                Value::write_items(c, out, 0);
                out.push(')');
                proof {
                    assert(Value::seq_view(c.items@).subrange(0, c.items@.len() as int)
                        =~= Value::seq_view(c.items@));
                    assert(final(out)@ =~= old(out)@ + display_of(self@));
                }
            },
            Value::QuotedList(c) => {
                out.push('\'');
                out.push('(');
                Value::write_items(c, out, 0);
                out.push(')');
                proof {
                    assert(Value::seq_view(c.items@).subrange(0, c.items@.len() as int)
                        =~= Value::seq_view(c.items@));
                    assert(final(out)@ =~= old(out)@ + display_of(self@));
                }
            },
            Value::EmptyList => {
                out.append("()");
                proof {
                    assert(old(out)@ + "()"@ =~= old(out)@ + display_of(self@));
                }
            },
            Value::EmptyQuotedList => {
                out.append("'()");
                proof {
                    assert(old(out)@ + "'()"@ =~= old(out)@ + display_of(self@));
                }
            },
        }
    }

    /// Append the display texts of the chain's elements from `idx` on,
    /// separated by single spaces.
    fn write_items(c: &Cell, out: &mut String, idx: usize)
        requires
            idx <= c.items@.len(),
        ensures
            final(out)@ == old(out)@ + display_join(
                Value::seq_view(c.items@).subrange(idx as int, c.items@.len() as int),
            ),
        decreases c, c.items@.len() - idx,
    {
        let n = c.items.len();
        let ghost rest = Value::seq_view(c.items@).subrange(idx as int, n as int);
        if idx == n {
            proof {
                assert(rest =~= Seq::<ValModel>::empty());
                assert(old(out)@ + display_join(rest) =~= old(out)@);
            }
            return ;
        }
        proof {
            assert(rest[0] == c.items@[idx as int]@);
            assert(rest.subrange(1, rest.len() as int) =~= Value::seq_view(c.items@).subrange(
                idx as int + 1,
                n as int,
            ));
        }
        let item = &c.items[idx];
        item.write_text(out);
        if idx + 1 < n {
            out.push(' ');
            Value::write_items(c, out, idx + 1);
            proof {
                assert(final(out)@ =~= old(out)@ + display_join(rest));
            }
        } else {
            proof {
                assert(final(out)@ =~= old(out)@ + display_join(rest));
            }
        }
    }
}

} // verus!
