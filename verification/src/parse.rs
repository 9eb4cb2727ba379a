//! The surface-syntax reader: source text to value trees.
//!
//! The grammar is small: parenthesised forms, `'` quoting, double-quoted
//! strings (without escape sequences), unsigned and negative integers,
//! float literals (kept as their spelling), the keywords `t` and `nil`, and
//! symbols.  A quoted list `'(…)` reads as a call `(quote …)`; a quoted
//! symbol `'a` reads as the quoted symbol itself.
//!
//! The reader is specified by a recursive descent over the character
//! sequence (`parse_form_m` and friends); the executable reader is proved to
//! return exactly what the specification says.  A failure carries a message
//! and the source span (line/column) where reading stopped.

use vstd::prelude::*;

use crate::sym::Symbol;
use crate::value::{Cell, ValModel, Value};

verus! {

broadcast use crate::value::lemma_view_cases, crate::value::lemma_wf_cases,
    crate::value::lemma_seq_view_len, crate::value::lemma_seq_view_index;

/// A line/column position in source text, both 1-based.
#[derive(Debug, Clone, Copy, PartialEq, Eq, Structural)]
pub struct NodePosition {
    pub line: usize,
    pub column: usize,
}

impl NodePosition {
    /// A position from a `(line, column)` pair.
    pub fn from_tuple(line_col: (usize, usize)) -> (r: NodePosition)
        ensures
            r.line == line_col.0,
            r.column == line_col.1,
    {
        let (line, column) = line_col;
        NodePosition { line, column }
    }

    /// The position as a `(line, column)` pair.
    pub fn to_tuple(&self) -> (r: (usize, usize))
        ensures
            r.0 == self.line,
            r.1 == self.column,
    {
        (self.line, self.column)
    }
}

/// A piece of source text together with the name of where it came from.
#[derive(Debug)]
pub struct SourceInfo {
    source: String,
    filename: Option<String>,
}

impl SourceInfo {
    /// The source text.
    pub closed spec fn spec_source(&self) -> Seq<char> {
        self.source@
    }

    /// The file name, if one is known.
    pub closed spec fn spec_filename(&self) -> Option<Seq<char>> {
        match self.filename {
            Option::Some(ref f) => Option::Some(f@),
            Option::None => Option::None,
        }
    }

    /// Source text with a file name.
    pub fn new(source: &str, filename: Option<&str>) -> (r: SourceInfo)
        ensures
            r.spec_source() == source@,
            (match filename {
                Option::Some(f) => r.spec_filename() == Option::Some(f@),
                Option::None => r.spec_filename() is None,
            }),
    {
        let filename = match filename {
            Option::Some(f) => Some(f.to_owned()),
            Option::None => None,
        };
        SourceInfo { source: source.to_owned(), filename }
    }

    /// Source text with no file name.
    pub fn without_filename(source: &str) -> (r: SourceInfo)
        ensures
            r.spec_source() == source@,
            r.spec_filename() is None,
    {
        SourceInfo { source: source.to_owned(), filename: None }
    }

    /// The file name, if any, as an owned string.
    pub fn filename(&self) -> (r: Option<String>)
        ensures
            (match r {
                Option::Some(f) => self.spec_filename() == Option::Some(f@),
                Option::None => self.spec_filename() is None,
            }),
    {
        match &self.filename {
            Option::Some(f) => Some(f.clone()),
            Option::None => None,
        }
    }
}

/// A failure to read source text: a message and the source span where
/// reading stopped.
#[derive(Debug)]
pub struct ParseError {
    message: String,
    start: NodePosition,
    end: NodePosition,
}

impl ParseError {
    /// A fresh error.
    pub fn new(message: String, start: NodePosition, end: NodePosition) -> (r: ParseError)
        ensures
            r.spec_start() == start,
            r.spec_end() == end,
    {
        ParseError { message, start, end }
    }

    /// The message.
    pub fn message(&self) -> (r: &str) {
        self.message.as_str()
    }

    /// Where the failing span begins.
    pub fn start(&self) -> (r: NodePosition)
        ensures
            r == self.spec_start(),
    {
        self.start
    }

    /// Where the failing span ends.
    pub fn end(&self) -> (r: NodePosition)
        ensures
            r == self.spec_end(),
    {
        self.end
    }

    /// The start position.
    pub closed spec fn spec_start(&self) -> NodePosition {
        self.start
    }

    /// The end position.
    pub closed spec fn spec_end(&self) -> NodePosition {
        self.end
    }
}

/// Whitespace characters of the grammar.
pub open spec fn is_space_c(c: char) -> bool {
    c == ' ' || c == '\n' || c == '\t' || c == '\r'
}

/// Decimal digits.
pub open spec fn is_digit_c(c: char) -> bool {
    '0' <= c && c <= '9'
}

/// Characters that end an atom.
pub open spec fn is_delim_c(c: char) -> bool {
    is_space_c(c) || c == '(' || c == ')' || c == '\'' || c == '"'
}

/// The first non-whitespace position at or after `i`.
pub open spec fn skip_ws(s: Seq<char>, i: int) -> int
    decreases s.len() - i,
{
    if 0 <= i < s.len() && is_space_c(s[i]) {
        skip_ws(s, i + 1)
    } else {
        i
    }
}

/// The end of the atom starting at `i`: the first delimiter or the end of
/// the text.
pub open spec fn scan_atom(s: Seq<char>, i: int) -> int
    decreases s.len() - i,
{
    if 0 <= i < s.len() && !is_delim_c(s[i]) {
        scan_atom(s, i + 1)
    } else {
        i
    }
}

/// The position of the closing quote of a string whose opening quote sits
/// just before `i`, if there is one.
pub open spec fn scan_string(s: Seq<char>, i: int) -> Option<int>
    decreases s.len() - i,
{
    if i >= s.len() || i < 0 {
        Option::None
    } else if s[i] == '"' {
        Option::Some(i)
    } else {
        scan_string(s, i + 1)
    }
}

/// The numeric value of a digit string.
pub open spec fn digits_val(s: Seq<char>) -> nat
    decreases s.len(),
{
    if s.len() == 0 {
        0
    } else {
        (digits_val(s.drop_last()) * 10 + (s.last() as int - '0' as int)) as nat
    }
}

/// Whether every character is a decimal digit.
pub open spec fn all_digits(s: Seq<char>) -> bool {
    forall|j: int| 0 <= j < s.len() ==> is_digit_c(#[trigger] s[j])
}

/// How many dots the text holds.
pub open spec fn count_dots(s: Seq<char>) -> nat
    decreases s.len(),
{
    if s.len() == 0 {
        0
    } else {
        count_dots(s.drop_last()) + (if s.last() == '.' {
            1nat
        } else {
            0nat
        })
    }
}

/// Where a float literal's digits begin: after an optional minus sign.
pub open spec fn float_off(s: Seq<char>) -> int {
    if s.len() > 0 && s[0] == '-' {
        1
    } else {
        0
    }
}

/// Whether the text spells a float literal: after an optional minus sign,
/// at least two characters, all digits or dots, with exactly one dot.
pub open spec fn is_float_text(s: Seq<char>) -> bool {
    &&& s.len() - float_off(s) >= 2
    &&& (forall|j: int| float_off(s) <= j < s.len() ==> is_digit_c(#[trigger] s[j]) || s[j]
        == '.')
    &&& count_dots(s.subrange(float_off(s), s.len() as int)) == 1
}

/// What an atom's text denotes: the keywords `t` and `nil`, a number, a
/// float literal, or a symbol.  Oversized numbers denote nothing.
pub open spec fn classify_atom(s: Seq<char>) -> Option<ValModel> {
    if s == seq!['t'] {
        Option::Some(ValModel::T)
    } else if s == seq!['n', 'i', 'l'] {
        Option::Some(ValModel::Nil)
    } else if s.len() > 0 && all_digits(s) {
        if digits_val(s) <= u32::MAX as nat {
            Option::Some(ValModel::UInt(digits_val(s) as u32))
        } else if digits_val(s) <= i64::MAX as nat {
            Option::Some(ValModel::Int(digits_val(s) as i64))
        } else {
            Option::None
        }
    } else if s.len() >= 2 && s[0] == '-' && all_digits(s.subrange(1, s.len() as int)) {
        if digits_val(s.subrange(1, s.len() as int)) <= 0x8000_0000_0000_0000 as nat {
            Option::Some(ValModel::Int((0 - digits_val(s.subrange(1, s.len() as int))) as i64))
        } else {
            Option::None
        }
    } else if is_float_text(s) {
        Option::Some(ValModel::Flt(s))
    } else {
        Option::Some(ValModel::Sym(s))
    }
}

/// One parsed form and the position just after it.
pub ghost struct ParsedForm {
    pub val: ValModel,
    pub next: int,
}

/// The parsed elements of a list and the position just after the closing
/// parenthesis.
pub ghost struct ParsedItems {
    pub items: Seq<ValModel>,
    pub next: int,
}

/// Read one form starting at `i` (whitespace allowed first).
pub open spec fn parse_form_m(s: Seq<char>, i: int, fuel: nat) -> Option<ParsedForm>
    decreases fuel,
{
    if fuel == 0 {
        Option::None
    } else {
        let j = skip_ws(s, i);
        if j >= s.len() {
            Option::None
        } else if s[j] == '(' {
            match parse_items_m(s, j + 1, (fuel - 1) as nat) {
                Option::Some(pi) => Option::Some(
                    ParsedForm { val: ValModel::List(pi.items), next: pi.next },
                ),
                Option::None => Option::None,
            }
        } else if s[j] == '\'' {
            if j + 1 < s.len() && s[j + 1] == '(' {
                match parse_items_m(s, j + 2, (fuel - 1) as nat) {
                    Option::Some(pi) => Option::Some(
                        ParsedForm {
                            val: ValModel::List(seq![ValModel::Sym(seq!['q', 'u', 'o', 't', 'e'])] + pi.items),
                            next: pi.next,
                        },
                    ),
                    Option::None => Option::None,
                }
            } else {
                let e = scan_atom(s, j + 1);
                if e == j + 1 {
                    Option::None
                } else {
                    match classify_atom(s.subrange(j + 1, e)) {
                        Option::Some(ValModel::Sym(n)) => Option::Some(
                            ParsedForm { val: ValModel::QSym(n), next: e },
                        ),
                        _ => Option::None,
                    }
                }
            }
        } else if s[j] == ')' {
            Option::None
        } else if s[j] == '"' {
            match scan_string(s, j + 1) {
                Option::Some(e) => Option::Some(
                    ParsedForm { val: ValModel::Str(s.subrange(j + 1, e)), next: e + 1 },
                ),
                Option::None => Option::None,
            }
        } else {
            let e = scan_atom(s, j);
            if e == j {
                Option::None
            } else {
                match classify_atom(s.subrange(j, e)) {
                    Option::Some(v) => Option::Some(ParsedForm { val: v, next: e }),
                    Option::None => Option::None,
                }
            }
        }
    }
}

/// Read list elements up to and past the closing parenthesis.
pub open spec fn parse_items_m(s: Seq<char>, i: int, fuel: nat) -> Option<ParsedItems>
    decreases fuel,
{
    if fuel == 0 {
        Option::None
    } else {
        let j = skip_ws(s, i);
        if j >= s.len() {
            Option::None
        } else if s[j] == ')' {
            Option::Some(ParsedItems { items: Seq::empty(), next: j + 1 })
        } else {
            match parse_form_m(s, j, (fuel - 1) as nat) {
                Option::Some(pf) => match parse_items_m(s, pf.next, (fuel - 1) as nat) {
                    Option::Some(pi) => Option::Some(
                        ParsedItems { items: seq![pf.val] + pi.items, next: pi.next },
                    ),
                    Option::None => Option::None,
                },
                Option::None => Option::None,
            }
        }
    }
}

/// The fuel that lets the reader finish on a text of this length.
pub open spec fn parse_fuel(s: Seq<char>) -> nat {
    2 * s.len() + 4
}

/// What a whole source text denotes as a single form: the form, with
/// nothing but whitespace after it.
pub open spec fn parse_source_m(s: Seq<char>) -> Option<ValModel> {
    match parse_form_m(s, 0, parse_fuel(s)) {
        Option::Some(pf) => if skip_ws(s, pf.next) == s.len() {
            Option::Some(pf.val)
        } else {
            Option::None
        },
        Option::None => Option::None,
    }
}


/// Relies on `String::push`, which the standard library documents as
/// appending the given character to the end of the string.
pub assume_specification[ String::push ](s: &mut String, ch: char)
    ensures
        final(s)@ == old(s)@.push(ch),
;

/// The characters of a piece of text, in order.
fn str_chars(s: &str) -> (r: Vec<char>)
    ensures
        r@ == s@,
{
    broadcast use vstd::string::axiom_spec_iter, vstd::string::next_postcondition;

    let mut it = s.chars();
    let mut out: Vec<char> = Vec::new();
    loop
        invariant
            vstd::std_specs::iter::IteratorSpec::obeys_prophetic_iter_laws(&it),
            out@ + vstd::std_specs::iter::IteratorSpec::remaining(&it) == s@,
        ensures
            out@ == s@,
        decreases s@.len() - out@.len(),
    {
        let ghost it0 = it;
        match it.next() {
            Option::Some(c) => {
                proof {
                    assert(vstd::std_specs::iter::IteratorSpec::remaining(&it)
                        == vstd::std_specs::iter::IteratorSpec::remaining(&it0).drop_first());
                    assert(c == vstd::std_specs::iter::IteratorSpec::remaining(&it0)[0]);
                }
                out.push(c);
                proof {
                    assert(out@ + vstd::std_specs::iter::IteratorSpec::remaining(&it) =~= s@);
                }
            },
            Option::None => {
                proof {
                    assert(out@ =~= s@);
                }
                break;
            },
        }
    }
    out
}

/// The text between two character positions, as an owned string.
fn string_from_chars(chars: &Vec<char>, start: usize, end: usize) -> (r: String)
    requires
        start <= end <= chars@.len(),
    ensures
        r@ == chars@.subrange(start as int, end as int),
{
    let mut out = String::new();
    let mut i = start;
    while i < end
        invariant
            start <= i <= end,
            end <= chars@.len(),
            out@ == chars@.subrange(start as int, i as int),
        decreases end - i,
    {
        out.push(chars[i]);
        proof {
            assert(chars@.subrange(start as int, i as int + 1) =~= chars@.subrange(
                start as int,
                i as int,
            ).push(chars@[i as int]));
        }
        i += 1;
    }
    out
}

/// The first non-whitespace position at or after `i`.
fn skip_ws_x(chars: &Vec<char>, i: usize) -> (r: usize)
    requires
        i <= chars@.len(),
    ensures
        r == skip_ws(chars@, i as int),
        i <= r <= chars@.len(),
    decreases chars@.len() - i,
{
    if i < chars.len() {
        let c = chars[i];
        if c == ' ' || c == '\n' || c == '\t' || c == '\r' {
            return skip_ws_x(chars, i + 1);
        }
    }
    i
}

/// The end of the atom starting at `i`.
fn scan_atom_x(chars: &Vec<char>, i: usize) -> (r: usize)
    requires
        i <= chars@.len(),
    ensures
        r == scan_atom(chars@, i as int),
        i <= r <= chars@.len(),
    decreases chars@.len() - i,
{
    if i < chars.len() {
        let c = chars[i];
        let delim = c == ' ' || c == '\n' || c == '\t' || c == '\r' || c == '(' || c == ')'
            || c == '\'' || c == '"';
        if !delim {
            return scan_atom_x(chars, i + 1);
        }
    }
    i
}

/// The closing quote position for a string body starting at `i`.
fn scan_string_x(chars: &Vec<char>, i: usize) -> (r: Option<usize>)
    requires
        i <= chars@.len(),
    ensures
        (match r {
            Option::Some(e) => scan_string(chars@, i as int) == Option::Some(e as int) && i <= e
                < chars@.len(),
            Option::None => scan_string(chars@, i as int) is None,
        }),
    decreases chars@.len() - i,
{
    if i >= chars.len() {
        None
    } else if chars[i] == '"' {
        Some(i)
    } else {
        scan_string_x(chars, i + 1)
    }
}

/// Whether every character in the range is a decimal digit.
fn all_digits_x(chars: &Vec<char>, start: usize, end: usize) -> (r: bool)
    requires
        start <= end <= chars@.len(),
    ensures
        r == all_digits(chars@.subrange(start as int, end as int)),
{
    let ghost text = chars@.subrange(start as int, end as int);
    let mut i = start;
    while i < end
        invariant
            start <= i <= end,
            end <= chars@.len(),
            text == chars@.subrange(start as int, end as int),
            forall|j: int| 0 <= j < i - start ==> is_digit_c(#[trigger] text[j]),
        decreases end - i,
    {
        let c = chars[i];
        if !('0' <= c && c <= '9') {
            proof {
                assert(text[i - start] == c);
            }
            return false;
        }
        i += 1;
    }
    true
}

/// The numeric value of a digit range, if it does not exceed `2^63`.
fn digits_value_x(chars: &Vec<char>, start: usize, end: usize) -> (r: Option<u64>)
    requires
        start <= end <= chars@.len(),
        all_digits(chars@.subrange(start as int, end as int)),
    ensures
        ({
            let text = chars@.subrange(start as int, end as int);
            match r {
                Option::Some(v) => v as nat == digits_val(text) && digits_val(text)
                    <= 0x8000_0000_0000_0000 as nat,
                Option::None => digits_val(text) > 0x8000_0000_0000_0000 as nat,
            }
        }),
{
    let ghost text = chars@.subrange(start as int, end as int);
    let mut acc: u128 = 0;
    let mut over = false;
    let mut i = start;
    proof {
        assert(text.subrange(0, 0) =~= Seq::<char>::empty());
    }
    while i < end
        invariant
            start <= i <= end,
            end <= chars@.len(),
            text == chars@.subrange(start as int, end as int),
            all_digits(text),
            !over ==> acc as nat == digits_val(text.subrange(0, i - start)) && acc
                <= 0x8000_0000_0000_0000u128,
            over ==> digits_val(text.subrange(0, i - start)) > 0x8000_0000_0000_0000 as nat,
        decreases end - i,
    {
        let c = chars[i];
        proof {
            assert(text[i - start] == c);
            assert(is_digit_c(text[i - start]));
            assert(text.subrange(0, i - start + 1).drop_last() =~= text.subrange(0, i - start));
            assert(text.subrange(0, i - start + 1).last() == text[i - start]);
        }
        let d: u128 = (c as u32 as u128) - ('0' as u32 as u128);
        if !over {
            let next = acc * 10 + d;
            if next > 0x8000_0000_0000_0000u128 {
                over = true;
            } else {
                acc = next;
            }
        } else {
            proof {
                let pref = text.subrange(0, i - start);
                let pref2 = text.subrange(0, i - start + 1);
                assert(digits_val(pref2) == digits_val(pref) * 10 + (text[i - start] as int - '0'
                    as int));
                assert(digits_val(pref) * 10 >= digits_val(pref)) by (nonlinear_arith)
                    requires digits_val(pref) >= 0;
            }
        }
        i += 1;
    }
    proof {
        assert(text.subrange(0, end - start) =~= text);
    }
    if over {
        None
    } else {
        Some(acc as u64)
    }
}

/// Whether the range spells a float literal.
fn is_float_x(chars: &Vec<char>, start: usize, end: usize) -> (r: bool)
    requires
        start < end <= chars@.len(),
    ensures
        r == is_float_text(chars@.subrange(start as int, end as int)),
{
    let ghost text = chars@.subrange(start as int, end as int);
    let minus = chars[start] == '-';
    let s0 = if minus {
        start + 1
    } else {
        start
    };
    proof {
        assert(text[0] == chars@[start as int]);
        assert(float_off(text) == s0 - start);
    }
    if end - s0 < 2 {
        return false;
    }
    let mut dots: usize = 0;
    let mut ok = true;
    let mut i = s0;
    proof {
        assert(text.subrange(s0 - start, s0 - start) =~= Seq::<char>::empty());
    }
    while i < end
        invariant
            s0 <= i <= end,
            start <= s0 <= start + 1,
            start < end <= chars@.len(),
            text == chars@.subrange(start as int, end as int),
            float_off(text) == s0 - start,
            dots <= i - s0,
            dots as nat == count_dots(text.subrange(s0 - start, i - start)),
            ok == (forall|j: int| s0 - start <= j < i - start ==> is_digit_c(#[trigger] text[j])
                || text[j] == '.'),
        decreases end - i,
    {
        let c = chars[i];
        proof {
            assert(text[i - start] == c);
            assert(text.subrange(s0 - start, i - start + 1).drop_last() =~= text.subrange(
                s0 - start,
                i - start,
            ));
            assert(text.subrange(s0 - start, i - start + 1).last() == text[i - start]);
        }
        let digit = '0' <= c && c <= '9';
        if c == '.' {
            dots += 1;
        } else if !digit {
            ok = false;
        }
        proof {
            if ok {
                assert forall|j: int| s0 - start <= j < i - start + 1 implies is_digit_c(
                    #[trigger] text[j],
                ) || text[j] == '.' by {
                }
            } else {
                assert(!(forall|j: int|
                    s0 - start <= j < i - start + 1 ==> is_digit_c(#[trigger] text[j]) || text[j]
                        == '.')) by {
                    if forall|j: int|
                        s0 - start <= j < i - start + 1 ==> is_digit_c(#[trigger] text[j])
                            || text[j] == '.' {
                        assert(forall|j: int|
                            s0 - start <= j < i - start ==> is_digit_c(#[trigger] text[j])
                                || text[j] == '.');
                        assert(is_digit_c(text[i - start]) || text[i - start] == '.');
                    }
                }
            }
        }
        i += 1;
    }
    proof {
        assert(text.subrange(s0 - start, end - start) =~= text.subrange(
            float_off(text),
            text.len() as int,
        ));
        assert(is_float_text(text) == (ok && dots == 1));
    }
    ok && dots == 1
}
/// Build the value an atom's text denotes, if any.
fn classify_x(chars: &Vec<char>, start: usize, end: usize) -> (r: Option<Value>)
    requires
        start < end <= chars@.len(),
    ensures
        ({
            let text = chars@.subrange(start as int, end as int);
            match r {
                Option::Some(v) => classify_atom(text) == Option::Some(v@) && v.wf(),
                Option::None => classify_atom(text) is None,
            }
        }),
{
    let ghost text = chars@.subrange(start as int, end as int);
    let n = end - start;
    if n == 1 && chars[start] == 't' {
        proof {
            assert(text =~= seq!['t']);
        }
        return Some(Value::T);
    }
    proof {
        assert(text != seq!['t']) by {
            if text == seq!['t'] {
                assert(text.len() == 1 && text[0] == 't');
                assert(chars@[start as int] == text[0]);
            }
        }
    }
    if n == 3 && chars[start] == 'n' && chars[start + 1] == 'i' && chars[start + 2] == 'l' {
        proof {
            assert(text =~= seq!['n', 'i', 'l']);
        }
        return Some(Value::Nil);
    }
    proof {
        assert(text != seq!['n', 'i', 'l']) by {
            if text == seq!['n', 'i', 'l'] {
                assert(text.len() == 3);
                assert(chars@[start as int] == text[0]);
                assert(chars@[start as int + 1] == text[1]);
                assert(chars@[start as int + 2] == text[2]);
            }
        }
    }
    if all_digits_x(chars, start, end) {
        match digits_value_x(chars, start, end) {
            Option::Some(v) => {
                if v <= 0xFFFF_FFFFu64 {
                    return Some(Value::UnsignedInteger(v as u32));
                } else if v <= 0x7FFF_FFFF_FFFF_FFFFu64 {
                    return Some(Value::Integer(v as i64));
                } else {
                    return None;
                }
            },
            Option::None => {
                return None;
            },
        }
    }
    proof {
        if n >= 2 {
            assert(text.subrange(1, text.len() as int) =~= chars@.subrange(
                start as int + 1,
                end as int,
            ));
        }
    }
    if n >= 2 && chars[start] == '-' && all_digits_x(chars, start + 1, end) {
        match digits_value_x(chars, start + 1, end) {
            Option::Some(v) => {
                let val: i64 = if v == 0x8000_0000_0000_0000u64 {
                    i64::MIN
                } else {
                    (0i64 - (v as i64))
                };
                return Some(Value::Integer(val));
            },
            Option::None => {
                return None;
            },
        }
    }
    if is_float_x(chars, start, end) {
        let txt = string_from_chars(chars, start, end);
        return Some(Value::Float(txt));
    }
    let txt = string_from_chars(chars, start, end);
    let sym = Symbol::new(txt.as_str());
    Some(Value::Symbol(sym))
}

/// The source position of a character index, counting lines and columns
/// from one.
fn pos_at(chars: &Vec<char>, idx: usize) -> (r: NodePosition)
    requires
        idx <= chars@.len(),
    ensures
        r.line >= 1,
        r.column >= 1,
{
    let mut line: usize = 1;
    let mut column: usize = 1;
    let mut i: usize = 0;
    while i < idx
        invariant
            i <= idx <= chars@.len(),
            line >= 1,
            column >= 1,
        decreases idx - i,
    {
        if chars[i] == '\n' {
            if line < usize::MAX {
                line += 1;
            }
            column = 1;
        } else {
            if column < usize::MAX {
                column += 1;
            }
        }
        i += 1;
    }
    NodePosition { line, column }
}

/// An error pointing at one character position.
fn err_at(chars: &Vec<char>, idx: usize, message: &str) -> (r: ParseError)
    requires
        idx <= chars@.len(),
{
    let p = pos_at(chars, idx);
    ParseError { message: message.to_owned(), start: p, end: p }
}

/// Read one form starting at `i`.
fn parse_form_at(chars: &Vec<char>, i: usize, fuel: u64) -> (r: Result<(Value, usize), ParseError>)
    requires
        i <= chars@.len(),
    ensures
        (match r {
            Result::Ok(p) => parse_form_m(chars@, i as int, fuel as nat) == Option::Some(
                ParsedForm { val: p.0@, next: p.1 as int },
            ) && p.0.wf() && p.1 <= chars@.len(),
            Result::Err(_) => parse_form_m(chars@, i as int, fuel as nat) is None,
        }),
    decreases fuel,
{
    if fuel == 0 {
        return Err(err_at(chars, i, "expression is nested too deeply"));
    }
    let j = skip_ws_x(chars, i);
    if j >= chars.len() {
        return Err(err_at(chars, j, "unexpected end of input"));
    }
    let c = chars[j];
    if c == '(' {
        match parse_items_at(chars, j + 1, fuel - 1) {
            Result::Ok((items, next)) => Ok((Value::List(Cell::from_values(items)), next)),
            Result::Err(e) => Err(e),
        }
    } else if c == '\'' {
        if j + 1 < chars.len() && chars[j + 1] == '(' {
            match parse_items_at(chars, j + 2, fuel - 1) {
                Result::Ok((items, next)) => {
                    let prefixed = crate::value::vec_with_prefix(Value::symbol("quote"), &items);
                    proof {
                        reveal_strlit("quote");
                        assert("quote"@ =~= seq!['q', 'u', 'o', 't', 'e']);
                    }
                    Ok((Value::List(Cell::from_values(prefixed)), next))
                },
                Result::Err(e) => Err(e),
            }
        } else {
            let e = scan_atom_x(chars, j + 1);
            if e == j + 1 {
                return Err(err_at(chars, j, "nothing to quote"));
            }
            match classify_x(chars, j + 1, e) {
                Option::Some(v) => match v {
                    Value::Symbol(s) => Ok((Value::QuotedSymbol(s.quote()), e)),
                    _ => Err(err_at(chars, j, "only symbols and lists can be quoted")),
                },
                Option::None => Err(err_at(chars, j, "number is out of range")),
            }
        }
    } else if c == ')' {
        Err(err_at(chars, j, "unexpected closing parenthesis"))
    } else if c == '"' {
        match scan_string_x(chars, j + 1) {
            Option::Some(e) => {
                let text = string_from_chars(chars, j + 1, e);
                Ok((Value::Str(text), e + 1))
            },
            Option::None => Err(err_at(chars, j, "unterminated string literal")),
        }
    } else {
        let e = scan_atom_x(chars, j);
        if e == j {
            return Err(err_at(chars, j, "unexpected character"));
        }
        match classify_x(chars, j, e) {
            Option::Some(v) => Ok((v, e)),
            Option::None => Err(err_at(chars, j, "number is out of range")),
        }
    }
}

/// Read list elements up to and past the closing parenthesis.
fn parse_items_at(chars: &Vec<char>, i: usize, fuel: u64) -> (r: Result<
    (Vec<Value>, usize),
    ParseError,
>)
    requires
        i <= chars@.len(),
    ensures
        (match r {
            Result::Ok(p) => parse_items_m(chars@, i as int, fuel as nat) == Option::Some(
                ParsedItems { items: Value::seq_view(p.0@), next: p.1 as int },
            ) && Value::seq_wf(p.0@) && p.1 <= chars@.len(),
            Result::Err(_) => parse_items_m(chars@, i as int, fuel as nat) is None,
        }),
    decreases fuel,
{
    if fuel == 0 {
        return Err(err_at(chars, i, "expression is nested too deeply"));
    }
    let j = skip_ws_x(chars, i);
    if j >= chars.len() {
        return Err(err_at(chars, j, "missing closing parenthesis"));
    }
    if chars[j] == ')' {
        let empty: Vec<Value> = Vec::new();
        proof {
            assert(Value::seq_view(empty@) =~= Seq::<ValModel>::empty());
        }
        return Ok((empty, j + 1));
    }
    let (head, next) = match parse_form_at(chars, j, fuel - 1) {
        Result::Ok(p) => p,
        Result::Err(e) => {
            return Err(e);
        },
    };
    match parse_items_at(chars, next, fuel - 1) {
        Result::Ok((rest, after)) => {
            let out = crate::value::vec_with_prefix(head, &rest);
            Ok((out, after))
        },
        Result::Err(e) => Err(e),
    }
}

/// Read a whole source text as one form; only whitespace may follow it.
pub fn parse(source: &str) -> (r: Result<Value, ParseError>)
    requires
        source@.len() < 0x1000_0000_0000_0000,
    ensures
        (match r {
            Result::Ok(v) => parse_source_m(source@) == Option::Some(v@) && v.wf(),
            Result::Err(_) => parse_source_m(source@) is None,
        }),
{
    let chars = str_chars(source);
    let fuel: u64 = 2 * (chars.len() as u64) + 4;
    match parse_form_at(&chars, 0, fuel) {
        Result::Ok((v, next)) => {
            let j = skip_ws_x(&chars, next);
            if j == chars.len() {
                Ok(v)
            } else {
                Err(err_at(&chars, j, "unexpected text after the expression"))
            }
        },
        Result::Err(e) => Err(e),
    }
}

/// Read a whole source text as one form: the reader's entry point.
pub fn parse_source(source: &str) -> (r: Result<Value, ParseError>)
    requires
        source@.len() < 0x1000_0000_0000_0000,
    ensures
        (match r {
            Result::Ok(v) => parse_source_m(source@) == Option::Some(v@) && v.wf(),
            Result::Err(_) => parse_source_m(source@) is None,
        }),
{
    parse(source)
}

} // verus!
