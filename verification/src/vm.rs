//! The evaluator: one evaluation frame (`Context`) and the top-level façade
//! (`VirtualMachine`).
//!
//! Evaluation classifies a value: self-evaluating atoms and quoted forms
//! return as-is, symbols resolve through the table, and lists dispatch their
//! head symbol to a native or user-defined function.  A user-defined call
//! binds its arguments into a fresh local scope layered over the caller's
//! state; local bindings never leak back, global bindings do.
//!
//! The whole semantics is stated as a recursive specification interpreter
//! over the models (`eval_m` and friends); every executable method is proved
//! to compute exactly what the specification says.  Recursion depth is
//! bounded by an explicit fuel; running out is a runtime error.

use vstd::prelude::*;

use crate::errors::{ErrorKind, RuntimeError};
use crate::sym::Symbol;
use crate::table::{BindModel, FunModel, Function, NativeOp, Sym, SymbolTable, TableModel};
use crate::value::{Cell, ValModel, Value};

verus! {

broadcast use crate::value::lemma_view_cases, crate::value::lemma_wf_cases,
    crate::value::lemma_seq_view_len, crate::value::lemma_seq_view_index;

/// The depth limit of one top-level evaluation.
pub const EVAL_DEPTH: u64 = 300;

/// Mathematical model of one evaluation frame: the binding store and the
/// values recorded by `print`.
pub ghost struct EnvModel {
    pub table: TableModel,
    pub output: Seq<ValModel>,
}

/// The outcome of evaluating one form: the updated frame and the value or
/// error kind produced.
pub ghost struct StepModel {
    pub env: EnvModel,
    pub res: Result<ValModel, ErrorKind>,
}

/// The outcome of evaluating a row of forms in order.
pub ghost struct ManyModel {
    pub env: EnvModel,
    pub res: Result<Seq<ValModel>, ErrorKind>,
}

/// A successful step.
pub open spec fn step_ok(env: EnvModel, v: ValModel) -> StepModel {
    StepModel { env, res: Result::Ok(v) }
}

/// A failed step.
pub open spec fn step_err(env: EnvModel, e: ErrorKind) -> StepModel {
    StepModel { env, res: Result::Err(e) }
}

/// The frame after auto-declaring an unbound symbol as a self-valued local.
pub open spec fn bind_self(env: EnvModel, name: Seq<char>) -> EnvModel {
    EnvModel {
        table: TableModel {
            globals: env.table.globals,
            locals: env.table.locals.insert(name, BindModel::Value(ValModel::Sym(name))),
        },
        output: env.output,
    }
}

/// The names of a parameter list: every parameter must be a symbol.
pub open spec fn param_names(s: Seq<ValModel>) -> Option<Seq<Seq<char>>>
    decreases s.len(),
{
    if s.len() == 0 {
        Option::Some(Seq::empty())
    } else {
        match s[0] {
            ValModel::Sym(n) | ValModel::QSym(n) => match param_names(
                s.subrange(1, s.len() as int),
            ) {
                Option::Some(rest) => Option::Some(seq![n] + rest),
                Option::None => Option::None,
            },
            _ => Option::None,
        }
    }
}

/// Local bindings extended pairwise with evaluated arguments.
pub open spec fn bind_params(
    locals: Map<Seq<char>, BindModel>,
    names: Seq<Seq<char>>,
    vals: Seq<ValModel>,
) -> Map<Seq<char>, BindModel>
    decreases names.len(),
{
    if names.len() == 0 || vals.len() == 0 {
        locals
    } else {
        bind_params(
            locals.insert(names[0], BindModel::Value(vals[0])),
            names.subrange(1, names.len() as int),
            vals.subrange(1, vals.len() as int),
        )
    }
}

/// One arithmetic step on unsigned operands, `None` on overflow or division
/// by zero.
pub open spec fn apply_u32(op: NativeOp, a: u32, b: u32) -> Option<u32> {
    match op {
        NativeOp::Add => a.checked_add(b),
        NativeOp::Sub => a.checked_sub(b),
        NativeOp::Mul => a.checked_mul(b),
        _ => a.checked_div(b),
    }
}

/// One arithmetic step on signed operands.
pub open spec fn apply_i64(op: NativeOp, a: i64, b: i64) -> Option<i64> {
    match op {
        NativeOp::Add => a.checked_add(b),
        NativeOp::Sub => a.checked_sub(b),
        NativeOp::Mul => a.checked_mul(b),
        _ => a.checked_div(b),
    }
}

/// Fold the remaining operands into an unsigned accumulator: bytes promote
/// to unsigned integers, anything else is a type mismatch.
pub open spec fn fold_uint_m(acc: u32, s: Seq<ValModel>, op: NativeOp) -> Result<
    ValModel,
    ErrorKind,
>
    decreases s.len(),
{
    if s.len() == 0 {
        Result::Ok(ValModel::UInt(acc))
    } else {
        let operand = match s[0] {
            ValModel::Byte(b) => Option::Some(b as u32),
            ValModel::UInt(u) => Option::Some(u),
            _ => Option::None,
        };
        match operand {
            Option::None => Result::Err(ErrorKind::TypeMismatch),
            Option::Some(b) => match apply_u32(op, acc, b) {
                Option::None => Result::Err(ErrorKind::Arithmetic),
                Option::Some(acc2) => fold_uint_m(acc2, s.subrange(1, s.len() as int), op),
            },
        }
    }
}

/// Fold the remaining operands into a signed accumulator.
pub open spec fn fold_int_m(acc: i64, s: Seq<ValModel>, op: NativeOp) -> Result<
    ValModel,
    ErrorKind,
>
    decreases s.len(),
{
    if s.len() == 0 {
        Result::Ok(ValModel::Int(acc))
    } else {
        match s[0] {
            ValModel::Int(b) => match apply_i64(op, acc, b) {
                Option::None => Result::Err(ErrorKind::Arithmetic),
                Option::Some(acc2) => fold_int_m(acc2, s.subrange(1, s.len() as int), op),
            },
            _ => Result::Err(ErrorKind::TypeMismatch),
        }
    }
}

/// A float-first fold: the first later operand of another kind is a type
/// mismatch; an all-float fold is outside the core's scope.
pub open spec fn fold_flt_m(s: Seq<ValModel>) -> Result<ValModel, ErrorKind>
    decreases s.len(),
{
    if s.len() == 0 {
        Result::Err(ErrorKind::Unsupported)
    } else {
        match s[0] {
            ValModel::Flt(_) => fold_flt_m(s.subrange(1, s.len() as int)),
            _ => Result::Err(ErrorKind::TypeMismatch),
        }
    }
}

/// Fold resolved operands left to right, the first operand fixing the
/// numeric kind.
pub open spec fn fold_nums_m(s: Seq<ValModel>, op: NativeOp) -> Result<ValModel, ErrorKind> {
    if s.len() == 0 {
        Result::Err(ErrorKind::ArityMismatch)
    } else {
        match s[0] {
            ValModel::Byte(b) => fold_uint_m(b as u32, s.subrange(1, s.len() as int), op),
            ValModel::UInt(u) => fold_uint_m(u, s.subrange(1, s.len() as int), op),
            ValModel::Int(i) => fold_int_m(i, s.subrange(1, s.len() as int), op),
            ValModel::Flt(_) => fold_flt_m(s.subrange(1, s.len() as int)),
            _ => Result::Err(ErrorKind::TypeMismatch),
        }
    }
}

/// Whether a form can stand as an arithmetic operand at all: numbers stand
/// for themselves, symbols and lists are evaluated first, anything else is
/// rejected outright.
pub open spec fn operand_form(v: ValModel) -> bool {
    match v {
        ValModel::Byte(_) | ValModel::UInt(_) | ValModel::Int(_) | ValModel::Flt(_)
            | ValModel::Sym(_) | ValModel::QSym(_) | ValModel::List(_)
            | ValModel::QList(_) => true,
        _ => false,
    }
}

/// The operand an unsigned fold rejects: the first element of the tail that
/// is neither a byte nor an unsigned integer, reached without an earlier
/// arithmetic failure.
pub open spec fn uint_reject_m(acc: u32, s: Seq<ValModel>, op: NativeOp) -> Option<ValModel>
    decreases s.len(),
{
    if s.len() == 0 {
        Option::None
    } else {
        let operand = match s[0] {
            ValModel::Byte(b) => Option::Some(b as u32),
            ValModel::UInt(u) => Option::Some(u),
            _ => Option::None,
        };
        match operand {
            Option::None => Option::Some(s[0]),
            Option::Some(b) => match apply_u32(op, acc, b) {
                Option::None => Option::None,
                Option::Some(acc2) => uint_reject_m(acc2, s.subrange(1, s.len() as int), op),
            },
        }
    }
}

/// The operand a signed fold rejects.
pub open spec fn int_reject_m(acc: i64, s: Seq<ValModel>, op: NativeOp) -> Option<ValModel>
    decreases s.len(),
{
    if s.len() == 0 {
        Option::None
    } else {
        match s[0] {
            ValModel::Int(b) => match apply_i64(op, acc, b) {
                Option::None => Option::None,
                Option::Some(acc2) => int_reject_m(acc2, s.subrange(1, s.len() as int), op),
            },
            _ => Option::Some(s[0]),
        }
    }
}

/// The operand a float-first fold rejects: the first later non-float.
pub open spec fn flt_reject_m(s: Seq<ValModel>) -> Option<ValModel>
    decreases s.len(),
{
    if s.len() == 0 {
        Option::None
    } else {
        match s[0] {
            ValModel::Flt(_) => flt_reject_m(s.subrange(1, s.len() as int)),
            _ => Option::Some(s[0]),
        }
    }
}

/// The message an arithmetic fold over resolved operands fails with when an
/// operand has the wrong kind: the offending operand is named by its
/// display text.  `None` when the fold fails for another reason, or
/// succeeds.
pub open spec fn arith_mismatch_msg_m(s: Seq<ValModel>, op: NativeOp) -> Option<Seq<char>> {
    if s.len() == 0 {
        Option::None
    } else {
        let tail = s.subrange(1, s.len() as int);
        let rejected = match s[0] {
            ValModel::Byte(b) => uint_reject_m(b as u32, tail, op),
            ValModel::UInt(u) => uint_reject_m(u, tail, op),
            ValModel::Int(i) => int_reject_m(i, tail, op),
            ValModel::Flt(_) => flt_reject_m(tail),
            _ => Option::None,
        };
        match s[0] {
            ValModel::Byte(_) | ValModel::UInt(_) | ValModel::Int(_) | ValModel::Flt(_) => match rejected {
                Option::Some(c) => Option::Some(
                    "mixed numeric kinds in arithmetic: "@ + crate::value::display_of(c),
                ),
                Option::None => Option::None,
            },
            _ => Option::Some(
                "arithmetic on a non-numeric value: "@ + crate::value::display_of(s[0]),
            ),
        }
    }
}

/// Evaluate one form.
pub open spec fn eval_m(env: EnvModel, v: ValModel, fuel: nat) -> StepModel
    decreases fuel, 5int, 0int,
{
    if fuel == 0 {
        step_err(env, ErrorKind::RecursionLimit)
    } else if v.quoted_form() {
        step_ok(env, v)
    } else {
        match v {
            ValModel::List(s) => eval_list_m(env, s, fuel),
            ValModel::Sym(n) => eval_symbol_m(env, n, ValModel::Nil, fuel),
            _ => step_ok(env, v),
        }
    }
}

/// Evaluate a non-empty, unquoted list form: a symbol head dispatches to
/// function application, a list head normalizes every element, anything
/// else returns the list unchanged.
pub open spec fn eval_list_m(env: EnvModel, s: Seq<ValModel>, fuel: nat) -> StepModel
    decreases fuel, 4int, 0int,
{
    if fuel == 0 {
        step_err(env, ErrorKind::RecursionLimit)
    } else if s.len() == 0 {
        step_ok(env, ValModel::Nil)
    } else {
        match s[0] {
            ValModel::Sym(n) | ValModel::QSym(n) => eval_symbol_function_m(
                env,
                n,
                ValModel::List(s).cdr_m(),
                fuel,
            ),
            ValModel::List(_) | ValModel::QList(_) => {
                let m = eval_each_m(env, s, fuel);
                match m.res {
                    Result::Ok(vals) => step_ok(m.env, ValModel::List(vals)),
                    Result::Err(e) => step_err(m.env, e),
                }
            },
            _ => step_ok(env, ValModel::List(s)),
        }
    }
}

/// Evaluate a bare symbol: a plain binding returns its value, a function
/// binding is invoked with the argument tail, a miss auto-declares the
/// symbol as a self-valued local and returns the symbol itself.
pub open spec fn eval_symbol_m(env: EnvModel, n: Seq<char>, args: ValModel, fuel: nat) -> StepModel
    decreases fuel, 3int, 0int,
{
    if fuel == 0 {
        step_err(env, ErrorKind::RecursionLimit)
    } else {
        match env.table.lookup(n) {
            Option::Some(BindModel::Value(b)) => step_ok(env, b),
            Option::Some(BindModel::Function(f)) => call_m(env, f, args, fuel),
            Option::None => step_ok(bind_self(env, n), ValModel::Sym(n)),
        }
    }
}

/// Evaluate a list whose head is a symbol: a function binding is applied to
/// the raw argument list; a head bound to a plain value, or unbound, makes
/// the whole list data, and every element is evaluated independently and
/// the list rebuilt.
pub open spec fn eval_symbol_function_m(
    env: EnvModel,
    n: Seq<char>,
    args: ValModel,
    fuel: nat,
) -> StepModel
    decreases fuel, 3int, 1int,
{
    if fuel == 0 {
        step_err(env, ErrorKind::RecursionLimit)
    } else {
        match env.table.lookup(n) {
            Option::Some(BindModel::Function(f)) => call_m(env, f, args, fuel),
            Option::Some(BindModel::Value(_)) => {
                let m = eval_each_m(env, seq![ValModel::Sym(n)] + args.elems(), fuel);
                match m.res {
                    Result::Ok(vals) => step_ok(m.env, ValModel::List(vals)),
                    Result::Err(e) => step_err(m.env, e),
                }
            },
            Option::None => {
                let m = eval_each_m(
                    bind_self(env, n),
                    seq![ValModel::Sym(n)] + args.elems(),
                    fuel,
                );
                match m.res {
                    Result::Ok(vals) => step_ok(m.env, ValModel::List(vals)),
                    Result::Err(e) => step_err(m.env, e),
                }
            },
        }
    }
}

/// Apply a callable to the raw argument list.  A user-defined call checks
/// arity exactly, evaluates the arguments left to right, binds them into a
/// fresh local scope, runs the body forms in order and returns the last
/// one's value; the caller's local scope is restored afterwards, while
/// global mutations persist.
pub open spec fn call_m(env: EnvModel, f: FunModel, args: ValModel, fuel: nat) -> StepModel
    decreases fuel, 2int, 0int,
{
    if fuel == 0 {
        step_err(env, ErrorKind::RecursionLimit)
    } else {
        match f {
            FunModel::Builtin { name: _, op } => native_m(env, op, args, fuel),
            FunModel::Defun { name: _, args: params, body } => {
                if params.elems().len() != args.elems().len() {
                    step_err(env, ErrorKind::ArityMismatch)
                } else {
                    let m = eval_each_m(env, args.elems(), fuel);
                    match m.res {
                        Result::Err(e) => step_err(m.env, e),
                        Result::Ok(vals) => match param_names(params.elems()) {
                            Option::None => step_err(m.env, ErrorKind::TypeMismatch),
                            Option::Some(names) => {
                                let child = EnvModel {
                                    table: TableModel {
                                        globals: m.env.table.globals,
                                        locals: bind_params(m.env.table.locals, names, vals),
                                    },
                                    output: m.env.output,
                                };
                                let st = eval_seq_m(child, body.elems(), fuel);
                                StepModel {
                                    env: EnvModel {
                                        table: TableModel {
                                            globals: st.env.table.globals,
                                            locals: m.env.table.locals,
                                        },
                                        output: st.env.output,
                                    },
                                    res: st.res,
                                }
                            },
                        },
                    }
                }
            },
        }
    }
}

/// Evaluate a row of forms left to right, collecting the values.
pub open spec fn eval_each_m(env: EnvModel, s: Seq<ValModel>, fuel: nat) -> ManyModel
    decreases fuel, 0int, s.len(),
{
    if s.len() == 0 {
        ManyModel { env, res: Result::Ok(Seq::empty()) }
    } else if fuel == 0 {
        ManyModel { env, res: Result::Err(ErrorKind::RecursionLimit) }
    } else {
        let st = eval_m(env, s[0], (fuel - 1) as nat);
        match st.res {
            Result::Err(e) => ManyModel { env: st.env, res: Result::Err(e) },
            Result::Ok(v) => {
                let rest = eval_each_m(st.env, s.subrange(1, s.len() as int), fuel);
                match rest.res {
                    Result::Err(e) => rest,
                    Result::Ok(vs) => ManyModel { env: rest.env, res: Result::Ok(seq![v] + vs) },
                }
            },
        }
    }
}

/// Evaluate a row of forms left to right as an implicit sequence: the last
/// form's value is the result, `Nil` for an empty row.
pub open spec fn eval_seq_m(env: EnvModel, s: Seq<ValModel>, fuel: nat) -> StepModel
    decreases fuel, 1int, s.len(),
{
    if s.len() == 0 {
        step_ok(env, ValModel::Nil)
    } else if fuel == 0 {
        step_err(env, ErrorKind::RecursionLimit)
    } else {
        let st = eval_m(env, s[0], (fuel - 1) as nat);
        match st.res {
            Result::Err(e) => st,
            Result::Ok(v) => if s.len() == 1 {
                st
            } else {
                eval_seq_m(st.env, s.subrange(1, s.len() as int), fuel)
            },
        }
    }
}

/// Resolve arithmetic operands: numbers stand for themselves, symbols and
/// lists are evaluated first, anything else is a type mismatch.
pub open spec fn eval_operands_m(env: EnvModel, s: Seq<ValModel>, fuel: nat) -> ManyModel
    decreases fuel, 0int, s.len(),
{
    if s.len() == 0 {
        ManyModel { env, res: Result::Ok(Seq::empty()) }
    } else if fuel == 0 {
        ManyModel { env, res: Result::Err(ErrorKind::RecursionLimit) }
    } else {
        let st = match s[0] {
            ValModel::Byte(_) | ValModel::UInt(_) | ValModel::Int(_) | ValModel::Flt(_) => step_ok(
                env,
                s[0],
            ),
            ValModel::Sym(_) | ValModel::QSym(_) | ValModel::List(_) | ValModel::QList(_) => eval_m(
                env,
                s[0],
                (fuel - 1) as nat,
            ),
            _ => step_err(env, ErrorKind::TypeMismatch),
        };
        match st.res {
            Result::Err(e) => ManyModel { env: st.env, res: Result::Err(e) },
            Result::Ok(v) => {
                let rest = eval_operands_m(st.env, s.subrange(1, s.len() as int), fuel);
                match rest.res {
                    Result::Err(e) => rest,
                    Result::Ok(vs) => ManyModel { env: rest.env, res: Result::Ok(seq![v] + vs) },
                }
            },
        }
    }
}

/// Bind `setq` name/value pairs left to right into the globals; the last
/// bound value is the result, `Nil` when there are no pairs.
pub open spec fn setq_m(env: EnvModel, s: Seq<ValModel>, fuel: nat) -> StepModel
    decreases fuel, 0int, s.len(),
{
    if s.len() == 0 {
        step_ok(env, ValModel::Nil)
    } else if fuel == 0 {
        step_err(env, ErrorKind::RecursionLimit)
    } else {
        match s[0] {
            ValModel::Sym(n) | ValModel::QSym(n) => {
                let st = eval_m(env, s[1], (fuel - 1) as nat);
                match st.res {
                    Result::Err(e) => st,
                    Result::Ok(v) => {
                        let env2 = EnvModel {
                            table: TableModel {
                                globals: st.env.table.globals.insert(n, BindModel::Value(v)),
                                locals: st.env.table.locals,
                            },
                            output: st.env.output,
                        };
                        if s.len() <= 2 {
                            step_ok(env2, v)
                        } else {
                            setq_m(env2, s.subrange(2, s.len() as int), fuel)
                        }
                    },
                }
            },
            _ => step_err(env, ErrorKind::TypeMismatch),
        }
    }
}

/// Define a function: the first argument names it, the second is the
/// parameter list, the remaining forms are the body.  The binding is
/// recorded globally and returned read back as data.
pub open spec fn defun_m(env: EnvModel, s: Seq<ValModel>) -> StepModel {
    if s.len() == 0 {
        step_err(env, ErrorKind::TypeMismatch)
    } else {
        match s[0] {
            ValModel::Sym(n) | ValModel::QSym(n) => {
                let params = if s.len() >= 2 {
                    s[1]
                } else {
                    ValModel::Nil
                };
                let body = if s.len() > 2 {
                    ValModel::List(s.subrange(2, s.len() as int))
                } else {
                    ValModel::Nil
                };
                let f = FunModel::Defun { name: n, args: params, body };
                let env2 = EnvModel {
                    table: TableModel {
                        globals: env.table.globals.insert(n, BindModel::Function(f)),
                        locals: env.table.locals,
                    },
                    output: env.output,
                };
                step_ok(env2, BindModel::Function(f).as_value_m())
            },
            _ => step_err(env, ErrorKind::TypeMismatch),
        }
    }
}

/// Apply a native operation to the raw argument list.
pub open spec fn native_m(env: EnvModel, op: NativeOp, args: ValModel, fuel: nat) -> StepModel
    decreases fuel, 1int, 0int,
{
    if fuel == 0 {
        step_err(env, ErrorKind::RecursionLimit)
    } else {
        match op {
            NativeOp::T => step_ok(env, ValModel::T),
            NativeOp::Backquote => step_ok(env, args),
            NativeOp::Quote => match args {
                ValModel::List(s) => step_ok(env, ValModel::QList(s)),
                ValModel::QList(s) => step_ok(env, ValModel::QList(s)),
                _ => step_err(env, ErrorKind::TypeMismatch),
            },
            NativeOp::Car => step_ok(env, args.car_m().car_m()),
            NativeOp::Cdr => step_ok(env, args.car_m().cdr_m()),
            NativeOp::Cons => {
                let items = args.car_m().as_cell_m() + args.cdr_m().as_cell_m();
                if args.car_m().quoted_form() {
                    step_ok(env, ValModel::QList(items))
                } else {
                    step_ok(env, ValModel::List(items))
                }
            },
            NativeOp::List => step_ok(env, ValModel::List(args.elems())),
            NativeOp::Append => step_ok(env, ValModel::List(ValModel::flatten_m(args.elems()))),
            NativeOp::Print => StepModel {
                env: EnvModel { table: env.table, output: env.output.push(args) },
                res: Result::Ok(args),
            },
            NativeOp::Setq => if args.elems().len() % 2 != 0 {
                step_err(env, ErrorKind::MalformedForm)
            } else {
                setq_m(env, args.elems(), fuel)
            },
            NativeOp::Defun => defun_m(env, args.elems()),
            NativeOp::Add | NativeOp::Sub | NativeOp::Mul | NativeOp::Div => {
                if args.elems().len() < 2 {
                    step_err(env, ErrorKind::ArityMismatch)
                } else {
                    let m = eval_operands_m(env, args.elems(), fuel);
                    match m.res {
                        Result::Err(e) => step_err(m.env, e),
                        Result::Ok(vals) => StepModel { env: m.env, res: fold_nums_m(vals, op) },
                    }
                }
            },
        }
    }
}

/// Evaluating a row successfully yields exactly one value per form.
pub proof fn lemma_eval_each_len(env: EnvModel, s: Seq<ValModel>, fuel: nat)
    ensures
        (match eval_each_m(env, s, fuel).res {
            Result::Ok(vs) => vs.len() == s.len(),
            Result::Err(_) => true,
        }),
    decreases fuel, s.len(),
{
    if s.len() > 0 && fuel > 0 {
        let st = eval_m(env, s[0], (fuel - 1) as nat);
        match st.res {
            Result::Err(_) => {
            },
            Result::Ok(_) => {
                lemma_eval_each_len(st.env, s.subrange(1, s.len() as int), fuel);
            },
        }
    }
}

/// A parameter list containing a non-symbol yields no names.
pub proof fn lemma_param_names_none(s: Seq<ValModel>, i: int)
    requires
        0 <= i < s.len(),
        !(s[i] matches ValModel::Sym(_)),
        !(s[i] matches ValModel::QSym(_)),
    ensures
        param_names(s) is None,
    decreases s.len(),
{
    if i > 0 {
        lemma_param_names_none(s.subrange(1, s.len() as int), i - 1);
    }
}

/// A parameter list of symbols yields their names pointwise.
pub proof fn lemma_param_names_some(s: Seq<ValModel>)
    requires
        param_names(s) is Some,
    ensures
        param_names(s)->Some_0.len() == s.len(),
        forall|j: int| 0 <= j < s.len() ==> (match #[trigger] s[j] {
            ValModel::Sym(n) | ValModel::QSym(n) => param_names(s)->Some_0[j] == n,
            _ => false,
        }),
    decreases s.len(),
{
    if s.len() > 0 {
        let t = s.subrange(1, s.len() as int);
        lemma_param_names_some(t);
        assert forall|j: int| 0 <= j < s.len() implies (match #[trigger] s[j] {
            ValModel::Sym(n) | ValModel::QSym(n) => param_names(s)->Some_0[j] == n,
            _ => false,
        }) by {
            if j > 0 {
                assert(t[j - 1] == s[j]);
            }
        }
    }
}

/// A parameter list made of symbols yields names.
pub proof fn lemma_param_names_all_syms(s: Seq<ValModel>)
    requires
        forall|j: int| 0 <= j < s.len() ==> (match #[trigger] s[j] {
            ValModel::Sym(_) | ValModel::QSym(_) => true,
            _ => false,
        }),
    ensures
        param_names(s) is Some,
    decreases s.len(),
{
    if s.len() > 0 {
        let t = s.subrange(1, s.len() as int);
        assert forall|j: int| 0 <= j < t.len() implies (match #[trigger] t[j] {
            ValModel::Sym(_) | ValModel::QSym(_) => true,
            _ => false,
        }) by {
            assert(t[j] == s[j + 1]);
        }
        lemma_param_names_all_syms(t);
    }
}

/// The result side of a step matched against an executable result: the
/// specified outcome is exactly what the code returned, and returned values
/// are well-formed.
pub open spec fn res_matches(res: Result<ValModel, ErrorKind>, r: Result<Value, RuntimeError>) -> bool {
    match r {
        Result::Ok(v) => res == Result::<ValModel, ErrorKind>::Ok(v@) && v.wf(),
        Result::Err(e) => res == Result::<ValModel, ErrorKind>::Err(e@),
    }
}

/// A pure result (no frame involved) matched against an executable result.
pub open spec fn res_matches_pure(
    res: Result<ValModel, ErrorKind>,
    r: Result<Value, RuntimeError>,
) -> bool {
    match r {
        Result::Ok(v) => res == Result::<ValModel, ErrorKind>::Ok(v@) && v.wf(),
        Result::Err(e) => res == Result::<ValModel, ErrorKind>::Err(e@),
    }
}

/// A row-result matched against an executable vector result.
pub open spec fn many_matches(res: Result<Seq<ValModel>, ErrorKind>, r: Result<Vec<Value>, RuntimeError>) -> bool {
    match r {
        Result::Ok(vs) => res == Result::<Seq<ValModel>, ErrorKind>::Ok(Value::seq_view(vs@))
            && Value::seq_wf(vs@),
        Result::Err(e) => res == Result::<Seq<ValModel>, ErrorKind>::Err(e@),
    }
}

/// One evaluation frame: a binding store plus the values recorded by
/// `print`, with the recursive evaluation algorithm.
#[derive(Debug)]
pub struct Context {
    table: SymbolTable,
    output: Vec<Value>,
}

impl View for Context {
    type V = EnvModel;

    closed spec fn view(&self) -> EnvModel {
        EnvModel { table: self.table@, output: Value::seq_view(self.output@) }
    }
}

impl Context {
    /// Well-formedness of the store and of every recorded output value.
    pub closed spec fn wf(&self) -> bool {
        self.table.wf() && Value::seq_wf(self.output@)
    }

    /// A fresh frame over the given binding store, with no output yet.
    pub fn new(table: SymbolTable) -> (r: Context)
        ensures
            r@ == (EnvModel { table: table@, output: Seq::empty() }),
            table.wf() ==> r.wf(),
    {
        let r = Context { table, output: Vec::new() };
        proof {
            assert(Value::seq_view(r.output@) =~= Seq::<ValModel>::empty());
        }
        r
    }

    /// Hand the frame's parts back: the binding store and the output row.
    pub fn into_parts(self) -> (r: (SymbolTable, Vec<Value>))
        ensures
            r.0@ == self@.table,
            Value::seq_view(r.1@) == self@.output,
            self.wf() ==> r.0.wf() && Value::seq_wf(r.1@),
    {
        let Context { table, output } = self;
        (table, output)
    }

    /// Evaluate one form: quoted forms and atoms return as-is, symbols
    /// resolve, lists dispatch.
    pub fn eval(&mut self, item: &Value, fuel: u64) -> (r: Result<Value, RuntimeError>)
        requires
            old(self).wf(),
            item.wf(),
        ensures
            final(self).wf(),
            ({
                let st = eval_m(old(self)@, item@, fuel as nat);
                final(self)@ == st.env && res_matches(st.res, r)
            }),
        decreases fuel, 9int, 0int,
    {
        if fuel == 0 {
            return Err(RuntimeError::new(
                ErrorKind::RecursionLimit,
                "evaluation depth limit reached".to_owned(),
            ));
        }
        if item.is_quoted() {
            return Ok(item.duplicate());
        }
        match item {
            Value::List(c) => self.eval_cell(c, fuel),
            Value::Symbol(s) => self.eval_symbol(s, &Value::Nil, fuel),
            _ => Ok(item.duplicate()),
        }
    }

    /// Evaluate a list form given as its cell.
    fn eval_cell(&mut self, c: &Cell, fuel: u64) -> (r: Result<Value, RuntimeError>)
        requires
            old(self).wf(),
            c.wf(),
            !c.spec_quoted(),
            fuel >= 1,
        ensures
            final(self).wf(),
            ({
                let st = eval_list_m(old(self)@, c@, fuel as nat);
                final(self)@ == st.env && res_matches(st.res, r)
            }),
        decreases fuel, 8int, 0int,
    {
        let n = c.len();
        if n == 0 {
            return Ok(Value::Nil);
        }
        let head = match c.head() {
            Option::Some(h) => h,
            Option::None => Value::Nil,
        };
        match &head {
            Value::Symbol(s) => {
                let args = match c.tail() {
                    Option::Some(t) => Value::List(t),
                    Option::None => Value::Nil,
                };
                proof {
                    assert(args@ == ValModel::List(c@).cdr_m());
                }
                self.eval_symbol_function(s, &args, fuel)
            },
            Value::QuotedSymbol(s) => {
                let args = match c.tail() {
                    Option::Some(t) => Value::List(t),
                    Option::None => Value::Nil,
                };
                proof {
                    assert(args@ == ValModel::List(c@).cdr_m());
                }
                self.eval_symbol_function(s, &args, fuel)
            },
            Value::List(_) | Value::QuotedList(_) => {
                let items = c.values();
                match self.eval_items(&items, fuel) {
                    Result::Ok(vs) => Ok(Value::List(Cell::from_values(vs))),
                    Result::Err(e) => Err(e),
                }
            },
            _ => Ok(Value::List(c.duplicate())),
        }
    }

    /// Evaluate a bare symbol with its (already separated) argument tail.
    pub fn eval_symbol(&mut self, sym: &Symbol, args: &Value, fuel: u64) -> (r: Result<
        Value,
        RuntimeError,
    >)
        requires
            old(self).wf(),
            args.wf(),
            fuel >= 1,
        ensures
            final(self).wf(),
            ({
                let st = eval_symbol_m(old(self)@, sym@.name, args@, fuel as nat);
                final(self)@ == st.env && res_matches(st.res, r)
            }),
        decreases fuel, 7int, 0int,
    {
        let binding = self.table.get(sym);
        match binding {
            Sym::Value(v) => Ok(v),
            Sym::Function(f) => self.call(&f, args, fuel),
        }
    }

    /// Evaluate a list whose head is a symbol: dispatch a bound function, or
    /// treat the whole list as data and normalize each element.
    #[verifier::loop_isolation(false)]
    pub fn eval_symbol_function(&mut self, sym: &Symbol, args: &Value, fuel: u64) -> (r: Result<
        Value,
        RuntimeError,
    >)
        requires
            old(self).wf(),
            args.wf(),
            fuel >= 1,
        ensures
            final(self).wf(),
            ({
                let st = eval_symbol_function_m(old(self)@, sym@.name, args@, fuel as nat);
                final(self)@ == st.env && res_matches(st.res, r)
            }),
            (match r {
                Result::Err(e) => (match old(self)@.table.lookup(sym@.name) {
                    Option::Some(BindModel::Function(_)) => e.spec_has_cause()
                        && e.spec_message() == "failed to evaluate function "@ + sym@.name,
                    _ => true,
                }),
                Result::Ok(_) => true,
            }),
        decreases fuel, 7int, 1int,
    {
        let binding = self.table.get(sym);
        match binding {
            Sym::Function(f) => match self.call(&f, args, fuel) {
                Result::Ok(v) => Ok(v),
                Result::Err(e) => {
                    let mut message = "failed to evaluate function ".to_owned();
                    message.append(sym.name());
                    Err(e.wrap(message))
                },
            },
            Sym::Value(_) => {
                let argvec = args.values();
                let items = crate::value::vec_with_prefix(Value::Symbol(sym.unquote()), &argvec);
                proof {
                    assert(Value::seq_view(items@) =~= seq![ValModel::Sym(sym@.name)]
                        + args@.elems());
                }
                match self.eval_items(&items, fuel) {
                    Result::Ok(vs) => Ok(Value::List(Cell::from_values(vs))),
                    Result::Err(e) => Err(e),
                }
            },
        }
    }

    /// Apply a callable to the raw argument list.
    #[verifier::loop_isolation(false)]
    pub fn call(&mut self, f: &Function, args: &Value, fuel: u64) -> (r: Result<
        Value,
        RuntimeError,
    >)
        requires
            old(self).wf(),
            f.wf(),
            args.wf(),
            fuel >= 1,
        ensures
            final(self).wf(),
            ({
                let st = call_m(old(self)@, f@, args@, fuel as nat);
                final(self)@ == st.env && res_matches(st.res, r)
            }),
        decreases fuel, 6int, 0int,
    {
        match f {
            Function::Builtin { name: _, op } => self.native(*op, args, fuel),
            Function::Defun { name, args: params, body } => {
                match f.validate_args(name, params, args) {
                    Result::Err(e) => {
                        return Err(e);
                    },
                    Result::Ok(_) => {
                    },
                }
                let argitems = args.values();
                let vals = match self.eval_items(&argitems, fuel) {
                    Result::Ok(vs) => vs,
                    Result::Err(e) => {
                        return Err(e);
                    },
                };
                proof {
                    lemma_eval_each_len(old(self)@, Value::seq_view(argitems@), fuel as nat);
                }
                let pitems = params.values();
                let ghost pseq = Value::seq_view(pitems@);
                let ghost vseq = Value::seq_view(vals@);
                let ghost locals0 = self@.table.locals;
                let ghost globals1 = self@.table.globals;
                let ghost output1 = self@.output;
                let snap = self.table.snapshot_locals();
                let n = pitems.len();
                proof {
                    if param_names(pseq) is Some {
                        let names = param_names(pseq)->Some_0;
                        lemma_param_names_some(pseq);
                        assert(names.subrange(0, n as int) =~= names);
                        assert(vseq.subrange(0, n as int) =~= vseq);
                    }
                }
                let mut i: usize = 0;
                while i < n
                    invariant
                        i <= n,
                        n == pitems@.len(),
                        n == vals@.len(),
                        pseq == Value::seq_view(pitems@),
                        vseq == Value::seq_view(vals@),
                        Value::seq_wf(pitems@),
                        Value::seq_wf(vals@),
                        self.wf(),
                        self@.table.globals == globals1,
                        self@.output == output1,
                        forall|j: int| 0 <= j < i ==> (match #[trigger] pseq[j] {
                            ValModel::Sym(_) | ValModel::QSym(_) => true,
                            _ => false,
                        }),
                        (match param_names(pseq) {
                            Option::Some(names) => bind_params(locals0, names, vseq)
                                == bind_params(
                                self@.table.locals,
                                names.subrange(i as int, n as int),
                                vseq.subrange(i as int, n as int),
                            ),
                            Option::None => true,
                        }),
                        snap.wf(),
                        snap@ == locals0,
                    decreases n - i,
                {
                    let p = &pitems[i];
                    proof {
                        crate::value::seq_wf_index(pitems@, i as int);
                        crate::value::seq_wf_index(vals@, i as int);
                    }
                    let pname = match p {
                        Value::Symbol(s) => s.unquote(),
                        Value::QuotedSymbol(s) => s.unquote(),
                        _ => {
                            proof {
                                lemma_param_names_none(pseq, i as int);
                            }
                            self.table.restore_locals(snap);
                            return Err(RuntimeError::new(
                                ErrorKind::TypeMismatch,
                                "parameter is not a symbol".to_owned(),
                            ));
                        },
                    };
                    let v = &vals[i];
                    let _ = self.table.set_local(&pname, Sym::Value(v.duplicate()));
                    proof {
                        if param_names(pseq) is Some {
                            let names = param_names(pseq)->Some_0;
                            lemma_param_names_some(pseq);
                            let tail_names = names.subrange(i as int, n as int);
                            let tail_vals = vseq.subrange(i as int, n as int);
                            assert(tail_names[0] == names[i as int]);
                            assert(tail_vals[0] == vseq[i as int]);
                            assert(tail_names.subrange(1, tail_names.len() as int) =~= names
                                .subrange(i as int + 1, n as int));
                            assert(tail_vals.subrange(1, tail_vals.len() as int) =~= vseq.subrange(
                                i as int + 1,
                                n as int,
                            ));
                            assert(names[i as int] == pname@.name);
                        }
                    }
                    i += 1;
                }
                proof {
                    lemma_param_names_all_syms(pseq);
                    let names = param_names(pseq)->Some_0;
                    assert(names.subrange(n as int, n as int) =~= Seq::<Seq<char>>::empty());
                    assert(vseq.subrange(n as int, n as int) =~= Seq::<ValModel>::empty());
                }
                let bitems = body.values();
                let res = self.eval_run(&bitems, fuel);
                self.table.restore_locals(snap);
                res
            },
        }
    }

    /// Apply a native operation to the raw argument list.
    fn native(&mut self, op: NativeOp, args: &Value, fuel: u64) -> (r: Result<Value, RuntimeError>)
        requires
            old(self).wf(),
            args.wf(),
            fuel >= 1,
        ensures
            final(self).wf(),
            ({
                let st = native_m(old(self)@, op, args@, fuel as nat);
                final(self)@ == st.env && res_matches(st.res, r)
            }),
            (match r {
                Result::Err(e) => {
                    &&& (op == NativeOp::Setq && args@.elems().len() % 2 != 0
                        ==> e.spec_message() == "odd number of arguments ("@
                        + crate::value::dec_of(args@.elems().len()) + ") in setq"@
                        && !e.spec_has_cause())
                    &&& (op == NativeOp::Setq && args@.elems().len() % 2 == 0
                        && args@.elems().len() > 0 && !(args@.elems()[0] matches ValModel::Sym(_))
                        && !(args@.elems()[0] matches ValModel::QSym(_)) ==> e.spec_message()
                        == "setq invoked with a non-symbol: "@ + crate::value::display_of(
                        args@.elems()[0],
                    ) && !e.spec_has_cause())
                    &&& ((op == NativeOp::Add || op == NativeOp::Sub || op == NativeOp::Mul
                        || op == NativeOp::Div) && args@.elems().len() >= 2 && !operand_form(
                        args@.elems()[0],
                    ) ==> e.spec_message() == "arithmetic on a non-numeric value: "@
                        + crate::value::display_of(args@.elems()[0]) && !e.spec_has_cause())
                    &&& ((op == NativeOp::Add || op == NativeOp::Sub || op == NativeOp::Mul
                        || op == NativeOp::Div) && args@.elems().len() >= 2 ==> (match
                        eval_operands_m(old(self)@, args@.elems(), fuel as nat).res {
                        Result::Ok(vals) => (match arith_mismatch_msg_m(vals, op) {
                            Option::Some(m) => e.spec_message() == m && !e.spec_has_cause(),
                            Option::None => true,
                        }),
                        Result::Err(_) => true,
                    }))
                },
                Result::Ok(_) => true,
            }),
        decreases fuel, 5int, 0int,
    {
        match op {
            NativeOp::T => Ok(Value::T),
            NativeOp::Backquote => Ok(args.duplicate()),
            NativeOp::Quote => match args {
                Value::List(c) => Ok(Value::QuotedList(c.quote())),
                Value::QuotedList(c) => Ok(Value::QuotedList(c.duplicate())),
                _ => Err(RuntimeError::new(
                    ErrorKind::TypeMismatch,
                    "quote invoked with a non-symbol, non-list value".to_owned(),
                )),
            },
            NativeOp::Car => {
                let a = crate::value::car(args);
                Ok(crate::value::car(&a))
            },
            NativeOp::Cdr => {
                let a = crate::value::car(args);
                Ok(crate::value::cdr(&a))
            },
            NativeOp::Cons => {
                let h = crate::value::car(args);
                let t = crate::value::cdr(args);
                let cell = crate::value::cons(&h, &t.as_cell());
                Ok(Value::list(cell))
            },
            NativeOp::List => {
                let items = args.values();
                Ok(crate::value::list(items))
            },
            NativeOp::Append => {
                let items = args.values();
                Ok(crate::value::append(items))
            },
            NativeOp::Print => {
                self.output.push(args.duplicate());
                proof {
                    assert(Value::seq_view(self.output@) =~= old(self)@.output.push(args@));
                    assert forall|j: int| 0 <= j < self.output@.len() implies (#[trigger] self
                        .output@[j]).wf() by {
                        if j < old(self).output@.len() {
                            crate::value::seq_wf_index(old(self).output@, j);
                        }
                    }
                    crate::value::seq_wf_intro(self.output@);
                }
                Ok(args.duplicate())
            },
            NativeOp::Setq => {
                let items = args.values();
                if items.len() % 2 != 0 {
                    let mut message = "odd number of arguments (".to_owned();
                    crate::value::push_dec(&mut message, items.len() as u64);
                    message.append(") in setq");
                    Err(RuntimeError::new(ErrorKind::MalformedForm, message))
                } else {
                    proof {
                        assert(Value::seq_view(items@).subrange(0, items@.len() as int)
                            =~= Value::seq_view(items@));
                    }
                    self.setq_pairs(&items, 0, fuel)
                }
            },
            NativeOp::Defun => {
                let items = args.values();
                self.define(&items)
            },
            NativeOp::Add | NativeOp::Sub | NativeOp::Mul | NativeOp::Div => {
                let items = args.values();
                if items.len() < 2 {
                    return Err(RuntimeError::new(
                        ErrorKind::ArityMismatch,
                        "arithmetic takes at least two operands".to_owned(),
                    ));
                }
                proof {
                    assert(Value::seq_view(items@).subrange(0, items@.len() as int)
                        =~= Value::seq_view(items@));
                }
                let vals = match self.eval_operands_from(&items, 0, fuel) {
                    Result::Ok(vs) => vs,
                    Result::Err(e) => {
                        return Err(e);
                    },
                };
                Context::fold_values(&vals, op)
            },
        }
    }

    /// Bind `setq` name/value pairs from `start` on.
    fn setq_pairs(&mut self, items: &Vec<Value>, start: usize, fuel: u64) -> (r: Result<
        Value,
        RuntimeError,
    >)
        requires
            old(self).wf(),
            Value::seq_wf(items@),
            start <= items@.len(),
            (items@.len() - start) % 2 == 0,
            fuel >= 1,
        ensures
            final(self).wf(),
            ({
                let st = setq_m(
                    old(self)@,
                    Value::seq_view(items@).subrange(start as int, items@.len() as int),
                    fuel as nat,
                );
                final(self)@ == st.env && res_matches(st.res, r)
            }),
            (match r {
                Result::Err(e) => ({
                    let s = Value::seq_view(items@).subrange(start as int, items@.len() as int);
                    s.len() > 0 && !(s[0] matches ValModel::Sym(_)) && !(s[0]
                        matches ValModel::QSym(_)) ==> e.spec_message()
                        == "setq invoked with a non-symbol: "@ + crate::value::display_of(s[0])
                        && !e.spec_has_cause()
                }),
                Result::Ok(_) => true,
            }),
        decreases fuel, 3int, items@.len() - start,
    {
        let n = items.len();
        if start == n {
            proof {
                assert(Value::seq_view(items@).subrange(start as int, n as int) =~= Seq::<
                    ValModel,
                >::empty());
            }
            return Ok(Value::Nil);
        }
        let ghost rest = Value::seq_view(items@).subrange(start as int, n as int);
        proof {
            crate::value::seq_wf_index(items@, start as int);
            crate::value::seq_wf_index(items@, start as int + 1);
            assert(rest[0] == items@[start as int]@);
            assert(rest[1] == items@[start as int + 1]@);
            assert(rest.subrange(2, rest.len() as int) =~= Value::seq_view(items@).subrange(
                start as int + 2,
                n as int,
            ));
        }
        let name = match &items[start] {
            Value::Symbol(s) => s.unquote(),
            Value::QuotedSymbol(s) => s.unquote(),
            _ => {
                let mut message = "setq invoked with a non-symbol: ".to_owned();
                let shown = items[start].text();
                message.append(shown.as_str());
                return Err(RuntimeError::new(ErrorKind::TypeMismatch, message));
            },
        };
        let item = &items[start + 1];
        let v = match self.eval(item, fuel - 1) {
            Result::Ok(v) => v,
            Result::Err(e) => {
                return Err(e);
            },
        };
        let _ = self.table.set_global(&name, Sym::Value(v.duplicate()));
        if start + 2 == n {
            Ok(v)
        } else {
            self.setq_pairs(items, start + 2, fuel)
        }
    }

    /// Record a user-defined function from the raw `defun` arguments.
    #[verifier::loop_isolation(false)]
    fn define(&mut self, items: &Vec<Value>) -> (r: Result<Value, RuntimeError>)
        requires
            old(self).wf(),
            Value::seq_wf(items@),
        ensures
            final(self).wf(),
            ({
                let st = defun_m(old(self)@, Value::seq_view(items@));
                final(self)@ == st.env && res_matches(st.res, r)
            }),
    {
        let n = items.len();
        if n == 0 {
            return Err(RuntimeError::new(
                ErrorKind::TypeMismatch,
                "defun needs a function name".to_owned(),
            ));
        }
        proof {
            crate::value::seq_wf_index(items@, 0);
        }
        let name = match &items[0] {
            Value::Symbol(s) => s.unquote(),
            Value::QuotedSymbol(s) => s.unquote(),
            _ => {
                return Err(RuntimeError::new(
                    ErrorKind::TypeMismatch,
                    "defun invoked with a non-symbol name".to_owned(),
                ));
            },
        };
        let params = if n >= 2 {
            proof {
                crate::value::seq_wf_index(items@, 1);
            }
            let p = &items[1];
            p.duplicate()
        } else {
            Value::Nil
        };
        let body = if n > 2 {
            let b = crate::value::vec_suffix(items, 2);
            Value::List(Cell::from_values(b))
        } else {
            Value::Nil
        };
        let f = Function::Defun { name: name.duplicate(), args: params, body };
        let r = self.table.set_global(&name, Sym::Function(f));
        Ok(r)
    }

    /// Resolve arithmetic operands from `start` on: numbers stand for
    /// themselves, symbols and lists are evaluated first.
    #[verifier::loop_isolation(false)]
    fn eval_operands_from(&mut self, items: &Vec<Value>, start: usize, fuel: u64) -> (r: Result<
        Vec<Value>,
        RuntimeError,
    >)
        requires
            old(self).wf(),
            Value::seq_wf(items@),
            start <= items@.len(),
            fuel >= 1,
        ensures
            final(self).wf(),
            ({
                let m = eval_operands_m(
                    old(self)@,
                    Value::seq_view(items@).subrange(start as int, items@.len() as int),
                    fuel as nat,
                );
                final(self)@ == m.env && many_matches(m.res, r)
            }),
            (match r {
                Result::Err(e) => ({
                    let s = Value::seq_view(items@).subrange(start as int, items@.len() as int);
                    s.len() > 0 && !operand_form(s[0]) ==> e.spec_message()
                        == "arithmetic on a non-numeric value: "@ + crate::value::display_of(s[0])
                        && !e.spec_has_cause()
                }),
                Result::Ok(_) => true,
            }),
        decreases fuel, 3int, items@.len() - start,
    {
        let n = items.len();
        if start == n {
            let empty: Vec<Value> = Vec::new();
            proof {
                assert(Value::seq_view(items@).subrange(start as int, n as int) =~= Seq::<
                    ValModel,
                >::empty());
                assert(Value::seq_view(empty@) =~= Seq::<ValModel>::empty());
            }
            return Ok(empty);
        }
        let ghost rest = Value::seq_view(items@).subrange(start as int, n as int);
        proof {
            crate::value::seq_wf_index(items@, start as int);
            assert(rest[0] == items@[start as int]@);
            assert(rest.subrange(1, rest.len() as int) =~= Value::seq_view(items@).subrange(
                start as int + 1,
                n as int,
            ));
        }
        let item = &items[start];
        let resolved = match item {
            Value::Byte(_) | Value::UnsignedInteger(_) | Value::Integer(_) | Value::Float(_) => Ok(
                item.duplicate(),
            ),
            Value::Symbol(_) | Value::QuotedSymbol(_) | Value::List(_) | Value::QuotedList(_) => {
                self.eval(item, fuel - 1)
            },
            _ => {
                let mut message = "arithmetic on a non-numeric value: ".to_owned();
                let shown = item.text();
                message.append(shown.as_str());
                Err(RuntimeError::new(ErrorKind::TypeMismatch, message))
            },
        };
        let v = match resolved {
            Result::Ok(v) => v,
            Result::Err(e) => {
                return Err(e);
            },
        };
        match self.eval_operands_from(items, start + 1, fuel) {
            Result::Ok(vs) => {
                let out = crate::value::vec_with_prefix(v, &vs);
                Ok(out)
            },
            Result::Err(e) => Err(e),
        }
    }

    /// Fold resolved operands, the first fixing the numeric kind.  A
    /// wrong-kind operand fails with a message naming the offending value.
    fn fold_values(vals: &Vec<Value>, op: NativeOp) -> (r: Result<Value, RuntimeError>)
        requires
            vals@.len() >= 1,
            Value::seq_wf(vals@),
        ensures
            res_matches_pure(fold_nums_m(Value::seq_view(vals@), op), r),
            (match r {
                Result::Err(e) => (match arith_mismatch_msg_m(Value::seq_view(vals@), op) {
                    Option::Some(m) => e.spec_message() == m && !e.spec_has_cause(),
                    Option::None => true,
                }),
                Result::Ok(_) => true,
            }),
    {
        proof {
            crate::value::seq_wf_index(vals@, 0);
            assert(Value::seq_view(vals@).subrange(1, vals@.len() as int) =~= Value::seq_view(
                vals@,
            ).subrange(1, vals@.len() as int));
        }
        match &vals[0] {
            Value::Byte(b) => Context::fold_uint(*b as u32, vals, 1, op),
            Value::UnsignedInteger(u) => Context::fold_uint(*u, vals, 1, op),
            Value::Integer(i) => Context::fold_int(*i, vals, 1, op),
            Value::Float(_) => Context::fold_flt(vals, 1),
            _ => {
                let mut message = "arithmetic on a non-numeric value: ".to_owned();
                let shown = vals[0].text();
                message.append(shown.as_str());
                Err(RuntimeError::new(ErrorKind::TypeMismatch, message))
            },
        }
    }

    /// Fold the tail from `start` into an unsigned accumulator.
    fn fold_uint(acc: u32, vals: &Vec<Value>, start: usize, op: NativeOp) -> (r: Result<
        Value,
        RuntimeError,
    >)
        requires
            start <= vals@.len(),
        ensures
            res_matches_pure(
                fold_uint_m(
                    acc,
                    Value::seq_view(vals@).subrange(start as int, vals@.len() as int),
                    op,
                ),
                r,
            ),
            (match r {
                Result::Err(e) => (match uint_reject_m(
                    acc,
                    Value::seq_view(vals@).subrange(start as int, vals@.len() as int),
                    op,
                ) {
                    Option::Some(c) => e.spec_message() == "mixed numeric kinds in arithmetic: "@
                        + crate::value::display_of(c) && !e.spec_has_cause(),
                    Option::None => true,
                }),
                Result::Ok(_) => true,
            }),
        decreases vals@.len() - start,
    {
        let n = vals.len();
        if start == n {
            proof {
                assert(Value::seq_view(vals@).subrange(start as int, n as int) =~= Seq::<
                    ValModel,
                >::empty());
            }
            return Ok(Value::UnsignedInteger(acc));
        }
        let ghost rest = Value::seq_view(vals@).subrange(start as int, n as int);
        proof {
            assert(rest[0] == vals@[start as int]@);
            assert(rest.subrange(1, rest.len() as int) =~= Value::seq_view(vals@).subrange(
                start as int + 1,
                n as int,
            ));
        }
        let b: u32 = match &vals[start] {
            Value::Byte(b) => *b as u32,
            Value::UnsignedInteger(u) => *u,
            _ => {
                let mut message = "mixed numeric kinds in arithmetic: ".to_owned();
                let shown = vals[start].text();
                message.append(shown.as_str());
                return Err(RuntimeError::new(ErrorKind::TypeMismatch, message));
            },
        };
        let next = match op {
            NativeOp::Add => acc.checked_add(b),
            NativeOp::Sub => acc.checked_sub(b),
            NativeOp::Mul => acc.checked_mul(b),
            _ => acc.checked_div(b),
        };
        match next {
            Option::Some(acc2) => Context::fold_uint(acc2, vals, start + 1, op),
            Option::None => Err(RuntimeError::new(
                ErrorKind::Arithmetic,
                "arithmetic overflow or division by zero".to_owned(),
            )),
        }
    }

    /// Fold the tail from `start` into a signed accumulator.
    fn fold_int(acc: i64, vals: &Vec<Value>, start: usize, op: NativeOp) -> (r: Result<
        Value,
        RuntimeError,
    >)
        requires
            start <= vals@.len(),
        ensures
            res_matches_pure(
                fold_int_m(
                    acc,
                    Value::seq_view(vals@).subrange(start as int, vals@.len() as int),
                    op,
                ),
                r,
            ),
            (match r {
                Result::Err(e) => (match int_reject_m(
                    acc,
                    Value::seq_view(vals@).subrange(start as int, vals@.len() as int),
                    op,
                ) {
                    Option::Some(c) => e.spec_message() == "mixed numeric kinds in arithmetic: "@
                        + crate::value::display_of(c) && !e.spec_has_cause(),
                    Option::None => true,
                }),
                Result::Ok(_) => true,
            }),
        decreases vals@.len() - start,
    {
        let n = vals.len();
        if start == n {
            proof {
                assert(Value::seq_view(vals@).subrange(start as int, n as int) =~= Seq::<
                    ValModel,
                >::empty());
            }
            return Ok(Value::Integer(acc));
        }
        let ghost rest = Value::seq_view(vals@).subrange(start as int, n as int);
        proof {
            assert(rest[0] == vals@[start as int]@);
            assert(rest.subrange(1, rest.len() as int) =~= Value::seq_view(vals@).subrange(
                start as int + 1,
                n as int,
            ));
        }
        let b: i64 = match &vals[start] {
            Value::Integer(i) => *i,
            _ => {
                let mut message = "mixed numeric kinds in arithmetic: ".to_owned();
                let shown = vals[start].text();
                message.append(shown.as_str());
                return Err(RuntimeError::new(ErrorKind::TypeMismatch, message));
            },
        };
        let next = match op {
            NativeOp::Add => acc.checked_add(b),
            NativeOp::Sub => acc.checked_sub(b),
            NativeOp::Mul => acc.checked_mul(b),
            _ => acc.checked_div(b),
        };
        match next {
            Option::Some(acc2) => Context::fold_int(acc2, vals, start + 1, op),
            Option::None => Err(RuntimeError::new(
                ErrorKind::Arithmetic,
                "arithmetic overflow or division by zero".to_owned(),
            )),
        }
    }

    /// Check a float-first fold: later non-floats are a type mismatch, an
    /// all-float fold is unsupported.
    fn fold_flt(vals: &Vec<Value>, start: usize) -> (r: Result<Value, RuntimeError>)
        requires
            start <= vals@.len(),
        ensures
            res_matches_pure(
                fold_flt_m(Value::seq_view(vals@).subrange(start as int, vals@.len() as int)),
                r,
            ),
            (match r {
                Result::Err(e) => (match flt_reject_m(
                    Value::seq_view(vals@).subrange(start as int, vals@.len() as int),
                ) {
                    Option::Some(c) => e.spec_message() == "mixed numeric kinds in arithmetic: "@
                        + crate::value::display_of(c) && !e.spec_has_cause(),
                    Option::None => true,
                }),
                Result::Ok(_) => true,
            }),
        decreases vals@.len() - start,
    {
        let n = vals.len();
        if start == n {
            proof {
                assert(Value::seq_view(vals@).subrange(start as int, n as int) =~= Seq::<
                    ValModel,
                >::empty());
            }
            return Err(RuntimeError::new(
                ErrorKind::Unsupported,
                "float arithmetic is outside the core".to_owned(),
            ));
        }
        let ghost rest = Value::seq_view(vals@).subrange(start as int, n as int);
        proof {
            assert(rest[0] == vals@[start as int]@);
            assert(rest.subrange(1, rest.len() as int) =~= Value::seq_view(vals@).subrange(
                start as int + 1,
                n as int,
            ));
        }
        match &vals[start] {
            Value::Float(_) => Context::fold_flt(vals, start + 1),
            _ => {
                let mut message = "mixed numeric kinds in arithmetic: ".to_owned();
                let shown = vals[start].text();
                message.append(shown.as_str());
                Err(RuntimeError::new(ErrorKind::TypeMismatch, message))
            },
        }
    }

    /// Evaluate a row of forms as an implicit sequence: the last value wins.
    fn eval_run(&mut self, items: &Vec<Value>, fuel: u64) -> (r: Result<Value, RuntimeError>)
        requires
            old(self).wf(),
            Value::seq_wf(items@),
            fuel >= 1,
        ensures
            final(self).wf(),
            ({
                let st = eval_seq_m(old(self)@, Value::seq_view(items@), fuel as nat);
                final(self)@ == st.env && res_matches(st.res, r)
            }),
        decreases fuel, 4int, 0int,
    {
        proof {
            assert(Value::seq_view(items@).subrange(0, items@.len() as int) =~= Value::seq_view(
                items@,
            ));
        }
        self.eval_run_from(items, 0, fuel)
    }

    /// Evaluate the sequence's tail beginning at `start`.
    fn eval_run_from(&mut self, items: &Vec<Value>, start: usize, fuel: u64) -> (r: Result<
        Value,
        RuntimeError,
    >)
        requires
            old(self).wf(),
            Value::seq_wf(items@),
            start <= items@.len(),
            fuel >= 1,
        ensures
            final(self).wf(),
            ({
                let st = eval_seq_m(
                    old(self)@,
                    Value::seq_view(items@).subrange(start as int, items@.len() as int),
                    fuel as nat,
                );
                final(self)@ == st.env && res_matches(st.res, r)
            }),
        decreases fuel, 3int, items@.len() - start,
    {
        let n = items.len();
        if start == n {
            proof {
                assert(Value::seq_view(items@).subrange(start as int, n as int) =~= Seq::<
                    ValModel,
                >::empty());
            }
            return Ok(Value::Nil);
        }
        let ghost rest = Value::seq_view(items@).subrange(start as int, n as int);
        proof {
            crate::value::seq_wf_index(items@, start as int);
            assert(rest[0] == items@[start as int]@);
            assert(rest.subrange(1, rest.len() as int) =~= Value::seq_view(items@).subrange(
                start as int + 1,
                n as int,
            ));
        }
        let item = &items[start];
        let v = match self.eval(item, fuel - 1) {
            Result::Ok(v) => v,
            Result::Err(e) => {
                return Err(e);
            },
        };
        if start + 1 == n {
            Ok(v)
        } else {
            self.eval_run_from(items, start + 1, fuel)
        }
    }

    /// Evaluate a row of forms left to right, collecting the values.
    fn eval_items(&mut self, items: &Vec<Value>, fuel: u64) -> (r: Result<Vec<Value>, RuntimeError>)
        requires
            old(self).wf(),
            Value::seq_wf(items@),
            fuel >= 1,
        ensures
            final(self).wf(),
            ({
                let m = eval_each_m(old(self)@, Value::seq_view(items@), fuel as nat);
                final(self)@ == m.env && many_matches(m.res, r)
            }),
        decreases fuel, 4int, 0int,
    {
        proof {
            assert(Value::seq_view(items@).subrange(0, items@.len() as int) =~= Value::seq_view(
                items@,
            ));
        }
        self.eval_items_from(items, 0, fuel)
    }

    /// Evaluate the row's tail beginning at `start`.
    #[verifier::loop_isolation(false)]
    fn eval_items_from(&mut self, items: &Vec<Value>, start: usize, fuel: u64) -> (r: Result<
        Vec<Value>,
        RuntimeError,
    >)
        requires
            old(self).wf(),
            Value::seq_wf(items@),
            start <= items@.len(),
            fuel >= 1,
        ensures
            final(self).wf(),
            ({
                let m = eval_each_m(
                    old(self)@,
                    Value::seq_view(items@).subrange(start as int, items@.len() as int),
                    fuel as nat,
                );
                final(self)@ == m.env && many_matches(m.res, r)
            }),
        decreases fuel, 3int, items@.len() - start,
    {
        let n = items.len();
        if start == n {
            let empty: Vec<Value> = Vec::new();
            proof {
                assert(Value::seq_view(items@).subrange(start as int, n as int) =~= Seq::<
                    ValModel,
                >::empty());
                assert(Value::seq_view(empty@) =~= Seq::<ValModel>::empty());
            }
            return Ok(empty);
        }
        let ghost rest = Value::seq_view(items@).subrange(start as int, n as int);
        proof {
            crate::value::seq_wf_index(items@, start as int);
            assert(rest[0] == items@[start as int]@);
            assert(rest.subrange(1, rest.len() as int) =~= Value::seq_view(items@).subrange(
                start as int + 1,
                n as int,
            ));
        }
        let item = &items[start];
        let v = match self.eval(item, fuel - 1) {
            Result::Ok(v) => v,
            Result::Err(e) => {
                return Err(e);
            },
        };
        match self.eval_items_from(items, start + 1, fuel) {
            Result::Ok(vs) => {
                let out = crate::value::vec_with_prefix(v, &vs);
                Ok(out)
            },
            Result::Err(e) => Err(e),
        }
    }
}

/// Evaluate a value as a list form: quoted values return as-is, list values
/// evaluate as lists, anything else yields `Nil`.
pub open spec fn eval_list_value_m(env: EnvModel, v: ValModel, fuel: nat) -> StepModel {
    if v.quoted_form() {
        step_ok(env, v)
    } else {
        match v {
            ValModel::List(s) => eval_list_m(env, s, fuel),
            _ => step_ok(env, ValModel::Nil),
        }
    }
}

impl Context {
    /// Evaluate a value as a list form.
    pub fn eval_list(&mut self, list: &Value, fuel: u64) -> (r: Result<Value, RuntimeError>)
        requires
            old(self).wf(),
            list.wf(),
            fuel >= 1,
        ensures
            final(self).wf(),
            ({
                let st = eval_list_value_m(old(self)@, list@, fuel as nat);
                final(self)@ == st.env && res_matches(st.res, r)
            }),
    {
        if list.is_quoted() {
            return Ok(list.duplicate());
        }
        match list {
            Value::List(c) => self.eval_cell(c, fuel),
            _ => Ok(Value::Nil),
        }
    }

    /// Look a symbol up, auto-declaring it as a self-valued local on a miss.
    pub fn get_symbol(&mut self, sym: &Symbol) -> (r: Sym)
        requires
            old(self).wf(),
        ensures
            final(self).wf(),
            r.wf(),
            final(self)@.output == old(self)@.output,
            (match old(self)@.table.lookup(sym@.name) {
                Option::Some(b) => final(self)@ == old(self)@ && r@ == b,
                Option::None => final(self)@.table == bind_self(old(self)@, sym@.name).table && r@
                    == BindModel::Value(ValModel::Sym(sym@.name)),
            }),
    {
        self.table.get(sym)
    }

    /// The function a symbol is bound to, if any; lookup misses auto-declare
    /// the symbol as a self-valued local.
    pub fn get_symbol_function(&mut self, sym: &Symbol) -> (r: Option<Function>)
        requires
            old(self).wf(),
        ensures
            final(self).wf(),
            final(self)@.output == old(self)@.output,
            (match old(self)@.table.lookup(sym@.name) {
                Option::Some(BindModel::Function(f)) => final(self)@ == old(self)@ && (match r {
                    Option::Some(g) => g@ == f && g.wf(),
                    Option::None => false,
                }),
                Option::Some(BindModel::Value(_)) => final(self)@ == old(self)@ && r is None,
                Option::None => final(self)@.table == bind_self(old(self)@, sym@.name).table && r
                    is None,
            }),
    {
        match self.table.get(sym) {
            Sym::Function(f) => Some(f),
            Sym::Value(_) => None,
        }
    }

    /// Insert or replace a global binding; the new binding is returned read
    /// back as data.
    pub fn set_global(&mut self, sym: &Symbol, binding: Sym) -> (r: Value)
        requires
            old(self).wf(),
            binding.wf(),
        ensures
            final(self).wf(),
            final(self)@.table.globals == old(self)@.table.globals.insert(sym@.name, binding@),
            final(self)@.table.locals == old(self)@.table.locals,
            final(self)@.output == old(self)@.output,
            r@ == binding@.as_value_m(),
            r.wf(),
    {
        self.table.set_global(sym, binding)
    }

    /// Insert or replace a local binding; the new binding is returned read
    /// back as data.
    pub fn set_local(&mut self, sym: &Symbol, binding: Sym) -> (r: Value)
        requires
            old(self).wf(),
            binding.wf(),
        ensures
            final(self).wf(),
            final(self)@.table.globals == old(self)@.table.globals,
            final(self)@.table.locals == old(self)@.table.locals.insert(sym@.name, binding@),
            final(self)@.output == old(self)@.output,
            r@ == binding@.as_value_m(),
            r.wf(),
    {
        self.table.set_local(sym, binding)
    }

    /// Record a user-defined function under its name in the globals; the
    /// binding is returned read back as data.
    pub fn register_function(&mut self, name: Symbol, args: Value, body: Value) -> (r: Value)
        requires
            old(self).wf(),
            args.wf(),
            body.wf(),
        ensures
            final(self).wf(),
            final(self)@.table.globals == old(self)@.table.globals.insert(
                name@.name,
                BindModel::Function(
                    FunModel::Defun { name: name@.name, args: args@, body: body@ },
                ),
            ),
            final(self)@.table.locals == old(self)@.table.locals,
            final(self)@.output == old(self)@.output,
            r@ == BindModel::Function(
                FunModel::Defun { name: name@.name, args: args@, body: body@ },
            ).as_value_m(),
            r.wf(),
    {
        let key = name.duplicate();
        let f = Function::Defun { name, args, body };
        self.table.set_global(&key, Sym::Function(f))
    }
}

impl Function {
    /// Check that a call provides exactly as many arguments as the function
    /// declares parameters; the failure's message names the function and
    /// both counts.
    pub fn validate_args(&self, name: &Symbol, expected: &Value, received: &Value) -> (r: Result<
        (),
        RuntimeError,
    >)
        ensures
            (r is Ok) == (expected@.elems().len() == received@.elems().len()),
            (match r {
                Result::Err(e) => e@ == ErrorKind::ArityMismatch && !e.spec_has_cause()
                    && e.spec_message() == name@.name + " expected "@ + crate::value::dec_of(
                    expected@.elems().len(),
                ) + " args but received "@ + crate::value::dec_of(received@.elems().len()),
                Result::Ok(_) => true,
            }),
    {
        let expected_len = expected.len();
        let received_len = received.len();
        if expected_len == received_len {
            Ok(())
        } else {
            let mut message = name.name().to_owned();
            message.append(" expected ");
            crate::value::push_dec(&mut message, expected_len as u64);
            message.append(" args but received ");
            crate::value::push_dec(&mut message, received_len as u64);
            Err(RuntimeError::new(ErrorKind::ArityMismatch, message))
        }
    }
}

/// The registry of native functions the machine starts with.
pub open spec fn builtins_map() -> Map<Seq<char>, BindModel> {
    Map::<Seq<char>, BindModel>::empty().insert(
        "t"@,
        BindModel::Function(FunModel::Builtin { name: "t"@, op: NativeOp::T }),
    ).insert(
        "setq"@,
        BindModel::Function(FunModel::Builtin { name: "setq"@, op: NativeOp::Setq }),
    ).insert(
        "defun"@,
        BindModel::Function(FunModel::Builtin { name: "defun"@, op: NativeOp::Defun }),
    ).insert(
        "car"@,
        BindModel::Function(FunModel::Builtin { name: "car"@, op: NativeOp::Car }),
    ).insert(
        "cdr"@,
        BindModel::Function(FunModel::Builtin { name: "cdr"@, op: NativeOp::Cdr }),
    ).insert(
        "cons"@,
        BindModel::Function(FunModel::Builtin { name: "cons"@, op: NativeOp::Cons }),
    ).insert(
        "list"@,
        BindModel::Function(FunModel::Builtin { name: "list"@, op: NativeOp::List }),
    ).insert(
        "append"@,
        BindModel::Function(FunModel::Builtin { name: "append"@, op: NativeOp::Append }),
    ).insert(
        "quote"@,
        BindModel::Function(FunModel::Builtin { name: "quote"@, op: NativeOp::Quote }),
    ).insert(
        "print"@,
        BindModel::Function(FunModel::Builtin { name: "print"@, op: NativeOp::Print }),
    ).insert(
        "backquote"@,
        BindModel::Function(FunModel::Builtin { name: "backquote"@, op: NativeOp::Backquote }),
    ).insert(
        "*"@,
        BindModel::Function(FunModel::Builtin { name: "*"@, op: NativeOp::Mul }),
    ).insert(
        "+"@,
        BindModel::Function(FunModel::Builtin { name: "+"@, op: NativeOp::Add }),
    ).insert(
        "-"@,
        BindModel::Function(FunModel::Builtin { name: "-"@, op: NativeOp::Sub }),
    ).insert(
        "/"@,
        BindModel::Function(FunModel::Builtin { name: "/"@, op: NativeOp::Div }),
    )
}

/// The top-level façade: owns the persistent global table, pushes a fresh
/// frame per top-level evaluation, and folds the frame's global mutations
/// back into its own table afterwards.  Values recorded by `print`
/// accumulate until taken.
#[derive(Debug)]
pub struct VirtualMachine {
    symbols: SymbolTable,
    output: Vec<Value>,
}

impl VirtualMachine {
    /// The persistent global bindings.
    pub closed spec fn globals_m(&self) -> Map<Seq<char>, BindModel> {
        self.symbols@.globals
    }

    /// The values recorded by `print` and not yet taken.
    pub closed spec fn output_m(&self) -> Seq<ValModel> {
        Value::seq_view(self.output@)
    }

    /// Well-formedness: the table holds well-formed global bindings and no
    /// locals; every recorded output value is well-formed.
    pub closed spec fn wf(&self) -> bool {
        self.symbols.wf() && self.symbols@.locals == Map::<Seq<char>, BindModel>::empty()
            && Value::seq_wf(self.output@)
    }

    /// A machine with the native registry bound and nothing else.
    pub fn new() -> (r: VirtualMachine)
        ensures
            r.wf(),
            r.globals_m() == builtins_map(),
            r.output_m() == Seq::<ValModel>::empty(),
    {
        let mut table = SymbolTable::empty();
        let _ = table.set_global(
            &Symbol::new("t"),
            Sym::Function(Function::Builtin { name: Symbol::new("t"), op: NativeOp::T }),
        );
        let _ = table.set_global(
            &Symbol::new("setq"),
            Sym::Function(Function::Builtin { name: Symbol::new("setq"), op: NativeOp::Setq }),
        );
        let _ = table.set_global(
            &Symbol::new("defun"),
            Sym::Function(Function::Builtin { name: Symbol::new("defun"), op: NativeOp::Defun }),
        );
        let _ = table.set_global(
            &Symbol::new("car"),
            Sym::Function(Function::Builtin { name: Symbol::new("car"), op: NativeOp::Car }),
        );
        let _ = table.set_global(
            &Symbol::new("cdr"),
            Sym::Function(Function::Builtin { name: Symbol::new("cdr"), op: NativeOp::Cdr }),
        );
        let _ = table.set_global(
            &Symbol::new("cons"),
            Sym::Function(Function::Builtin { name: Symbol::new("cons"), op: NativeOp::Cons }),
        );
        let _ = table.set_global(
            &Symbol::new("list"),
            Sym::Function(Function::Builtin { name: Symbol::new("list"), op: NativeOp::List }),
        );
        let _ = table.set_global(
            &Symbol::new("append"),
            Sym::Function(
                Function::Builtin { name: Symbol::new("append"), op: NativeOp::Append },
            ),
        );
        let _ = table.set_global(
            &Symbol::new("quote"),
            Sym::Function(Function::Builtin { name: Symbol::new("quote"), op: NativeOp::Quote }),
        );
        let _ = table.set_global(
            &Symbol::new("print"),
            Sym::Function(Function::Builtin { name: Symbol::new("print"), op: NativeOp::Print }),
        );
        let _ = table.set_global(
            &Symbol::new("backquote"),
            Sym::Function(
                Function::Builtin { name: Symbol::new("backquote"), op: NativeOp::Backquote },
            ),
        );
        let _ = table.set_global(
            &Symbol::new("*"),
            Sym::Function(Function::Builtin { name: Symbol::new("*"), op: NativeOp::Mul }),
        );
        let _ = table.set_global(
            &Symbol::new("+"),
            Sym::Function(Function::Builtin { name: Symbol::new("+"), op: NativeOp::Add }),
        );
        let _ = table.set_global(
            &Symbol::new("-"),
            Sym::Function(Function::Builtin { name: Symbol::new("-"), op: NativeOp::Sub }),
        );
        let _ = table.set_global(
            &Symbol::new("/"),
            Sym::Function(Function::Builtin { name: Symbol::new("/"), op: NativeOp::Div }),
        );
        let r = VirtualMachine { symbols: table, output: Vec::new() };
        proof {
            assert(Value::seq_view(r.output@) =~= Seq::<ValModel>::empty());
        }
        r
    }

    /// Evaluate one form against the persistent global table, then fold the
    /// frame's global mutations back in and keep what `print` recorded.
    pub fn eval(&mut self, item: &Value) -> (r: Result<Value, RuntimeError>)
        requires
            old(self).wf(),
            item.wf(),
        ensures
            final(self).wf(),
            ({
                let env0 = EnvModel {
                    table: TableModel {
                        globals: old(self).globals_m(),
                        locals: Map::<Seq<char>, BindModel>::empty(),
                    },
                    output: Seq::empty(),
                };
                let st = eval_m(env0, item@, EVAL_DEPTH as nat);
                &&& final(self).globals_m() == (if st.res is Ok {
                    old(self).globals_m().union_prefer_right(st.env.table.globals)
                } else {
                    old(self).globals_m()
                })
                &&& final(self).output_m() == old(self).output_m() + st.env.output
                &&& res_matches(st.res, r)
            }),
    {
        let table = self.symbols.duplicate();
        let mut ctx = Context::new(table);
        let r = ctx.eval(item, EVAL_DEPTH);
        self.absorb(ctx, r.is_ok());
        r
    }

    /// Evaluate a form as a list, with the same merge-back step.
    pub fn eval_list(&mut self, item: &Value) -> (r: Result<Value, RuntimeError>)
        requires
            old(self).wf(),
            item.wf(),
        ensures
            final(self).wf(),
            ({
                let env0 = EnvModel {
                    table: TableModel {
                        globals: old(self).globals_m(),
                        locals: Map::<Seq<char>, BindModel>::empty(),
                    },
                    output: Seq::empty(),
                };
                let st = eval_list_value_m(env0, item@, EVAL_DEPTH as nat);
                &&& final(self).globals_m() == (if st.res is Ok {
                    old(self).globals_m().union_prefer_right(st.env.table.globals)
                } else {
                    old(self).globals_m()
                })
                &&& final(self).output_m() == old(self).output_m() + st.env.output
                &&& res_matches(st.res, r)
            }),
    {
        let table = self.symbols.duplicate();
        let mut ctx = Context::new(table);
        let r = ctx.eval_list(item, EVAL_DEPTH);
        self.absorb(ctx, r.is_ok());
        r
    }

    /// Evaluate a symbol applied to an argument list, with the same
    /// merge-back step.
    pub fn eval_symbol_function(&mut self, sym: &Symbol, args: &Value) -> (r: Result<
        Value,
        RuntimeError,
    >)
        requires
            old(self).wf(),
            args.wf(),
        ensures
            final(self).wf(),
            ({
                let env0 = EnvModel {
                    table: TableModel {
                        globals: old(self).globals_m(),
                        locals: Map::<Seq<char>, BindModel>::empty(),
                    },
                    output: Seq::empty(),
                };
                let st = eval_symbol_function_m(env0, sym@.name, args@, EVAL_DEPTH as nat);
                &&& final(self).globals_m() == (if st.res is Ok {
                    old(self).globals_m().union_prefer_right(st.env.table.globals)
                } else {
                    old(self).globals_m()
                })
                &&& final(self).output_m() == old(self).output_m() + st.env.output
                &&& res_matches(st.res, r)
            }),
            (match r {
                Result::Err(e) => (if old(self).globals_m().contains_key(sym@.name)
                    && old(self).globals_m()[sym@.name] matches BindModel::Function(_) {
                    e.spec_has_cause()
                } else {
                    true
                }),
                Result::Ok(_) => true,
            }),
    {
        let table = self.symbols.duplicate();
        let mut ctx = Context::new(table);
        let r = ctx.eval_symbol_function(sym, args, EVAL_DEPTH);
        self.absorb(ctx, r.is_ok());
        r
    }

    /// Fold a finished frame back in: keep its recorded output, and, when
    /// the evaluation succeeded, merge its globals into the persistent
    /// table.  A failed evaluation leaves the globals untouched.
    fn absorb(&mut self, ctx: Context, merge: bool)
        requires
            old(self).wf(),
            ctx.wf(),
        ensures
            final(self).wf(),
            final(self).globals_m() == (if merge {
                old(self).globals_m().union_prefer_right(ctx@.table.globals)
            } else {
                old(self).globals_m()
            }),
            final(self).output_m() == old(self).output_m() + ctx@.output,
    {
        let (ctable, mut cout) = ctx.into_parts();
        if merge {
            self.symbols.extend(&ctable);
        }
        proof {
            assert(Value::seq_view(self.output@ + cout@) =~= Value::seq_view(self.output@)
                + Value::seq_view(cout@));
        }
        let ghost pre = self.output@;
        let ghost coutv = cout@;
        self.output.append(&mut cout);
        proof {
            assert(Value::seq_view(self.output@) =~= Value::seq_view(pre) + Value::seq_view(
                coutv,
            ));
            assert forall|j: int| 0 <= j < self.output@.len() implies (#[trigger] self
                .output@[j]).wf() by {
                if j < pre.len() {
                    crate::value::seq_wf_index(pre, j);
                } else {
                    crate::value::seq_wf_index(coutv, j - pre.len());
                }
            }
            crate::value::seq_wf_intro(self.output@);
        }
    }

    /// Parse one form of source text and evaluate it.  Global mutations and
    /// recorded output persist exactly as for `eval`; unreadable text is a
    /// parse failure and changes nothing.
    pub fn eval_string(&mut self, source: &str) -> (r: Result<Value, RuntimeError>)
        requires
            old(self).wf(),
            source@.len() < 0x1000_0000_0000_0000,
        ensures
            final(self).wf(),
            (match crate::parse::parse_source_m(source@) {
                Option::None => {
                    &&& final(self).globals_m() == old(self).globals_m()
                    &&& final(self).output_m() == old(self).output_m()
                    &&& (match r {
                        Result::Ok(_) => false,
                        Result::Err(e) => e@ == ErrorKind::Parse,
                    })
                },
                Option::Some(form) => ({
                    let env0 = EnvModel {
                        table: TableModel {
                            globals: old(self).globals_m(),
                            locals: Map::<Seq<char>, BindModel>::empty(),
                        },
                        output: Seq::empty(),
                    };
                    let st = eval_m(env0, form, EVAL_DEPTH as nat);
                    &&& final(self).globals_m() == (if st.res is Ok {
                        old(self).globals_m().union_prefer_right(st.env.table.globals)
                    } else {
                        old(self).globals_m()
                    })
                    &&& final(self).output_m() == old(self).output_m() + st.env.output
                    &&& res_matches(st.res, r)
                }),
            }),
    {
        match crate::parse::parse(source) {
            Result::Ok(v) => self.eval(&v),
            Result::Err(e) => {
                let mut message = "could not read the input: ".to_owned();
                message.append(e.message());
                Err(RuntimeError::new(ErrorKind::Parse, message))
            },
        }
    }

    /// A complete snapshot of the global table: every bound name appears
    /// exactly once, paired with its current binding read back as data.
    pub fn symbols(&self) -> (r: Vec<(Symbol, Value)>)
        requires
            self.wf(),
        ensures
            forall|j: int| 0 <= j < r@.len() ==> {
                &&& self.globals_m().contains_key((#[trigger] r@[j]).0@.name)
                &&& r@[j].1@ == self.globals_m()[r@[j].0@.name].as_value_m()
                &&& r@[j].1.wf()
            },
            forall|k: Seq<char>| self.globals_m().contains_key(k) ==> exists|j: int|
                0 <= j < r@.len() && (#[trigger] r@[j]).0@.name == k,
            forall|j1: int, j2: int| 0 <= j1 < j2 < r@.len() ==> (#[trigger] r@[j1]).0@.name != (
            #[trigger] r@[j2]).0@.name,
    {
        self.symbols.global_bindings()
    }

    /// Hand over everything `print` recorded, leaving the buffer empty.
    pub fn take_output(&mut self) -> (r: Vec<Value>)
        requires
            old(self).wf(),
        ensures
            final(self).wf(),
            Value::seq_view(r@) == old(self).output_m(),
            Value::seq_wf(r@),
            final(self).output_m() == Seq::<ValModel>::empty(),
            final(self).globals_m() == old(self).globals_m(),
    {
        let r = crate::value::vec_suffix(&self.output, 0);
        proof {
            assert(Value::seq_view(self.output@).subrange(0, self.output@.len() as int)
                =~= Value::seq_view(self.output@));
        }
        self.output.clear();
        proof {
            assert(Value::seq_view(self.output@) =~= Seq::<ValModel>::empty());
        }
        r
    }
}

/// Law: a user-defined call never leaks its parameter bindings into the
/// caller's local scope.  After the call, the locals are exactly the locals
/// left by evaluating the arguments (untouched when the arity check fails):
/// the fresh frame holding the parameters is discarded, whatever the body
/// did and whether the call succeeded or failed.
pub proof fn lemma_defun_call_discards_parameter_scope(
    env: EnvModel,
    name: Seq<char>,
    params: ValModel,
    body: ValModel,
    args: ValModel,
    fuel: nat,
)
    requires
        fuel >= 1,
    ensures
        ({
            let st = call_m(env, FunModel::Defun { name, args: params, body }, args, fuel);
            let m = eval_each_m(env, args.elems(), fuel);
            st.env.table.locals == (if params.elems().len() == args.elems().len() {
                m.env.table.locals
            } else {
                env.table.locals
            })
        }),
{
}

/// Law: evaluating a symbol that is bound nowhere does not fail: the result
/// is the symbol itself, and the only change is that the symbol becomes a
/// self-valued local binding.
pub proof fn lemma_unbound_symbol_self_evaluates(env: EnvModel, name: Seq<char>, fuel: nat)
    requires
        fuel >= 1,
        !env.table.locals.contains_key(name),
        !env.table.globals.contains_key(name),
    ensures
        eval_m(env, ValModel::Sym(name), fuel).res == Result::<ValModel, ErrorKind>::Ok(
            ValModel::Sym(name),
        ),
        eval_m(env, ValModel::Sym(name), fuel).env == bind_self(env, name),
{
}

} // verus!
