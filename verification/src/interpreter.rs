//! The interpreter: the meaning of expressions and statements, given as a
//! step-bounded evaluation, and the functions that carry it out.
//!
//! Every evaluation takes a step budget (`fuel`): a loop iteration and a
//! function call each use one step, and running out of steps is an error.
use vstd::prelude::*;
use crate::ast::{
    boxed_exprs_view, clone_ctors, clone_expr, clone_function, exprs_view, lemma_boxed_exprs_view, lemma_exprs_view,
    lemma_params_view, lemma_stmts_view, opt_stmt_view, stmts_view, ExprV, Expression, FuncSignatureV, FunctionV,
    Statement, StmtV, TypeV,
};
use crate::debug_text::expr_dbg;
use crate::environment::{
    empty_scope, home_in, lookup_in, seq_insert, signature_of, EnvM, Environment, ScopeM, TestResult,
};
use crate::table::seq_move_last;
use crate::tac::TacBinaryOp;
use crate::text::{append_str, concat3, push_char};

verus! {

/// The outcome of evaluating an expression: a value, or an error value that
/// is propagated to the enclosing statement.
pub enum EvalV {
    Value(ExprV),
    Propagate(ExprV),
}

/// The outcome of evaluating a list of expressions left to right.
pub enum ListV {
    Values(Seq<ExprV>),
    Propagated(ExprV),
}

/// The outcome of running a statement: go on with an environment, return a
/// value, or propagate an error value.
pub enum CompV {
    Continue(EnvM<ExprV>),
    Return(ExprV, EnvM<ExprV>),
    PropagateError(ExprV, EnvM<ExprV>),
}

/// The unary operations of evaluation.
#[derive(Clone, Copy, PartialEq, Eq, Structural)]
pub enum UnOp {
    Not,
    MakeOk,
    MakeErr,
    MakeJust,
    Unwrap,
    IsError,
    IsNothing,
    Propagate,
}

// ---------------------------------------------------------------------------
// Messages
// ---------------------------------------------------------------------------

pub open spec fn msg_variable(n: Seq<char>) -> Seq<char> {
    "Variable '"@ + n + "' not found"@
}

pub open spec fn msg_function(n: Seq<char>) -> Seq<char> {
    "Function '"@ + n + "' not found"@
}

pub open spec fn msg_arity(n: Seq<char>) -> Seq<char> {
    "Wrong number of arguments for function '"@ + n + "'"@
}

pub open spec fn msg_no_body(n: Seq<char>) -> Seq<char> {
    "Function '"@ + n + "' has no body"@
}

pub open spec fn msg_immutable(n: Seq<char>) -> Seq<char> {
    "Cannot assign to immutable variable '"@ + n + "'"@
}

pub open spec fn msg_limit() -> Seq<char> {
    "Step limit reached"@
}

pub open spec fn msg_boolean() -> Seq<char> {
    "Condition must evaluate to a boolean"@
}

pub open spec fn msg_assertion() -> Seq<char> {
    "Assertion failed"@
}

pub open spec fn msg_iterate() -> Seq<char> {
    "Cannot iterate over provided expression"@
}

pub open spec fn msg_not_implemented() -> Seq<char> {
    "not implemented yet"@
}

pub open spec fn msg_real() -> Seq<char> {
    "Arithmetic on real numbers is not supported"@
}

pub open spec fn msg_overflow() -> Seq<char> {
    "Integer overflow"@
}

pub open spec fn msg_division_by_zero() -> Seq<char> {
    "Division by zero"@
}

pub open spec fn msg_types(op: Seq<char>) -> Seq<char> {
    "Invalid operand types for '"@ + op + "'"@
}

pub open spec fn msg_compare() -> Seq<char> {
    "Values cannot be compared"@
}

pub open spec fn msg_unwrap() -> Seq<char> {
    "Program panicked trying to unwrap a value"@
}

// ---------------------------------------------------------------------------
// Values and operations on them
// ---------------------------------------------------------------------------

/// A boolean value.
pub open spec fn bool_value(b: bool) -> ExprV {
    if b {
        ExprV::CTrue
    } else {
        ExprV::CFalse
    }
}

/// Data values: constants and containers of data values (functions are not
/// data).
pub open spec fn is_data(e: ExprV) -> bool
    decreases e,
{
    match e {
        ExprV::CTrue | ExprV::CFalse | ExprV::CInt(_) | ExprV::CReal(_) | ExprV::CString(_) | ExprV::CVoid
        | ExprV::CNothing => true,
        ExprV::COk(x) => is_data(*x),
        ExprV::CErr(x) => is_data(*x),
        ExprV::CJust(x) => is_data(*x),
        ExprV::ListValue(v) => all_data(v),
        ExprV::Tuple(v) => all_data(v),
        ExprV::Constructor(_, v) => all_data(v),
        _ => false,
    }
}

/// Every element is a data value.
pub open spec fn all_data(v: Seq<ExprV>) -> bool
    decreases v,
{
    if v.len() == 0 {
        true
    } else {
        all_data(v.drop_last()) && is_data(v.last())
    }
}

/// Equality of values: defined on data values only.
pub open spec fn value_eq(a: ExprV, b: ExprV) -> Option<bool> {
    if is_data(a) && is_data(b) {
        Some(a == b)
    } else {
        None
    }
}

/// An integer result, refused when it does not fit in 32 bits.
pub open spec fn int_result(v: int) -> Result<ExprV, Seq<char>> {
    if i32::MIN <= v <= i32::MAX {
        Ok(ExprV::CInt(v as i32))
    } else {
        Err(msg_overflow())
    }
}

/// Integer division rounding towards zero.
pub open spec fn trunc_div(x: int, y: int) -> int {
    let q = (if x < 0 { -x } else { x }) / (if y < 0 { -y } else { y });
    if (x < 0) != (y < 0) {
        -q
    } else {
        q
    }
}

/// The symbol of a binary operation in messages.
pub open spec fn binop_symbol(op: TacBinaryOp) -> Seq<char> {
    crate::tac::binop_text(op)
}

/// Arithmetic on two values.
pub open spec fn arith(op: TacBinaryOp, a: ExprV, b: ExprV) -> Result<ExprV, Seq<char>> {
    match (a, b) {
        (ExprV::CInt(x), ExprV::CInt(y)) => match op {
            TacBinaryOp::Add => int_result(x + y),
            TacBinaryOp::Sub => int_result(x - y),
            TacBinaryOp::Mul => int_result(x * y),
            _ => if y == 0 {
                Err(msg_division_by_zero())
            } else {
                int_result(trunc_div(x as int, y as int))
            },
        },
        (ExprV::CString(x), ExprV::CString(y)) => if op == TacBinaryOp::Add {
            Ok(ExprV::CString(x + y))
        } else {
            Err(msg_types(binop_symbol(op)))
        },
        (ExprV::CReal(_), _) => Err(msg_real()),
        (_, ExprV::CReal(_)) => Err(msg_real()),
        _ => Err(msg_types(binop_symbol(op))),
    }
}

/// Comparison of two integers.
pub open spec fn compare(op: TacBinaryOp, a: ExprV, b: ExprV) -> Result<ExprV, Seq<char>> {
    match (a, b) {
        (ExprV::CInt(x), ExprV::CInt(y)) => Ok(bool_value(
            match op {
                TacBinaryOp::Gt => x > y,
                TacBinaryOp::Lt => x < y,
                TacBinaryOp::Gte => x >= y,
                _ => x <= y,
            },
        )),
        (ExprV::CReal(_), _) => Err(msg_real()),
        (_, ExprV::CReal(_)) => Err(msg_real()),
        _ => Err(msg_types(binop_symbol(op))),
    }
}

/// Boolean connectives on two values.
pub open spec fn connective(op: TacBinaryOp, a: ExprV, b: ExprV) -> Result<ExprV, Seq<char>> {
    if (a is CTrue || a is CFalse) && (b is CTrue || b is CFalse) {
        let x = a is CTrue;
        let y = b is CTrue;
        Ok(bool_value(if op == TacBinaryOp::And { x && y } else { x || y }))
    } else {
        Err(msg_types(binop_symbol(op)))
    }
}

/// A binary operation on two values.
pub open spec fn apply_binop(op: TacBinaryOp, a: ExprV, b: ExprV) -> Result<ExprV, Seq<char>> {
    match op {
        TacBinaryOp::Add | TacBinaryOp::Sub | TacBinaryOp::Mul | TacBinaryOp::Div => arith(op, a, b),
        TacBinaryOp::Eq => match value_eq(a, b) {
            Some(t) => Ok(bool_value(t)),
            None => Err(msg_compare()),
        },
        TacBinaryOp::Neq => match value_eq(a, b) {
            Some(t) => Ok(bool_value(!t)),
            None => Err(msg_compare()),
        },
        TacBinaryOp::Gt | TacBinaryOp::Lt | TacBinaryOp::Gte | TacBinaryOp::Lte => compare(op, a, b),
        TacBinaryOp::And | TacBinaryOp::Or => connective(op, a, b),
    }
}

/// A unary operation on a value: a value, or an error value to propagate.
pub open spec fn apply_unop(op: UnOp, a: ExprV) -> Result<EvalV, Seq<char>> {
    match op {
        UnOp::Not => match a {
            ExprV::CTrue => Ok(EvalV::Value(ExprV::CFalse)),
            ExprV::CFalse => Ok(EvalV::Value(ExprV::CTrue)),
            _ => Err(msg_types("not"@)),
        },
        UnOp::MakeOk => Ok(EvalV::Value(ExprV::COk(Box::new(a)))),
        UnOp::MakeErr => Ok(EvalV::Value(ExprV::CErr(Box::new(a)))),
        UnOp::MakeJust => Ok(EvalV::Value(ExprV::CJust(Box::new(a)))),
        UnOp::Unwrap => match a {
            ExprV::COk(x) => Ok(EvalV::Value(*x)),
            ExprV::CJust(x) => Ok(EvalV::Value(*x)),
            ExprV::CErr(_) => Err(msg_unwrap()),
            ExprV::CNothing => Err(msg_unwrap()),
            _ => Err(msg_types("unwrap"@)),
        },
        UnOp::IsError => match a {
            ExprV::COk(_) => Ok(EvalV::Value(ExprV::CFalse)),
            ExprV::CErr(_) => Ok(EvalV::Value(ExprV::CTrue)),
            _ => Err(msg_types("isError"@)),
        },
        UnOp::IsNothing => match a {
            ExprV::CJust(_) => Ok(EvalV::Value(ExprV::CFalse)),
            ExprV::CNothing => Ok(EvalV::Value(ExprV::CTrue)),
            _ => Err(msg_types("isNothing"@)),
        },
        UnOp::Propagate => match a {
            ExprV::COk(x) => Ok(EvalV::Value(*x)),
            ExprV::CJust(x) => Ok(EvalV::Value(*x)),
            ExprV::CErr(x) => Ok(EvalV::Propagate(*x)),
            ExprV::CNothing => Ok(EvalV::Propagate(ExprV::CNothing)),
            _ => Err(msg_types("?"@)),
        },
    }
}

/// Combines the evaluations of two operands: the first failure wins.
pub open spec fn combine2(
    ra: Result<EvalV, Seq<char>>,
    rb: Result<EvalV, Seq<char>>,
    op: TacBinaryOp,
) -> Result<EvalV, Seq<char>> {
    match ra {
        Err(x) => Err(x),
        Ok(EvalV::Propagate(x)) => Ok(EvalV::Propagate(x)),
        Ok(EvalV::Value(a)) => match rb {
            Err(x) => Err(x),
            Ok(EvalV::Propagate(x)) => Ok(EvalV::Propagate(x)),
            Ok(EvalV::Value(b)) => match apply_binop(op, a, b) {
                Ok(v) => Ok(EvalV::Value(v)),
                Err(x) => Err(x),
            },
        },
    }
}

/// Applies a unary operation to the evaluation of its operand.
pub open spec fn combine1(ra: Result<EvalV, Seq<char>>, op: UnOp) -> Result<EvalV, Seq<char>> {
    match ra {
        Err(x) => Err(x),
        Ok(EvalV::Propagate(x)) => Ok(EvalV::Propagate(x)),
        Ok(EvalV::Value(a)) => apply_unop(op, a),
    }
}

/// The value built from the evaluated elements of a list, a tuple or a
/// constructor application `e`.
pub open spec fn rebuild(e: ExprV, vs: Seq<ExprV>) -> ExprV {
    match e {
        ExprV::Tuple(_) => ExprV::Tuple(vs),
        ExprV::Constructor(n, _) => ExprV::Constructor(n, vs),
        _ => ExprV::ListValue(vs),
    }
}

/// Wraps the evaluation of the elements of `e`.
pub open spec fn wrap_list(rl: Result<ListV, Seq<char>>, e: ExprV) -> Result<EvalV, Seq<char>> {
    match rl {
        Err(x) => Err(x),
        Ok(ListV::Propagated(x)) => Ok(EvalV::Propagate(x)),
        Ok(ListV::Values(vs)) => Ok(EvalV::Value(rebuild(e, vs))),
    }
}

/// Binds the parameters of a function to the argument values, left to right.
pub open spec fn bind_params(m: EnvM<ExprV>, params: Seq<(Seq<char>, TypeV)>, vs: Seq<ExprV>) -> EnvM<ExprV>
    decreases params.len(),
{
    if params.len() == 0 || vs.len() == 0 {
        m
    } else {
        bind_params(m, params.drop_last(), vs.drop_last()).declare(params.last().0, true, vs.last())
    }
}

/// What a call yields from the run of the function's body: the returned
/// value, `void` when the body ends without `return`, or the propagated
/// error value.
pub open spec fn call_outcome(r: Result<CompV, Seq<char>>) -> Result<EvalV, Seq<char>> {
    match r {
        Err(x) => Err(x),
        Ok(CompV::Return(v, _)) => Ok(EvalV::Value(v)),
        Ok(CompV::Continue(_)) => Ok(EvalV::Value(ExprV::CVoid)),
        Ok(CompV::PropagateError(x, _)) => Ok(EvalV::Propagate(x)),
    }
}

/// The items a `for` loop runs over: the elements of a list, a tuple or a
/// constructor application, or the characters of a string (each as a string).
pub open spec fn iter_items(coll: ExprV) -> Option<Seq<ExprV>> {
    match coll {
        ExprV::ListValue(v) => Some(v),
        ExprV::Tuple(v) => Some(v),
        ExprV::Constructor(_, v) => Some(v),
        ExprV::CString(s) => Some(s.map_values(|c: char| ExprV::CString(seq![c]))),
        _ => None,
    }
}

/// Brings back the binding a loop variable had before an iteration.
pub open spec fn restore(m: EnvM<ExprV>, k: Seq<char>, prev: Option<(bool, ExprV)>) -> EnvM<ExprV> {
    match prev {
        Some(b) => m.declare(k, b.0, b.1),
        None => m,
    }
}

/// The outcome of an assertion whose condition evaluated to `rc` and whose
/// message evaluates to `rm`: it holds when the condition is `expected`.
pub open spec fn assert_outcome(
    rc: Result<EvalV, Seq<char>>,
    expected: bool,
    rm: Result<EvalV, Seq<char>>,
    m: EnvM<ExprV>,
) -> Result<CompV, Seq<char>> {
    match rc {
        Err(x) => Err(x),
        Ok(EvalV::Propagate(x)) => Ok(CompV::PropagateError(x, m)),
        Ok(EvalV::Value(v)) => if v is CTrue || v is CFalse {
            if (v is CTrue) == expected {
                Ok(CompV::Continue(m))
            } else {
                match rm {
                    Err(x) => Err(x),
                    Ok(EvalV::Propagate(x)) => Ok(CompV::PropagateError(x, m)),
                    Ok(EvalV::Value(ExprV::CString(s))) => Err(s),
                    Ok(EvalV::Value(_)) => Err(msg_assertion()),
                }
            }
        } else {
            Err(msg_boolean())
        },
    }
}

// ---------------------------------------------------------------------------
// Evaluation and execution
// ---------------------------------------------------------------------------

/// The evaluation of an expression in an environment with a step budget.
#[verifier::opaque]
pub open spec fn eval_spec(e: ExprV, m: EnvM<ExprV>, fuel: nat) -> Result<EvalV, Seq<char>>
    decreases fuel, e, 0int,
{
    match e {
        ExprV::Var(n) => match m.lookup(n) {
            Some(b) => Ok(EvalV::Value(b.1)),
            None => Err(msg_variable(n)),
        },
        ExprV::Add(l, r) => combine2(eval_spec(*l, m, fuel), eval_spec(*r, m, fuel), TacBinaryOp::Add),
        ExprV::Sub(l, r) => combine2(eval_spec(*l, m, fuel), eval_spec(*r, m, fuel), TacBinaryOp::Sub),
        ExprV::Mul(l, r) => combine2(eval_spec(*l, m, fuel), eval_spec(*r, m, fuel), TacBinaryOp::Mul),
        ExprV::Div(l, r) => combine2(eval_spec(*l, m, fuel), eval_spec(*r, m, fuel), TacBinaryOp::Div),
        ExprV::And(l, r) => combine2(eval_spec(*l, m, fuel), eval_spec(*r, m, fuel), TacBinaryOp::And),
        ExprV::Or(l, r) => combine2(eval_spec(*l, m, fuel), eval_spec(*r, m, fuel), TacBinaryOp::Or),
        ExprV::EQ(l, r) => combine2(eval_spec(*l, m, fuel), eval_spec(*r, m, fuel), TacBinaryOp::Eq),
        ExprV::NEQ(l, r) => combine2(eval_spec(*l, m, fuel), eval_spec(*r, m, fuel), TacBinaryOp::Neq),
        ExprV::GT(l, r) => combine2(eval_spec(*l, m, fuel), eval_spec(*r, m, fuel), TacBinaryOp::Gt),
        ExprV::LT(l, r) => combine2(eval_spec(*l, m, fuel), eval_spec(*r, m, fuel), TacBinaryOp::Lt),
        ExprV::GTE(l, r) => combine2(eval_spec(*l, m, fuel), eval_spec(*r, m, fuel), TacBinaryOp::Gte),
        ExprV::LTE(l, r) => combine2(eval_spec(*l, m, fuel), eval_spec(*r, m, fuel), TacBinaryOp::Lte),
        ExprV::Not(x) => combine1(eval_spec(*x, m, fuel), UnOp::Not),
        ExprV::COk(x) => combine1(eval_spec(*x, m, fuel), UnOp::MakeOk),
        ExprV::CErr(x) => combine1(eval_spec(*x, m, fuel), UnOp::MakeErr),
        ExprV::CJust(x) => combine1(eval_spec(*x, m, fuel), UnOp::MakeJust),
        ExprV::Unwrap(x) => combine1(eval_spec(*x, m, fuel), UnOp::Unwrap),
        ExprV::IsError(x) => combine1(eval_spec(*x, m, fuel), UnOp::IsError),
        ExprV::IsNothing(x) => combine1(eval_spec(*x, m, fuel), UnOp::IsNothing),
        ExprV::Propagate(x) => combine1(eval_spec(*x, m, fuel), UnOp::Propagate),
        ExprV::ListValue(v) => wrap_list(eval_list_spec(v, m, fuel), e),
        ExprV::Tuple(v) => wrap_list(eval_list_spec(v, m, fuel), e),
        ExprV::Constructor(_, v) => wrap_list(eval_list_spec(v, m, fuel), e),
        ExprV::FuncCall(name, args) => match eval_list_spec(args, m, fuel) {
            Err(x) => Err(x),
            Ok(ListV::Propagated(x)) => Ok(EvalV::Propagate(x)),
            Ok(ListV::Values(vs)) => match m.function_named(name) {
                None => Err(msg_function(name)),
                Some(f) => if vs.len() != f.params.len() {
                    Err(msg_arity(name))
                } else if fuel == 0 {
                    Err(msg_limit())
                } else {
                    match f.body {
                        None => Err(msg_no_body(name)),
                        Some(b) => call_outcome(
                            exec_spec(*b, bind_params(m.push(), f.params, vs), (fuel - 1) as nat),
                        ),
                    }
                },
            },
        },
        _ => Ok(EvalV::Value(e)),
    }
}

/// The evaluation of a list of expressions, left to right; the first
/// failure wins.
#[verifier::opaque]
pub open spec fn eval_list_spec(es: Seq<ExprV>, m: EnvM<ExprV>, fuel: nat) -> Result<ListV, Seq<char>>
    decreases fuel, es, 0int,
{
    if es.len() == 0 {
        Ok(ListV::Values(seq![]))
    } else {
        match eval_list_spec(es.drop_last(), m, fuel) {
            Err(x) => Err(x),
            Ok(ListV::Propagated(x)) => Ok(ListV::Propagated(x)),
            Ok(ListV::Values(vs)) => match eval_spec(es.last(), m, fuel) {
                Err(x) => Err(x),
                Ok(EvalV::Propagate(x)) => Ok(ListV::Propagated(x)),
                Ok(EvalV::Value(v)) => Ok(ListV::Values(vs.push(v))),
            },
        }
    }
}

/// The run of a statement in an environment with a step budget.
#[verifier::opaque]
pub open spec fn exec_spec(s: StmtV, m: EnvM<ExprV>, fuel: nat) -> Result<CompV, Seq<char>>
    decreases fuel, s, 0int,
{
    match s {
        StmtV::VarDeclaration(n, e) => match eval_spec(e, m, fuel) {
            Err(x) => Err(x),
            Ok(EvalV::Propagate(x)) => Ok(CompV::PropagateError(x, m)),
            Ok(EvalV::Value(v)) => Ok(CompV::Continue(m.declare(n, true, v))),
        },
        StmtV::ValDeclaration(n, e) => match eval_spec(e, m, fuel) {
            Err(x) => Err(x),
            Ok(EvalV::Propagate(x)) => Ok(CompV::PropagateError(x, m)),
            Ok(EvalV::Value(v)) => Ok(CompV::Continue(m.declare(n, false, v))),
        },
        StmtV::Assignment(n, e) => match e {
            ExprV::Lambda(f) => Ok(CompV::Continue(
                m.define_function(FunctionV { name: n, kind: f.kind, params: f.params, body: f.body }),
            )),
            _ => match eval_spec(e, m, fuel) {
                Err(x) => Err(x),
                Ok(EvalV::Propagate(x)) => Ok(CompV::PropagateError(x, m)),
                Ok(EvalV::Value(v)) => match m.lookup(n) {
                    Some(b) => if !b.0 {
                        Ok(CompV::PropagateError(ExprV::CString(msg_immutable(n)), m))
                    } else {
                        Ok(CompV::Continue(m.update(n, v)))
                    },
                    None => Ok(CompV::Continue(m.declare(n, true, v))),
                },
            },
        },
        StmtV::Assert(c, msg) => assert_outcome(eval_spec(c, m, fuel), true, eval_spec(msg, m, fuel), m),
        StmtV::AssertTrue(c, msg) => assert_outcome(eval_spec(c, m, fuel), true, eval_spec(msg, m, fuel), m),
        StmtV::AssertFalse(c, msg) => assert_outcome(eval_spec(c, m, fuel), false, eval_spec(msg, m, fuel), m),
        StmtV::AssertEQ(a, b, msg) => assert_outcome(
            combine2(eval_spec(a, m, fuel), eval_spec(b, m, fuel), TacBinaryOp::Eq),
            true,
            eval_spec(msg, m, fuel),
            m,
        ),
        StmtV::AssertNEQ(a, b, msg) => assert_outcome(
            combine2(eval_spec(a, m, fuel), eval_spec(b, m, fuel), TacBinaryOp::Neq),
            true,
            eval_spec(msg, m, fuel),
            m,
        ),
        StmtV::IfThenElse(c, th, el) => match eval_spec(c, m, fuel) {
            Err(x) => Err(x),
            Ok(EvalV::Propagate(x)) => Ok(CompV::PropagateError(x, m)),
            Ok(EvalV::Value(v)) => match v {
                ExprV::CTrue => exec_spec(*th, m, fuel),
                ExprV::CFalse => match el {
                    Some(e) => exec_spec(*e, m, fuel),
                    None => Ok(CompV::Continue(m)),
                },
                _ => Err(msg_boolean()),
            },
        },
        StmtV::Block(ss) => block_spec(ss, 0, m, fuel),
        StmtV::While(c, b) => if fuel == 0 {
            Err(msg_limit())
        } else {
            match eval_spec(c, m, fuel) {
                Err(x) => Err(x),
                Ok(EvalV::Propagate(x)) => Ok(CompV::PropagateError(x, m)),
                Ok(EvalV::Value(v)) => match v {
                    ExprV::CTrue => match exec_spec(*b, m, (fuel - 1) as nat) {
                        Ok(CompV::Continue(m2)) => exec_spec(s, m2, (fuel - 1) as nat),
                        other => other,
                    },
                    ExprV::CFalse => Ok(CompV::Continue(m)),
                    _ => Err(msg_boolean()),
                },
            }
        },
        StmtV::For(v, e, b) => match eval_spec(e, m, fuel) {
            Err(x) => Err(x),
            Ok(EvalV::Propagate(x)) => Ok(CompV::PropagateError(x, m)),
            Ok(EvalV::Value(coll)) => match iter_items(coll) {
                Some(items) => for_spec(v, items, 0, *b, m, fuel),
                None => Err(msg_iterate()),
            },
        },
        StmtV::Sequence(a, b) => match exec_spec(*a, m, fuel) {
            Ok(CompV::Continue(m2)) => exec_spec(*b, m2, fuel),
            other => other,
        },
        StmtV::FuncDef(f) => Ok(CompV::Continue(m.define_function(f))),
        StmtV::TestDef(f) => Ok(CompV::Continue(m.define_test(f))),
        StmtV::Return(e) => match eval_spec(e, m, fuel) {
            Err(x) => Err(x),
            Ok(EvalV::Propagate(x)) => Ok(CompV::PropagateError(x, m)),
            Ok(EvalV::Value(v)) => Ok(CompV::Return(v, m)),
        },
        StmtV::TypeDeclaration(n, cs) => Ok(CompV::Continue(m.define_adt(n, cs))),
        _ => Err(msg_not_implemented()),
    }
}

/// The run of the statements of a block from the `i`-th on.
#[verifier::opaque]
pub open spec fn block_spec(ss: Seq<StmtV>, i: int, m: EnvM<ExprV>, fuel: nat) -> Result<CompV, Seq<char>>
    decreases fuel, ss, ss.len() - i,
{
    if i < 0 || i >= ss.len() {
        Ok(CompV::Continue(m))
    } else {
        match exec_spec(ss[i], m, fuel) {
            Ok(CompV::Continue(m2)) => block_spec(ss, i + 1, m2, fuel),
            other => other,
        }
    }
}

/// The run of a `for` loop's body over its items from the `i`-th on: the
/// variable is bound to each item (immutably) for one run of the body, and
/// any binding it had before comes back after each run.
#[verifier::opaque]
pub open spec fn for_spec(
    v: Seq<char>,
    items: Seq<ExprV>,
    i: int,
    body: StmtV,
    m: EnvM<ExprV>,
    fuel: nat,
) -> Result<CompV, Seq<char>>
    decreases fuel, body, items.len() - i,
{
    if i < 0 || i >= items.len() {
        Ok(CompV::Continue(m))
    } else {
        let prev = m.lookup(v);
        match exec_spec(body, m.declare(v, false, items[i]), fuel) {
            Ok(CompV::Continue(m2)) => for_spec(v, items, i + 1, body, restore(m2.remove(v), v, prev), fuel),
            other => other,
        }
    }
}

} // verus!

verus! {

/// The binary expressions.
pub open spec fn is_binary(e: ExprV) -> bool {
    ||| e is Add
    ||| e is Sub
    ||| e is Mul
    ||| e is Div
    ||| e is And
    ||| e is Or
    ||| e is EQ
    ||| e is NEQ
    ||| e is GT
    ||| e is LT
    ||| e is GTE
    ||| e is LTE
}

/// The operands and operation of a binary expression.
pub open spec fn binary_parts(e: ExprV) -> (ExprV, ExprV, TacBinaryOp) {
    match e {
        ExprV::Add(l, r) => (*l, *r, TacBinaryOp::Add),
        ExprV::Sub(l, r) => (*l, *r, TacBinaryOp::Sub),
        ExprV::Mul(l, r) => (*l, *r, TacBinaryOp::Mul),
        ExprV::Div(l, r) => (*l, *r, TacBinaryOp::Div),
        ExprV::And(l, r) => (*l, *r, TacBinaryOp::And),
        ExprV::Or(l, r) => (*l, *r, TacBinaryOp::Or),
        ExprV::EQ(l, r) => (*l, *r, TacBinaryOp::Eq),
        ExprV::NEQ(l, r) => (*l, *r, TacBinaryOp::Neq),
        ExprV::GT(l, r) => (*l, *r, TacBinaryOp::Gt),
        ExprV::LT(l, r) => (*l, *r, TacBinaryOp::Lt),
        ExprV::GTE(l, r) => (*l, *r, TacBinaryOp::Gte),
        ExprV::LTE(l, r) => (*l, *r, TacBinaryOp::Lte),
        _ => (e, e, TacBinaryOp::Add),
    }
}

/// The unary expressions.
pub open spec fn is_unary(e: ExprV) -> bool {
    ||| e is Not
    ||| e is COk
    ||| e is CErr
    ||| e is CJust
    ||| e is Unwrap
    ||| e is IsError
    ||| e is IsNothing
    ||| e is Propagate
}

/// The operand and operation of a unary expression.
pub open spec fn unary_parts(e: ExprV) -> (ExprV, UnOp) {
    match e {
        ExprV::Not(x) => (*x, UnOp::Not),
        ExprV::COk(x) => (*x, UnOp::MakeOk),
        ExprV::CErr(x) => (*x, UnOp::MakeErr),
        ExprV::CJust(x) => (*x, UnOp::MakeJust),
        ExprV::Unwrap(x) => (*x, UnOp::Unwrap),
        ExprV::IsError(x) => (*x, UnOp::IsError),
        ExprV::IsNothing(x) => (*x, UnOp::IsNothing),
        ExprV::Propagate(x) => (*x, UnOp::Propagate),
        _ => (e, UnOp::Not),
    }
}

/// The elements of a list, a tuple or a constructor application.
pub open spec fn items_of(e: ExprV) -> Seq<ExprV> {
    match e {
        ExprV::ListValue(v) => v,
        ExprV::Tuple(v) => v,
        ExprV::Constructor(_, v) => v,
        _ => seq![],
    }
}

/// Constants, functions and variables evaluate in one step.
pub proof fn lemma_eval_leaf(e: ExprV, m: EnvM<ExprV>, fuel: nat)
    requires
        !is_binary(e),
        !is_unary(e),
        !(e is ListValue || e is Tuple || e is Constructor || e is FuncCall),
    ensures
        eval_spec(e, m, fuel) == (match e {
            ExprV::Var(n) => match m.lookup(n) {
                Some(b) => Ok(EvalV::Value(b.1)),
                None => Err(msg_variable(n)),
            },
            _ => Ok(EvalV::Value(e)),
        }),
{
    reveal(eval_spec);
    reveal(eval_list_spec);
    reveal(exec_spec);
    reveal(block_spec);
    reveal(for_spec);
}

/// A binary expression evaluates its operands left to right, then applies
/// its operation.
pub proof fn lemma_eval_binary(e: ExprV, m: EnvM<ExprV>, fuel: nat)
    requires
        is_binary(e),
    ensures
        eval_spec(e, m, fuel) == combine2(
            eval_spec(binary_parts(e).0, m, fuel),
            eval_spec(binary_parts(e).1, m, fuel),
            binary_parts(e).2,
        ),
{
    reveal(eval_spec);
    reveal(eval_list_spec);
    reveal(exec_spec);
    reveal(block_spec);
    reveal(for_spec);
}

/// A unary expression evaluates its operand, then applies its operation.
pub proof fn lemma_eval_unary(e: ExprV, m: EnvM<ExprV>, fuel: nat)
    requires
        is_unary(e),
    ensures
        eval_spec(e, m, fuel) == combine1(eval_spec(unary_parts(e).0, m, fuel), unary_parts(e).1),
{
    reveal(eval_spec);
    reveal(eval_list_spec);
    reveal(exec_spec);
    reveal(block_spec);
    reveal(for_spec);
}

/// A list, a tuple or a constructor application evaluates its elements left
/// to right.
pub proof fn lemma_eval_items(e: ExprV, m: EnvM<ExprV>, fuel: nat)
    requires
        e is ListValue || e is Tuple || e is Constructor,
    ensures
        eval_spec(e, m, fuel) == wrap_list(eval_list_spec(items_of(e), m, fuel), e),
{
    reveal(eval_spec);
    reveal(eval_list_spec);
    reveal(exec_spec);
    reveal(block_spec);
    reveal(for_spec);
}

/// A call evaluates its arguments, finds the function by name, and runs its
/// body in a new scope binding the parameters, with one step less.
pub proof fn lemma_eval_call(name: Seq<char>, args: Seq<ExprV>, m: EnvM<ExprV>, fuel: nat)
    ensures
        eval_spec(ExprV::FuncCall(name, args), m, fuel) == (match eval_list_spec(args, m, fuel) {
            Err(x) => Err(x),
            Ok(ListV::Propagated(x)) => Ok(EvalV::Propagate(x)),
            Ok(ListV::Values(vs)) => match m.function_named(name) {
                None => Err(msg_function(name)),
                Some(f) => if vs.len() != f.params.len() {
                    Err(msg_arity(name))
                } else if fuel == 0 {
                    Err(msg_limit())
                } else {
                    match f.body {
                        None => Err(msg_no_body(name)),
                        Some(b) => call_outcome(
                            exec_spec(*b, bind_params(m.push(), f.params, vs), (fuel - 1) as nat),
                        ),
                    }
                },
            },
        }),
{
    reveal(eval_spec);
    reveal(eval_list_spec);
    reveal(exec_spec);
    reveal(block_spec);
    reveal(for_spec);
}

/// An empty list evaluates to no values.
pub proof fn lemma_eval_list_empty(es: Seq<ExprV>, m: EnvM<ExprV>, fuel: nat)
    requires
        es.len() == 0,
    ensures
        eval_list_spec(es, m, fuel) == Ok::<ListV, Seq<char>>(ListV::Values(seq![])),
{
    reveal(eval_spec);
    reveal(eval_list_spec);
    reveal(exec_spec);
    reveal(block_spec);
    reveal(for_spec);
}

/// A list evaluates its front, then its last element.
pub proof fn lemma_eval_list_push(es: Seq<ExprV>, m: EnvM<ExprV>, fuel: nat)
    requires
        es.len() > 0,
    ensures
        eval_list_spec(es, m, fuel) == (match eval_list_spec(es.drop_last(), m, fuel) {
            Err(x) => Err(x),
            Ok(ListV::Propagated(x)) => Ok(ListV::Propagated(x)),
            Ok(ListV::Values(vs)) => match eval_spec(es.last(), m, fuel) {
                Err(x) => Err(x),
                Ok(EvalV::Propagate(x)) => Ok(ListV::Propagated(x)),
                Ok(EvalV::Value(v)) => Ok(ListV::Values(vs.push(v))),
            },
        }),
{
    reveal(eval_spec);
    reveal(eval_list_spec);
    reveal(exec_spec);
    reveal(block_spec);
    reveal(for_spec);
}

/// Once a prefix of a list fails, the whole list fails the same way.
pub proof fn lemma_eval_list_stops(es: Seq<ExprV>, i: int, m: EnvM<ExprV>, fuel: nat)
    requires
        0 <= i <= es.len(),
        !(eval_list_spec(es.subrange(0, i), m, fuel) is Ok && eval_list_spec(es.subrange(0, i), m, fuel)->Ok_0 is Values),
    ensures
        eval_list_spec(es, m, fuel) == eval_list_spec(es.subrange(0, i), m, fuel),
    decreases es.len() - i,
{
    if i < es.len() {
        let next = es.subrange(0, i + 1);
        assert(next.drop_last() =~= es.subrange(0, i));
        lemma_eval_list_push(next, m, fuel);
        lemma_eval_list_stops(es, i + 1, m, fuel);
    } else {
        assert(es.subrange(0, i) =~= es);
    }
}

/// The statements other than loops, conditionals, blocks and sequences.
pub proof fn lemma_exec_simple(s: StmtV, m: EnvM<ExprV>, fuel: nat)
    requires
        !(s is IfThenElse || s is Block || s is While || s is For || s is Sequence),
    ensures
        exec_spec(s, m, fuel) == (match s {
            StmtV::VarDeclaration(n, e) => match eval_spec(e, m, fuel) {
                Err(x) => Err(x),
                Ok(EvalV::Propagate(x)) => Ok(CompV::PropagateError(x, m)),
                Ok(EvalV::Value(v)) => Ok(CompV::Continue(m.declare(n, true, v))),
            },
            StmtV::ValDeclaration(n, e) => match eval_spec(e, m, fuel) {
                Err(x) => Err(x),
                Ok(EvalV::Propagate(x)) => Ok(CompV::PropagateError(x, m)),
                Ok(EvalV::Value(v)) => Ok(CompV::Continue(m.declare(n, false, v))),
            },
            StmtV::Assignment(n, e) => match e {
                ExprV::Lambda(f) => Ok(CompV::Continue(
                    m.define_function(FunctionV { name: n, kind: f.kind, params: f.params, body: f.body }),
                )),
                _ => match eval_spec(e, m, fuel) {
                    Err(x) => Err(x),
                    Ok(EvalV::Propagate(x)) => Ok(CompV::PropagateError(x, m)),
                    Ok(EvalV::Value(v)) => match m.lookup(n) {
                        Some(b) => if !b.0 {
                            Ok(CompV::PropagateError(ExprV::CString(msg_immutable(n)), m))
                        } else {
                            Ok(CompV::Continue(m.update(n, v)))
                        },
                        None => Ok(CompV::Continue(m.declare(n, true, v))),
                    },
                },
            },
            StmtV::Assert(c, msg) => assert_outcome(eval_spec(c, m, fuel), true, eval_spec(msg, m, fuel), m),
            StmtV::AssertTrue(c, msg) => assert_outcome(eval_spec(c, m, fuel), true, eval_spec(msg, m, fuel), m),
            StmtV::AssertFalse(c, msg) => assert_outcome(eval_spec(c, m, fuel), false, eval_spec(msg, m, fuel), m),
            StmtV::AssertEQ(a, b, msg) => assert_outcome(
                combine2(eval_spec(a, m, fuel), eval_spec(b, m, fuel), TacBinaryOp::Eq),
                true,
                eval_spec(msg, m, fuel),
                m,
            ),
            StmtV::AssertNEQ(a, b, msg) => assert_outcome(
                combine2(eval_spec(a, m, fuel), eval_spec(b, m, fuel), TacBinaryOp::Neq),
                true,
                eval_spec(msg, m, fuel),
                m,
            ),
            StmtV::FuncDef(f) => Ok(CompV::Continue(m.define_function(f))),
            StmtV::TestDef(f) => Ok(CompV::Continue(m.define_test(f))),
            StmtV::Return(e) => match eval_spec(e, m, fuel) {
                Err(x) => Err(x),
                Ok(EvalV::Propagate(x)) => Ok(CompV::PropagateError(x, m)),
                Ok(EvalV::Value(v)) => Ok(CompV::Return(v, m)),
            },
            StmtV::TypeDeclaration(n, cs) => Ok(CompV::Continue(m.define_adt(n, cs))),
            _ => Err(msg_not_implemented()),
        }),
{
    reveal(eval_spec);
    reveal(eval_list_spec);
    reveal(exec_spec);
    reveal(block_spec);
    reveal(for_spec);
}

/// A conditional runs the branch its condition selects.
pub proof fn lemma_exec_if(c: ExprV, th: StmtV, el: Option<Box<StmtV>>, m: EnvM<ExprV>, fuel: nat)
    ensures
        exec_spec(StmtV::IfThenElse(c, Box::new(th), el), m, fuel) == (match eval_spec(c, m, fuel) {
            Err(x) => Err(x),
            Ok(EvalV::Propagate(x)) => Ok(CompV::PropagateError(x, m)),
            Ok(EvalV::Value(v)) => match v {
                ExprV::CTrue => exec_spec(th, m, fuel),
                ExprV::CFalse => match el {
                    Some(e) => exec_spec(*e, m, fuel),
                    None => Ok(CompV::Continue(m)),
                },
                _ => Err(msg_boolean()),
            },
        }),
{
    reveal(eval_spec);
    reveal(eval_list_spec);
    reveal(exec_spec);
    reveal(block_spec);
    reveal(for_spec);
}

/// A block runs its statements in order.
pub proof fn lemma_exec_block(ss: Seq<StmtV>, m: EnvM<ExprV>, fuel: nat)
    ensures
        exec_spec(StmtV::Block(ss), m, fuel) == block_spec(ss, 0, m, fuel),
{
    reveal(eval_spec);
    reveal(eval_list_spec);
    reveal(exec_spec);
    reveal(block_spec);
    reveal(for_spec);
}

/// A sequence runs its first statement, then, if that goes on, its second.
pub proof fn lemma_exec_sequence(a: StmtV, b: StmtV, m: EnvM<ExprV>, fuel: nat)
    ensures
        exec_spec(StmtV::Sequence(Box::new(a), Box::new(b)), m, fuel) == (match exec_spec(a, m, fuel) {
            Ok(CompV::Continue(m2)) => exec_spec(b, m2, fuel),
            other => other,
        }),
{
    reveal(eval_spec);
    reveal(eval_list_spec);
    reveal(exec_spec);
    reveal(block_spec);
    reveal(for_spec);
}

/// A `while` loop: one test, then the body and the loop again, each with one
/// step less.
pub proof fn lemma_exec_while(c: ExprV, b: StmtV, m: EnvM<ExprV>, fuel: nat)
    ensures
        exec_spec(StmtV::While(c, Box::new(b)), m, fuel) == (if fuel == 0 {
            Err(msg_limit())
        } else {
            match eval_spec(c, m, fuel) {
                Err(x) => Err(x),
                Ok(EvalV::Propagate(x)) => Ok(CompV::PropagateError(x, m)),
                Ok(EvalV::Value(v)) => match v {
                    ExprV::CTrue => match exec_spec(b, m, (fuel - 1) as nat) {
                        Ok(CompV::Continue(m2)) => exec_spec(
                            StmtV::While(c, Box::new(b)),
                            m2,
                            (fuel - 1) as nat,
                        ),
                        other => other,
                    },
                    ExprV::CFalse => Ok(CompV::Continue(m)),
                    _ => Err(msg_boolean()),
                },
            }
        }),
{
    reveal(eval_spec);
    reveal(eval_list_spec);
    reveal(exec_spec);
    reveal(block_spec);
    reveal(for_spec);
}

/// A `for` loop evaluates its collection, then runs its body over the items.
pub proof fn lemma_exec_for(v: Seq<char>, e: ExprV, b: StmtV, m: EnvM<ExprV>, fuel: nat)
    ensures
        exec_spec(StmtV::For(v, e, Box::new(b)), m, fuel) == (match eval_spec(e, m, fuel) {
            Err(x) => Err(x),
            Ok(EvalV::Propagate(x)) => Ok(CompV::PropagateError(x, m)),
            Ok(EvalV::Value(coll)) => match iter_items(coll) {
                Some(items) => for_spec(v, items, 0, b, m, fuel),
                None => Err(msg_iterate()),
            },
        }),
{
    reveal(eval_spec);
    reveal(eval_list_spec);
    reveal(exec_spec);
    reveal(block_spec);
    reveal(for_spec);
}

/// One statement of a block.
pub proof fn lemma_block_step(ss: Seq<StmtV>, i: int, m: EnvM<ExprV>, fuel: nat)
    ensures
        block_spec(ss, i, m, fuel) == (if i < 0 || i >= ss.len() {
            Ok(CompV::Continue(m))
        } else {
            match exec_spec(ss[i], m, fuel) {
                Ok(CompV::Continue(m2)) => block_spec(ss, i + 1, m2, fuel),
                other => other,
            }
        }),
{
    reveal(eval_spec);
    reveal(eval_list_spec);
    reveal(exec_spec);
    reveal(block_spec);
    reveal(for_spec);
}

/// One item of a `for` loop.
pub proof fn lemma_for_step(v: Seq<char>, items: Seq<ExprV>, i: int, body: StmtV, m: EnvM<ExprV>, fuel: nat)
    ensures
        for_spec(v, items, i, body, m, fuel) == (if i < 0 || i >= items.len() {
            Ok(CompV::Continue(m))
        } else {
            let prev = m.lookup(v);
            match exec_spec(body, m.declare(v, false, items[i]), fuel) {
                Ok(CompV::Continue(m2)) => for_spec(v, items, i + 1, body, restore(m2.remove(v), v, prev), fuel),
                other => other,
            }
        }),
{
    reveal(eval_spec);
    reveal(eval_list_spec);
    reveal(exec_spec);
    reveal(block_spec);
    reveal(for_spec);
}

} // verus!

verus! {

/// A data value is made of data values.
proof fn lemma_all_data(v: Seq<ExprV>)
    ensures
        all_data(v) <==> forall|i: int| 0 <= i < v.len() ==> #[trigger] is_data(v[i]),
    decreases v.len(),
{
    if v.len() > 0 {
        lemma_all_data(v.drop_last());
        if all_data(v) {
            assert forall|i: int| 0 <= i < v.len() implies #[trigger] is_data(v[i]) by {
                if i < v.len() - 1 {
                    assert(v.drop_last()[i] == v[i]);
                }
            }
        }
        if forall|i: int| 0 <= i < v.len() ==> #[trigger] is_data(v[i]) {
            assert forall|i: int| 0 <= i < v.drop_last().len() implies #[trigger] is_data(v.drop_last()[i]) by {
                assert(v.drop_last()[i] == v[i]);
            }
            assert(is_data(v[v.len() - 1]));
        } else {
            let k = choose|i: int| 0 <= i < v.len() && !is_data(#[trigger] v[i]);
            if k < v.len() - 1 {
                assert(v.drop_last()[k] == v[k]);
            }
        }
    }
}

/// Whether a value is a data value.
fn is_data_value(e: &Expression) -> (r: bool)
    ensures
        r == is_data(e@),
    decreases e, 1int,
{
    match e {
        Expression::CTrue | Expression::CFalse | Expression::CInt(_) | Expression::CReal(_)
        | Expression::CString(_) | Expression::CVoid | Expression::CNothing => true,
        Expression::COk(x) | Expression::CErr(x) | Expression::CJust(x) => is_data_value(x),
        Expression::ListValue(v) | Expression::Tuple(v) => all_data_values(v),
        Expression::Constructor(_, v) => all_boxed_data_values(v),
        _ => false,
    }
}

/// Whether all boxed elements are data values.
fn all_boxed_data_values(v: &Vec<Box<Expression>>) -> (r: bool)
    ensures
        r == all_data(boxed_exprs_view(v@)),
    decreases v@, 0int,
{
    proof {
        lemma_boxed_exprs_view(v@);
        lemma_all_data(boxed_exprs_view(v@));
    }
    let mut i: usize = 0;
    while i < v.len()
        invariant
            i <= v.len(),
            all_data(boxed_exprs_view(v@)) <==> forall|j: int| 0 <= j < v.len() ==> #[trigger] is_data(boxed_exprs_view(v@)[j]),
            boxed_exprs_view(v@).len() == v.len(),
            forall|j: int| 0 <= j < v.len() ==> #[trigger] boxed_exprs_view(v@)[j] == (*v@[j])@,
            forall|j: int| 0 <= j < i ==> is_data(#[trigger] boxed_exprs_view(v@)[j]),
        decreases v.len() - i,
    {
        if !is_data_value(&v[i]) {
            assert(!is_data(boxed_exprs_view(v@)[i as int]));
            return false;
        }
        i = i + 1;
    }
    true
}

/// Whether all elements are data values.
fn all_data_values(v: &Vec<Expression>) -> (r: bool)
    ensures
        r == all_data(exprs_view(v@)),
    decreases v@, 0int,
{
    proof {
        lemma_exprs_view(v@);
        lemma_all_data(exprs_view(v@));
    }
    let mut i: usize = 0;
    while i < v.len()
        invariant
            all_data(exprs_view(v@)) <==> forall|j: int| 0 <= j < v.len() ==> #[trigger] is_data(exprs_view(v@)[j]),
            i <= v.len(),
            exprs_view(v@).len() == v.len(),
            forall|j: int| 0 <= j < v.len() ==> #[trigger] exprs_view(v@)[j] == v@[j]@,
            forall|j: int| 0 <= j < i ==> is_data(#[trigger] exprs_view(v@)[j]),
        decreases v.len() - i,
    {
        if !is_data_value(&v[i]) {
            assert(!is_data(exprs_view(v@)[i as int]));
            return false;
        }
        i = i + 1;
    }
    true
}

/// Equality of two data values.
fn data_equal(a: &Expression, b: &Expression) -> (r: bool)
    requires
        is_data(a@),
        is_data(b@),
    ensures
        r == (a@ == b@),
    decreases a, 1int,
{
    match (a, b) {
        (Expression::CTrue, Expression::CTrue) => true,
        (Expression::CFalse, Expression::CFalse) => true,
        (Expression::CVoid, Expression::CVoid) => true,
        (Expression::CNothing, Expression::CNothing) => true,
        (Expression::CInt(x), Expression::CInt(y)) => *x == *y,
        (Expression::CReal(x), Expression::CReal(y)) => *x == *y,
        (Expression::CString(x), Expression::CString(y)) => *x == *y,
        (Expression::COk(x), Expression::COk(y)) => data_equal(x, y),
        (Expression::CErr(x), Expression::CErr(y)) => data_equal(x, y),
        (Expression::CJust(x), Expression::CJust(y)) => data_equal(x, y),
        (Expression::ListValue(x), Expression::ListValue(y)) => data_list_equal(x, y),
        (Expression::Tuple(x), Expression::Tuple(y)) => data_list_equal(x, y),
        (Expression::Constructor(n, x), Expression::Constructor(k, y)) => {
            if *n != *k {
                return false;
            }
            data_boxed_list_equal(x, y)
        },
        _ => false,
    }
}

/// Equality of two lists of boxed data values.
fn data_boxed_list_equal(x: &Vec<Box<Expression>>, y: &Vec<Box<Expression>>) -> (r: bool)
    requires
        all_data(boxed_exprs_view(x@)),
        all_data(boxed_exprs_view(y@)),
    ensures
        r == (boxed_exprs_view(x@) == boxed_exprs_view(y@)),
    decreases x@, 0int,
{
    proof {
        lemma_boxed_exprs_view(x@);
        lemma_boxed_exprs_view(y@);
        lemma_all_data(boxed_exprs_view(x@));
        lemma_all_data(boxed_exprs_view(y@));
    }
    if x.len() != y.len() {
        return false;
    }
    let mut i: usize = 0;
    while i < x.len()
        invariant
            i <= x.len(),
            x.len() == y.len(),
            boxed_exprs_view(x@).len() == x.len(),
            boxed_exprs_view(y@).len() == y.len(),
            forall|j: int| 0 <= j < x.len() ==> #[trigger] boxed_exprs_view(x@)[j] == (*x@[j])@,
            forall|j: int| 0 <= j < y.len() ==> #[trigger] boxed_exprs_view(y@)[j] == (*y@[j])@,
            forall|j: int| 0 <= j < x.len() ==> is_data(#[trigger] boxed_exprs_view(x@)[j]),
            forall|j: int| 0 <= j < y.len() ==> is_data(#[trigger] boxed_exprs_view(y@)[j]),
            forall|j: int| 0 <= j < i ==> boxed_exprs_view(x@)[j] == boxed_exprs_view(y@)[j],
        decreases x.len() - i,
    {
        assert(is_data(boxed_exprs_view(x@)[i as int]));
        assert(is_data(boxed_exprs_view(y@)[i as int]));
        if !data_equal(&x[i], &y[i]) {
            assert(boxed_exprs_view(x@)[i as int] != boxed_exprs_view(y@)[i as int]);
            return false;
        }
        i = i + 1;
    }
    assert(boxed_exprs_view(x@) =~= boxed_exprs_view(y@));
    true
}

/// Equality of two lists of data values.
fn data_list_equal(x: &Vec<Expression>, y: &Vec<Expression>) -> (r: bool)
    requires
        all_data(exprs_view(x@)),
        all_data(exprs_view(y@)),
    ensures
        r == (exprs_view(x@) == exprs_view(y@)),
    decreases x@, 0int,
{
    proof {
        lemma_exprs_view(x@);
        lemma_exprs_view(y@);
        lemma_all_data(exprs_view(x@));
        lemma_all_data(exprs_view(y@));
    }
    if x.len() != y.len() {
        return false;
    }
    let mut i: usize = 0;
    while i < x.len()
        invariant
            i <= x.len(),
            x.len() == y.len(),
            exprs_view(x@).len() == x.len(),
            exprs_view(y@).len() == y.len(),
            forall|j: int| 0 <= j < x.len() ==> #[trigger] exprs_view(x@)[j] == x@[j]@,
            forall|j: int| 0 <= j < y.len() ==> #[trigger] exprs_view(y@)[j] == y@[j]@,
            forall|j: int| 0 <= j < x.len() ==> is_data(#[trigger] exprs_view(x@)[j]),
            forall|j: int| 0 <= j < y.len() ==> is_data(#[trigger] exprs_view(y@)[j]),
            forall|j: int| 0 <= j < i ==> exprs_view(x@)[j] == exprs_view(y@)[j],
        decreases x.len() - i,
    {
        assert(is_data(exprs_view(x@)[i as int]));
        assert(is_data(exprs_view(y@)[i as int]));
        if !data_equal(&x[i], &y[i]) {
            assert(exprs_view(x@)[i as int] != exprs_view(y@)[i as int]);
            return false;
        }
        i = i + 1;
    }
    assert(exprs_view(x@) =~= exprs_view(y@));
    true
}

/// The error for operands of the wrong kinds.
fn types_message(op: TacBinaryOp) -> (r: String)
    ensures
        r@ == msg_types(binop_symbol(op)),
{
    let sym = match op {
        TacBinaryOp::Add => "+",
        TacBinaryOp::Sub => "-",
        TacBinaryOp::Mul => "*",
        TacBinaryOp::Div => "/",
        TacBinaryOp::Eq => "==",
        TacBinaryOp::Neq => "!=",
        TacBinaryOp::Gt => ">",
        TacBinaryOp::Lt => "<",
        TacBinaryOp::Gte => ">=",
        TacBinaryOp::Lte => "<=",
        TacBinaryOp::And => "and",
        TacBinaryOp::Or => "or",
    };
    concat3("Invalid operand types for '", sym, "'")
}

/// An integer result, refused when it does not fit in 32 bits.
fn int_value(v: i64) -> (r: Result<Expression, String>)
    ensures
        match r {
            Ok(e) => int_result(v as int) == Ok::<ExprV, Seq<char>>(e@),
            Err(m) => int_result(v as int) == Err::<ExprV, Seq<char>>(m@),
        },
{
    if -2147483648 <= v && v <= 2147483647 {
        Ok(Expression::CInt(v as i32))
    } else {
        Err(String::from_str("Integer overflow"))
    }
}

/// A boolean value.
fn bool_expr(b: bool) -> (r: Expression)
    ensures
        r@ == bool_value(b),
{
    if b {
        Expression::CTrue
    } else {
        Expression::CFalse
    }
}

/// A binary operation on two values.
fn binop_values(op: TacBinaryOp, a: &Expression, b: &Expression) -> (r: Result<Expression, String>)
    ensures
        match r {
            Ok(e) => apply_binop(op, a@, b@) == Ok::<ExprV, Seq<char>>(e@),
            Err(m) => apply_binop(op, a@, b@) == Err::<ExprV, Seq<char>>(m@),
        },
{
    match op {
        TacBinaryOp::Add | TacBinaryOp::Sub | TacBinaryOp::Mul | TacBinaryOp::Div => {
            match (a, b) {
                (Expression::CInt(x), Expression::CInt(y)) => {
                    let x: i64 = *x as i64;
                    let y: i64 = *y as i64;
                    match op {
                        TacBinaryOp::Add => int_value(x + y),
                        TacBinaryOp::Sub => int_value(x - y),
                        TacBinaryOp::Mul => {
                            assert(-2147483648 * 2147483648 <= x * y <= 2147483648 * 2147483648) by (nonlinear_arith)
                                requires
                                    -2147483648 <= x <= 2147483647,
                                    -2147483648 <= y <= 2147483647,
                            ;
                            int_value(x * y)
                        },
                        _ => {
                            if y == 0 {
                                Err(String::from_str("Division by zero"))
                            } else {
                                let ax: u64 = if x < 0 { (-x) as u64 } else { x as u64 };
                                let ay: u64 = if y < 0 { (-y) as u64 } else { y as u64 };
                                let q: u64 = ax / ay;
                                assert(q <= ax);
                                let q: i64 = q as i64;
                                let v: i64 = if (x < 0) != (y < 0) { -q } else { q };
                                assert(v == trunc_div(x as int, y as int));
                                int_value(v)
                            }
                        },
                    }
                },
                (Expression::CString(x), Expression::CString(y)) => {
                    if op == TacBinaryOp::Add {
                        let mut s = x.clone();
                        append_str(&mut s, y.as_str());
                        Ok(Expression::CString(s))
                    } else {
                        Err(types_message(op))
                    }
                },
                (Expression::CReal(_), _) | (_, Expression::CReal(_)) => {
                    Err(String::from_str("Arithmetic on real numbers is not supported"))
                },
                _ => Err(types_message(op)),
            }
        },
        TacBinaryOp::Eq | TacBinaryOp::Neq => {
            if is_data_value(a) && is_data_value(b) {
                let t = data_equal(a, b);
                if op == TacBinaryOp::Eq {
                    Ok(bool_expr(t))
                } else {
                    Ok(bool_expr(!t))
                }
            } else {
                Err(String::from_str("Values cannot be compared"))
            }
        },
        TacBinaryOp::Gt | TacBinaryOp::Lt | TacBinaryOp::Gte | TacBinaryOp::Lte => {
            match (a, b) {
                (Expression::CInt(x), Expression::CInt(y)) => {
                    let t = match op {
                        TacBinaryOp::Gt => *x > *y,
                        TacBinaryOp::Lt => *x < *y,
                        TacBinaryOp::Gte => *x >= *y,
                        _ => *x <= *y,
                    };
                    Ok(bool_expr(t))
                },
                (Expression::CReal(_), _) | (_, Expression::CReal(_)) => {
                    Err(String::from_str("Arithmetic on real numbers is not supported"))
                },
                _ => Err(types_message(op)),
            }
        },
        TacBinaryOp::And | TacBinaryOp::Or => {
            let ab = match a {
                Expression::CTrue => Some(true),
                Expression::CFalse => Some(false),
                _ => None,
            };
            let bb = match b {
                Expression::CTrue => Some(true),
                Expression::CFalse => Some(false),
                _ => None,
            };
            match (ab, bb) {
                (Some(x), Some(y)) => {
                    if op == TacBinaryOp::And {
                        Ok(bool_expr(x && y))
                    } else {
                        Ok(bool_expr(x || y))
                    }
                },
                _ => Err(types_message(op)),
            }
        },
    }
}

} // verus!

verus! {

/// The result of evaluating an expression: a value, or an error value to
/// propagate.
pub enum ExpressionResult {
    Value(Expression),
    Propagate(Expression),
}

/// The result of evaluating a list of expressions.
pub enum ListResult {
    Values(Vec<Expression>),
    Propagated(Expression),
}

/// The result of running a statement.
pub enum Computation {
    Continue(Environment<Expression>),
    Return(Expression, Environment<Expression>),
    PropagateError(Expression, Environment<Expression>),
}

/// The view of an evaluation result.
pub open spec fn eval_view(r: Result<ExpressionResult, String>) -> Result<EvalV, Seq<char>> {
    match r {
        Ok(ExpressionResult::Value(e)) => Ok(EvalV::Value(e@)),
        Ok(ExpressionResult::Propagate(e)) => Ok(EvalV::Propagate(e@)),
        Err(m) => Err(m@),
    }
}

/// The view of the evaluation of a list.
pub open spec fn list_view(r: Result<ListResult, String>) -> Result<ListV, Seq<char>> {
    match r {
        Ok(ListResult::Values(v)) => Ok(ListV::Values(exprs_view(v@))),
        Ok(ListResult::Propagated(e)) => Ok(ListV::Propagated(e@)),
        Err(m) => Err(m@),
    }
}

/// The view of the result of running a statement.
pub open spec fn comp_view(r: Result<Computation, String>) -> Result<CompV, Seq<char>> {
    match r {
        Ok(Computation::Continue(env)) => Ok(CompV::Continue(env.model())),
        Ok(Computation::Return(v, env)) => Ok(CompV::Return(v@, env.model())),
        Ok(Computation::PropagateError(v, env)) => Ok(CompV::PropagateError(v@, env.model())),
        Err(m) => Err(m@),
    }
}

/// The environment a computation carries is well formed, and its current
/// function is `current` (running a statement never changes it).
pub open spec fn comp_wf(r: Result<Computation, String>, current: FuncSignatureV) -> bool {
    match r {
        Ok(Computation::Continue(env)) => env.wf() && env.current_func@ == current,
        Ok(Computation::Return(_, env)) => env.wf() && env.current_func@ == current,
        Ok(Computation::PropagateError(_, env)) => env.wf() && env.current_func@ == current,
        Err(_) => true,
    }
}

/// A unary operation on a value.
fn unop_value(op: UnOp, a: Expression) -> (r: Result<ExpressionResult, String>)
    ensures
        eval_view(r) == apply_unop(op, a@),
{
    match op {
        UnOp::Not => match a {
            Expression::CTrue => Ok(ExpressionResult::Value(Expression::CFalse)),
            Expression::CFalse => Ok(ExpressionResult::Value(Expression::CTrue)),
            _ => Err(concat3("Invalid operand types for '", "not", "'")),
        },
        UnOp::MakeOk => Ok(ExpressionResult::Value(Expression::COk(Box::new(a)))),
        UnOp::MakeErr => Ok(ExpressionResult::Value(Expression::CErr(Box::new(a)))),
        UnOp::MakeJust => Ok(ExpressionResult::Value(Expression::CJust(Box::new(a)))),
        UnOp::Unwrap => match a {
            Expression::COk(x) => Ok(ExpressionResult::Value(*x)),
            Expression::CJust(x) => Ok(ExpressionResult::Value(*x)),
            Expression::CErr(_) => Err(String::from_str("Program panicked trying to unwrap a value")),
            Expression::CNothing => Err(String::from_str("Program panicked trying to unwrap a value")),
            _ => Err(concat3("Invalid operand types for '", "unwrap", "'")),
        },
        UnOp::IsError => match a {
            Expression::COk(_) => Ok(ExpressionResult::Value(Expression::CFalse)),
            Expression::CErr(_) => Ok(ExpressionResult::Value(Expression::CTrue)),
            _ => Err(concat3("Invalid operand types for '", "isError", "'")),
        },
        UnOp::IsNothing => match a {
            Expression::CJust(_) => Ok(ExpressionResult::Value(Expression::CFalse)),
            Expression::CNothing => Ok(ExpressionResult::Value(Expression::CTrue)),
            _ => Err(concat3("Invalid operand types for '", "isNothing", "'")),
        },
        UnOp::Propagate => match a {
            Expression::COk(x) => Ok(ExpressionResult::Value(*x)),
            Expression::CJust(x) => Ok(ExpressionResult::Value(*x)),
            Expression::CErr(x) => Ok(ExpressionResult::Propagate(*x)),
            Expression::CNothing => Ok(ExpressionResult::Propagate(Expression::CNothing)),
            _ => Err(concat3("Invalid operand types for '", "?", "'")),
        },
    }
}

/// The operands and operation of a binary expression.
fn split_binary(e: &Expression) -> (r: (&Expression, &Expression, TacBinaryOp))
    requires
        is_binary(e@),
    ensures
        (r.0@, r.1@, r.2) == binary_parts(e@),
        decreases_to!(*e => *r.0),
        decreases_to!(*e => *r.1),
{
    match e {
        Expression::Add(l, r) => (l, r, TacBinaryOp::Add),
        Expression::Sub(l, r) => (l, r, TacBinaryOp::Sub),
        Expression::Mul(l, r) => (l, r, TacBinaryOp::Mul),
        Expression::Div(l, r) => (l, r, TacBinaryOp::Div),
        Expression::And(l, r) => (l, r, TacBinaryOp::And),
        Expression::Or(l, r) => (l, r, TacBinaryOp::Or),
        Expression::EQ(l, r) => (l, r, TacBinaryOp::Eq),
        Expression::NEQ(l, r) => (l, r, TacBinaryOp::Neq),
        Expression::GT(l, r) => (l, r, TacBinaryOp::Gt),
        Expression::LT(l, r) => (l, r, TacBinaryOp::Lt),
        Expression::GTE(l, r) => (l, r, TacBinaryOp::Gte),
        _ => match e {
            Expression::LTE(l, r) => (l, r, TacBinaryOp::Lte),
            _ => (e, e, TacBinaryOp::Add),
        },
    }
}

/// The operand and operation of a unary expression.
fn split_unary(e: &Expression) -> (r: (&Expression, UnOp))
    requires
        is_unary(e@),
    ensures
        (r.0@, r.1) == unary_parts(e@),
        decreases_to!(*e => *r.0),
{
    match e {
        Expression::Not(x) => (x, UnOp::Not),
        Expression::COk(x) => (x, UnOp::MakeOk),
        Expression::CErr(x) => (x, UnOp::MakeErr),
        Expression::CJust(x) => (x, UnOp::MakeJust),
        Expression::Unwrap(x) => (x, UnOp::Unwrap),
        Expression::IsError(x) => (x, UnOp::IsError),
        Expression::IsNothing(x) => (x, UnOp::IsNothing),
        _ => match e {
            Expression::Propagate(x) => (x, UnOp::Propagate),
            _ => (e, UnOp::Not),
        },
    }
}

} // verus!

verus! {

/// Boxes each value.
fn box_all(vs: Vec<Expression>) -> (r: Vec<Box<Expression>>)
    ensures
        boxed_exprs_view(r@) == exprs_view(vs@),
{
    proof {
        lemma_exprs_view(vs@);
    }
    let mut out: Vec<Box<Expression>> = Vec::new();
    let mut i: usize = 0;
    while i < vs.len()
        invariant
            i <= vs.len(),
            exprs_view(vs@).len() == vs.len(),
            forall|j: int| 0 <= j < vs.len() ==> #[trigger] exprs_view(vs@)[j] == vs@[j]@,
            boxed_exprs_view(out@) == exprs_view(vs@).subrange(0, i as int),
        decreases vs.len() - i,
    {
        let ghost before = out@;
        out.push(Box::new(clone_expr(&vs[i])));
        assert(out@.drop_last() =~= before);
        assert(boxed_exprs_view(out@) =~= exprs_view(vs@).subrange(0, i + 1));
        i = i + 1;
    }
    assert(exprs_view(vs@).subrange(0, vs.len() as int) =~= exprs_view(vs@));
    out
}

/// Unboxes each value.
fn unbox_all(vs: &Vec<Box<Expression>>) -> (r: Vec<Expression>)
    ensures
        exprs_view(r@) == boxed_exprs_view(vs@),
{
    proof {
        lemma_boxed_exprs_view(vs@);
    }
    let mut out: Vec<Expression> = Vec::new();
    let mut i: usize = 0;
    while i < vs.len()
        invariant
            i <= vs.len(),
            boxed_exprs_view(vs@).len() == vs.len(),
            forall|j: int| 0 <= j < vs.len() ==> #[trigger] boxed_exprs_view(vs@)[j] == (*vs@[j])@,
            exprs_view(out@) == boxed_exprs_view(vs@).subrange(0, i as int),
        decreases vs.len() - i,
    {
        let ghost before = out@;
        out.push(clone_expr(&vs[i]));
        assert(out@.drop_last() =~= before);
        assert(exprs_view(out@) =~= boxed_exprs_view(vs@).subrange(0, i + 1));
        i = i + 1;
    }
    assert(boxed_exprs_view(vs@).subrange(0, vs.len() as int) =~= boxed_exprs_view(vs@));
    out
}

/// The items a `for` loop runs over.
fn iter_values(coll: &Expression) -> (r: Option<Vec<Expression>>)
    ensures
        match iter_items(coll@) {
            Some(items) => r is Some && exprs_view(r->Some_0@) == items,
            None => r is None,
        },
{
    match coll {
        Expression::ListValue(v) => Some(crate::ast::clone_exprs(v)),
        Expression::Tuple(v) => Some(crate::ast::clone_exprs(v)),
        Expression::Constructor(_, v) => Some(unbox_all(v)),
        Expression::CString(s) => {
            let n = s.as_str().unicode_len();
            let ghost target = s@.map_values(|c: char| ExprV::CString(seq![c]));
            let mut out: Vec<Expression> = Vec::new();
            let mut i: usize = 0;
            while i < n
                invariant
                    i <= n,
                    n == s@.len(),
                    target == s@.map_values(|c: char| ExprV::CString(seq![c])),
                    exprs_view(out@) == target.subrange(0, i as int),
                decreases n - i,
            {
                let c = s.as_str().get_char(i);
                let mut one = String::new();
                push_char(&mut one, c);
                assert(one@ =~= seq![c]);
                let item = Expression::CString(one);
                let ghost iv = item@;
                assert(iv == ExprV::CString(seq![c]));
                let ghost before = out@;
                out.push(item);
                assert(out@.drop_last() =~= before);
                assert(exprs_view(out@) == exprs_view(before).push(iv));
                assert(target[i as int] == ExprV::CString(seq![c]));
                assert(target.subrange(0, i + 1) =~= target.subrange(0, i as int).push(target[i as int]));
                assert(exprs_view(out@) =~= target.subrange(0, i + 1));
                i = i + 1;
            }
            assert(target.subrange(0, n as int) =~= target);
            Some(out)
        },
        _ => None,
    }
}

} // verus!

verus! {

/// Evaluates an expression in an environment with a step budget.
pub fn eval_with(expr: &Expression, env: &Environment<Expression>, fuel: u64) -> (r: Result<ExpressionResult, String>)
    requires
        env.wf(),
    ensures
        eval_view(r) == eval_spec(expr@, env.model(), fuel as nat),
    decreases fuel, expr, 1int,
{
    let ghost m = env.model();
    match expr {
        Expression::Add(_, _) | Expression::Sub(_, _) | Expression::Mul(_, _) | Expression::Div(_, _)
        | Expression::And(_, _) | Expression::Or(_, _) | Expression::EQ(_, _) | Expression::NEQ(_, _)
        | Expression::GT(_, _) | Expression::LT(_, _) | Expression::GTE(_, _) | Expression::LTE(_, _) => {
            eval_binary(expr, env, fuel)
        },
        Expression::Not(_) | Expression::COk(_) | Expression::CErr(_) | Expression::CJust(_)
        | Expression::Unwrap(_) | Expression::IsError(_) | Expression::IsNothing(_) | Expression::Propagate(_) => {
            eval_unary(expr, env, fuel)
        },
        Expression::ListValue(v) => {
            proof {
                lemma_eval_items(expr@, m, fuel as nat);
            }
            match eval_list(v, env, fuel) {
                Err(x) => Err(x),
                Ok(ListResult::Propagated(x)) => Ok(ExpressionResult::Propagate(x)),
                Ok(ListResult::Values(vs)) => Ok(ExpressionResult::Value(Expression::ListValue(vs))),
            }
        },
        Expression::Tuple(v) => {
            proof {
                lemma_eval_items(expr@, m, fuel as nat);
            }
            match eval_list(v, env, fuel) {
                Err(x) => Err(x),
                Ok(ListResult::Propagated(x)) => Ok(ExpressionResult::Propagate(x)),
                Ok(ListResult::Values(vs)) => Ok(ExpressionResult::Value(Expression::Tuple(vs))),
            }
        },
        Expression::Constructor(n, v) => {
            proof {
                lemma_eval_items(expr@, m, fuel as nat);
            }
            match eval_boxed_list(v, env, fuel) {
                Err(x) => Err(x),
                Ok(ListResult::Propagated(x)) => Ok(ExpressionResult::Propagate(x)),
                Ok(ListResult::Values(vs)) => Ok(ExpressionResult::Value(Expression::Constructor(n.clone(), box_all(vs)))),
            }
        },
        Expression::FuncCall(_, _) => eval_call(expr, env, fuel),
        Expression::Var(n) => {
            proof {
                lemma_eval_leaf(expr@, m, fuel as nat);
            }
            match env.lookup(n) {
                Some(b) => Ok(ExpressionResult::Value(b.1)),
                None => Err(concat3("Variable '", n.as_str(), "' not found")),
            }
        },
        _ => {
            proof {
                lemma_eval_leaf(expr@, m, fuel as nat);
            }
            Ok(ExpressionResult::Value(clone_expr(expr)))
        },
    }
}

/// Evaluates a binary expression.
fn eval_binary(expr: &Expression, env: &Environment<Expression>, fuel: u64) -> (r: Result<ExpressionResult, String>)
    requires
        env.wf(),
        is_binary(expr@),
    ensures
        eval_view(r) == eval_spec(expr@, env.model(), fuel as nat),
    decreases fuel, expr, 0int,
{
    proof {
        lemma_eval_binary(expr@, env.model(), fuel as nat);
    }
    let (l, r, op) = split_binary(expr);
    match eval_with(l, env, fuel) {
        Err(x) => Err(x),
        Ok(ExpressionResult::Propagate(x)) => Ok(ExpressionResult::Propagate(x)),
        Ok(ExpressionResult::Value(a)) => match eval_with(r, env, fuel) {
            Err(x) => Err(x),
            Ok(ExpressionResult::Propagate(x)) => Ok(ExpressionResult::Propagate(x)),
            Ok(ExpressionResult::Value(b)) => match binop_values(op, &a, &b) {
                Ok(v) => Ok(ExpressionResult::Value(v)),
                Err(msg) => Err(msg),
            },
        },
    }
}

/// Evaluates a unary expression.
fn eval_unary(expr: &Expression, env: &Environment<Expression>, fuel: u64) -> (r: Result<ExpressionResult, String>)
    requires
        env.wf(),
        is_unary(expr@),
    ensures
        eval_view(r) == eval_spec(expr@, env.model(), fuel as nat),
    decreases fuel, expr, 0int,
{
    proof {
        lemma_eval_unary(expr@, env.model(), fuel as nat);
    }
    let (x, op) = split_unary(expr);
    match eval_with(x, env, fuel) {
        Err(e) => Err(e),
        Ok(ExpressionResult::Propagate(e)) => Ok(ExpressionResult::Propagate(e)),
        Ok(ExpressionResult::Value(a)) => unop_value(op, a),
    }
}

/// Evaluates a list of expressions left to right, stopping at the first
/// failure.
fn eval_list(items: &Vec<Expression>, env: &Environment<Expression>, fuel: u64) -> (r: Result<ListResult, String>)
    requires
        env.wf(),
    ensures
        list_view(r) == eval_list_spec(exprs_view(items@), env.model(), fuel as nat),
    decreases fuel, items@, 0int,
{
    let ghost es = exprs_view(items@);
    let ghost m = env.model();
    proof {
        lemma_exprs_view(items@);
        assert(es.subrange(0, 0) =~= Seq::<ExprV>::empty());
        lemma_eval_list_empty(es.subrange(0, 0), m, fuel as nat);
    }
    let mut vals: Vec<Expression> = Vec::new();
    let mut i: usize = 0;
    while i < items.len()
        invariant
            env.wf(),
            m == env.model(),
            i <= items.len(),
            es == exprs_view(items@),
            es.len() == items.len(),
            forall|j: int| 0 <= j < items.len() ==> #[trigger] es[j] == items@[j]@,
            eval_list_spec(es.subrange(0, i as int), m, fuel as nat) == Ok::<ListV, Seq<char>>(ListV::Values(exprs_view(vals@))),
        decreases items.len() - i,
    {
        let ghost sub = es.subrange(0, i + 1);
        proof {
            assert(sub.drop_last() =~= es.subrange(0, i as int));
            lemma_eval_list_push(sub, m, fuel as nat);
        }
        match eval_with(&items[i], env, fuel) {
            Err(x) => {
                proof {
                    lemma_eval_list_stops(es, i + 1, m, fuel as nat);
                }
                return Err(x);
            },
            Ok(ExpressionResult::Propagate(x)) => {
                proof {
                    lemma_eval_list_stops(es, i + 1, m, fuel as nat);
                }
                return Ok(ListResult::Propagated(x));
            },
            Ok(ExpressionResult::Value(v)) => {
                let ghost before = vals@;
                let ghost vv = v@;
                vals.push(v);
                assert(vals@.drop_last() =~= before);
                assert(exprs_view(vals@) == exprs_view(before).push(vv));
            },
        }
        i = i + 1;
    }
    assert(es.subrange(0, items.len() as int) =~= es);
    Ok(ListResult::Values(vals))
}

/// Evaluates a list of boxed expressions left to right, stopping at the
/// first failure.
fn eval_boxed_list(items: &Vec<Box<Expression>>, env: &Environment<Expression>, fuel: u64) -> (r: Result<ListResult, String>)
    requires
        env.wf(),
    ensures
        list_view(r) == eval_list_spec(boxed_exprs_view(items@), env.model(), fuel as nat),
    decreases fuel, items@, 0int,
{
    let ghost es = boxed_exprs_view(items@);
    let ghost m = env.model();
    proof {
        lemma_boxed_exprs_view(items@);
        assert(es.subrange(0, 0) =~= Seq::<ExprV>::empty());
        lemma_eval_list_empty(es.subrange(0, 0), m, fuel as nat);
    }
    let mut vals: Vec<Expression> = Vec::new();
    let mut i: usize = 0;
    while i < items.len()
        invariant
            env.wf(),
            m == env.model(),
            i <= items.len(),
            es == boxed_exprs_view(items@),
            es.len() == items.len(),
            forall|j: int| 0 <= j < items.len() ==> #[trigger] es[j] == (*items@[j])@,
            eval_list_spec(es.subrange(0, i as int), m, fuel as nat) == Ok::<ListV, Seq<char>>(ListV::Values(exprs_view(vals@))),
        decreases items.len() - i,
    {
        let ghost sub = es.subrange(0, i + 1);
        proof {
            assert(sub.drop_last() =~= es.subrange(0, i as int));
            lemma_eval_list_push(sub, m, fuel as nat);
        }
        match eval_with(&items[i], env, fuel) {
            Err(x) => {
                proof {
                    lemma_eval_list_stops(es, i + 1, m, fuel as nat);
                }
                return Err(x);
            },
            Ok(ExpressionResult::Propagate(x)) => {
                proof {
                    lemma_eval_list_stops(es, i + 1, m, fuel as nat);
                }
                return Ok(ListResult::Propagated(x));
            },
            Ok(ExpressionResult::Value(v)) => {
                let ghost before = vals@;
                let ghost vv = v@;
                vals.push(v);
                assert(vals@.drop_last() =~= before);
                assert(exprs_view(vals@) == exprs_view(before).push(vv));
            },
        }
        i = i + 1;
    }
    assert(es.subrange(0, items.len() as int) =~= es);
    Ok(ListResult::Values(vals))
}

/// Evaluates a call: the arguments, then the body of the function of that
/// name in a new scope binding the parameters, with one step less.
fn eval_call(expr: &Expression, env: &Environment<Expression>, fuel: u64) -> (r: Result<ExpressionResult, String>)
    requires
        env.wf(),
        expr@ is FuncCall,
    ensures
        eval_view(r) == eval_spec(expr@, env.model(), fuel as nat),
    decreases fuel, expr, 0int,
{
    let ghost m = env.model();
    match expr {
        Expression::FuncCall(name, args) => {
            proof {
                lemma_eval_call(name@, exprs_view(args@), m, fuel as nat);
            }
            match eval_list(args, env, fuel) {
                Err(x) => Err(x),
                Ok(ListResult::Propagated(x)) => Ok(ExpressionResult::Propagate(x)),
                Ok(ListResult::Values(vs)) => {
                    match env.lookup_function_by_name(name) {
                        None => Err(concat3("Function '", name.as_str(), "' not found")),
                        Some(f) => {
                            proof {
                                lemma_exprs_view(vs@);
                                lemma_params_view(f.params@);
                            }
                            if vs.len() != f.params.len() {
                                return Err(concat3("Wrong number of arguments for function '", name.as_str(), "'"));
                            }
                            if fuel == 0 {
                                return Err(String::from_str("Step limit reached"));
                            }
                            match &f.body {
                                None => Err(concat3("Function '", name.as_str(), "' has no body")),
                                Some(b) => {
                                    let ghost ps = f@.params;
                                    let ghost vv = exprs_view(vs@);
                                    let mut call_env = env.duplicate();
                                    call_env.push();
                                    let mut i: usize = 0;
                                    assert(ps.subrange(0, 0) =~= Seq::<(Seq<char>, TypeV)>::empty());
                                    assert(vv.subrange(0, 0) =~= Seq::<ExprV>::empty());
                                    while i < vs.len()
                                        invariant
                                            call_env.wf(),
                                            i <= vs.len(),
                                            vs.len() == f.params.len(),
                                            ps == f@.params,
                                            vv == exprs_view(vs@),
                                            ps.len() == f.params.len(),
                                            vv.len() == vs.len(),
                                            forall|j: int| 0 <= j < vs.len() ==> #[trigger] vv[j] == vs@[j]@,
                                            forall|j: int| 0 <= j < f.params.len() ==> #[trigger] ps[j] == (
                                                f.params@[j].argument_name@,
                                                f.params@[j].argument_type@,
                                            ),
                                            call_env.model() == bind_params(m.push(), ps.subrange(0, i as int), vv.subrange(0, i as int)),
                                        decreases vs.len() - i,
                                    {
                                        proof {
                                            assert(ps.subrange(0, i + 1).drop_last() =~= ps.subrange(0, i as int));
                                            assert(vv.subrange(0, i + 1).drop_last() =~= vv.subrange(0, i as int));
                                        }
                                        call_env.map_variable(f.params[i].argument_name.clone(), true, clone_expr(&vs[i]));
                                        i = i + 1;
                                    }
                                    assert(ps.subrange(0, vs.len() as int) =~= ps);
                                    assert(vv.subrange(0, vs.len() as int) =~= vv);
                                    match execute_with(b, &call_env, fuel - 1) {
                                        Err(x) => Err(x),
                                        Ok(Computation::Return(v, _)) => Ok(ExpressionResult::Value(v)),
                                        Ok(Computation::Continue(_)) => Ok(ExpressionResult::Value(Expression::CVoid)),
                                        Ok(Computation::PropagateError(x, _)) => Ok(ExpressionResult::Propagate(x)),
                                    }
                                },
                            }
                        },
                    }
                },
            }
        },
        _ => Err(String::new()),
    }
}

/// Runs a statement in an environment with a step budget.
pub fn execute_with(stmt: &Statement, env: &Environment<Expression>, fuel: u64) -> (r: Result<Computation, String>)
    requires
        env.wf(),
    ensures
        comp_view(r) == exec_spec(stmt@, env.model(), fuel as nat),
        comp_wf(r, env.current_func@),
    decreases fuel, stmt, 1int,
{
    let ghost m = env.model();
    match stmt {
        Statement::IfThenElse(_, _, _) => execute_if(stmt, env, fuel),
        Statement::Block(ss) => {
            proof {
                lemma_exec_block(stmts_view(ss@), m, fuel as nat);
            }
            execute_block_with(ss, env, fuel)
        },
        Statement::While(_, _) => execute_while(stmt, env, fuel),
        Statement::For(_, _, _) => execute_for(stmt, env, fuel),
        Statement::Sequence(a, b) => {
            proof {
                lemma_exec_sequence(a@, b@, m, fuel as nat);
            }
            match execute_with(a, env, fuel) {
                Ok(Computation::Continue(e2)) => execute_with(b, &e2, fuel),
                other => other,
            }
        },
        Statement::Assert(_, _) | Statement::AssertTrue(_, _) | Statement::AssertFalse(_, _)
        | Statement::AssertEQ(_, _, _) | Statement::AssertNEQ(_, _, _) => execute_assert(stmt, env, fuel),
        _ => execute_simple(stmt, env, fuel),
    }
}

/// Runs the statements of a block in order.
fn execute_block_with(ss: &Vec<Statement>, env: &Environment<Expression>, fuel: u64) -> (r: Result<Computation, String>)
    requires
        env.wf(),
    ensures
        comp_view(r) == block_spec(stmts_view(ss@), 0, env.model(), fuel as nat),
        comp_wf(r, env.current_func@),
    decreases fuel, ss@, 0int,
{
    let ghost sv = stmts_view(ss@);
    proof {
        lemma_stmts_view(ss@);
    }
    let mut cur = env.duplicate();
    let mut i: usize = 0;
    while i < ss.len()
        invariant
            cur.wf(),
            cur.current_func@ == env.current_func@,
            i <= ss.len(),
            sv == stmts_view(ss@),
            sv.len() == ss.len(),
            forall|j: int| 0 <= j < ss.len() ==> #[trigger] sv[j] == ss@[j]@,
            block_spec(sv, 0, env.model(), fuel as nat) == block_spec(sv, i as int, cur.model(), fuel as nat),
        decreases ss.len() - i,
    {
        proof {
            lemma_block_step(sv, i as int, cur.model(), fuel as nat);
        }
        match execute_with(&ss[i], &cur, fuel) {
            Ok(Computation::Continue(e2)) => {
                cur = e2;
            },
            other => {
                return other;
            },
        }
        i = i + 1;
    }
    proof {
        lemma_block_step(sv, i as int, cur.model(), fuel as nat);
    }
    Ok(Computation::Continue(cur))
}

/// Runs a conditional.
fn execute_if(stmt: &Statement, env: &Environment<Expression>, fuel: u64) -> (r: Result<Computation, String>)
    requires
        env.wf(),
        stmt@ is IfThenElse,
    ensures
        comp_view(r) == exec_spec(stmt@, env.model(), fuel as nat),
        comp_wf(r, env.current_func@),
    decreases fuel, stmt, 0int,
{
    let ghost m = env.model();
    match stmt {
        Statement::IfThenElse(c, th, el) => {
            proof {
                lemma_exec_if(c@, th@, opt_stmt_view(*el), m, fuel as nat);
            }
            match eval_with(c, env, fuel) {
                Err(x) => Err(x),
                Ok(ExpressionResult::Propagate(x)) => Ok(Computation::PropagateError(x, env.duplicate())),
                Ok(ExpressionResult::Value(v)) => match v {
                    Expression::CTrue => execute_with(th, env, fuel),
                    Expression::CFalse => match el {
                        Some(e) => execute_with(e, env, fuel),
                        None => Ok(Computation::Continue(env.duplicate())),
                    },
                    _ => Err(String::from_str("Condition must evaluate to a boolean")),
                },
            }
        },
        _ => Err(String::new()),
    }
}

/// Runs a `while` loop.
fn execute_while(stmt: &Statement, env: &Environment<Expression>, fuel: u64) -> (r: Result<Computation, String>)
    requires
        env.wf(),
        stmt@ is While,
    ensures
        comp_view(r) == exec_spec(stmt@, env.model(), fuel as nat),
        comp_wf(r, env.current_func@),
    decreases fuel, stmt, 0int,
{
    match stmt {
        Statement::While(c, b) => {
            let ghost s = stmt@;
            let mut cur = env.duplicate();
            let mut f: u64 = fuel;
            loop
                invariant
                    cur.wf(),
                    cur.current_func@ == env.current_func@,
                    f <= fuel,
                    s == stmt@,
                    s == StmtV::While(c@, Box::new(b@)),
                    decreases_to!(*stmt => **c),
                    exec_spec(s, env.model(), fuel as nat) == exec_spec(s, cur.model(), f as nat),
                decreases f,
            {
                proof {
                    lemma_exec_while(c@, b@, cur.model(), f as nat);
                }
                if f == 0 {
                    return Err(String::from_str("Step limit reached"));
                }
                match eval_with(c, &cur, f) {
                    Err(x) => {
                        return Err(x);
                    },
                    Ok(ExpressionResult::Propagate(x)) => {
                        return Ok(Computation::PropagateError(x, cur));
                    },
                    Ok(ExpressionResult::Value(v)) => match v {
                        Expression::CTrue => match execute_with(b, &cur, f - 1) {
                            Ok(Computation::Continue(e2)) => {
                                cur = e2;
                                f = f - 1;
                            },
                            other => {
                                return other;
                            },
                        },
                        Expression::CFalse => {
                            return Ok(Computation::Continue(cur));
                        },
                        _ => {
                            return Err(String::from_str("Condition must evaluate to a boolean"));
                        },
                    },
                }
            }
        },
        _ => Err(String::new()),
    }
}

/// Runs a `for` loop.
fn execute_for(stmt: &Statement, env: &Environment<Expression>, fuel: u64) -> (r: Result<Computation, String>)
    requires
        env.wf(),
        stmt@ is For,
    ensures
        comp_view(r) == exec_spec(stmt@, env.model(), fuel as nat),
        comp_wf(r, env.current_func@),
    decreases fuel, stmt, 0int,
{
    let ghost m = env.model();
    match stmt {
        Statement::For(var, e, body) => {
            proof {
                lemma_exec_for(var@, e@, body@, m, fuel as nat);
            }
            match eval_with(e, env, fuel) {
                Err(x) => Err(x),
                Ok(ExpressionResult::Propagate(x)) => Ok(Computation::PropagateError(x, env.duplicate())),
                Ok(ExpressionResult::Value(coll)) => match iter_values(&coll) {
                    None => Err(String::from_str("Cannot iterate over provided expression")),
                    Some(items) => {
                        let ghost iv = exprs_view(items@);
                        proof {
                            lemma_exprs_view(items@);
                        }
                        let mut cur = env.duplicate();
                        let mut i: usize = 0;
                        while i < items.len()
                            invariant
                                cur.wf(),
                                cur.current_func@ == env.current_func@,
                                i <= items.len(),
                                iv == exprs_view(items@),
                                iv.len() == items.len(),
                                forall|j: int| 0 <= j < items.len() ==> #[trigger] iv[j] == items@[j]@,
                                m == env.model(),
                                exec_spec(stmt@, m, fuel as nat) == for_spec(var@, iv, i as int, body@, cur.model(), fuel as nat),
                                decreases_to!(*stmt => **body),
                            decreases items.len() - i,
                        {
                            proof {
                                lemma_for_step(var@, iv, i as int, body@, cur.model(), fuel as nat);
                            }
                            let prev = cur.lookup(var);
                            let ghost cm = cur.model();
                            let mut e1 = cur;
                            let item = clone_expr(&items[i]);
                            assert(item@ == iv[i as int]);
                            e1.map_variable(var.clone(), false, item);
                            assert(e1.model() == cm.declare(var@, false, iv[i as int]));
                            match execute_with(body, &e1, fuel) {
                                Ok(Computation::Continue(e2)) => {
                                    let mut e3 = e2;
                                    e3.remove_variable(var);
                                    match prev {
                                        Some(b) => {
                                            e3.map_variable(var.clone(), b.0, b.1);
                                        },
                                        None => {},
                                    }
                                    cur = e3;
                                },
                                other => {
                                    return other;
                                },
                            }
                            i = i + 1;
                        }
                        proof {
                            lemma_for_step(var@, iv, i as int, body@, cur.model(), fuel as nat);
                        }
                        Ok(Computation::Continue(cur))
                    },
                },
            }
        },
        _ => Err(String::new()),
    }
}

/// Runs an assertion.
fn execute_assert(stmt: &Statement, env: &Environment<Expression>, fuel: u64) -> (r: Result<Computation, String>)
    requires
        env.wf(),
        stmt@ is Assert || stmt@ is AssertTrue || stmt@ is AssertFalse || stmt@ is AssertEQ || stmt@ is AssertNEQ,
    ensures
        comp_view(r) == exec_spec(stmt@, env.model(), fuel as nat),
        comp_wf(r, env.current_func@),
    decreases fuel, stmt, 0int,
{
    let ghost m = env.model();
    proof {
        lemma_exec_simple(stmt@, m, fuel as nat);
    }
    let (rc, expected, msg): (Result<ExpressionResult, String>, bool, &Expression) = match stmt {
        Statement::Assert(c, msg) => (eval_with(c, env, fuel), true, msg),
        Statement::AssertTrue(c, msg) => (eval_with(c, env, fuel), true, msg),
        Statement::AssertFalse(c, msg) => (eval_with(c, env, fuel), false, msg),
        Statement::AssertEQ(a, b, msg) | Statement::AssertNEQ(a, b, msg) => {
            let op = match stmt {
                Statement::AssertEQ(_, _, _) => TacBinaryOp::Eq,
                _ => TacBinaryOp::Neq,
            };
            let rc = match eval_with(a, env, fuel) {
                Err(x) => Err(x),
                Ok(ExpressionResult::Propagate(x)) => Ok(ExpressionResult::Propagate(x)),
                Ok(ExpressionResult::Value(va)) => match eval_with(b, env, fuel) {
                    Err(x) => Err(x),
                    Ok(ExpressionResult::Propagate(x)) => Ok(ExpressionResult::Propagate(x)),
                    Ok(ExpressionResult::Value(vb)) => match binop_values(op, &va, &vb) {
                        Ok(v) => Ok(ExpressionResult::Value(v)),
                        Err(e) => Err(e),
                    },
                },
            };
            (rc, true, msg)
        },
        _ => (Err(String::new()), true, &Expression::CVoid),
    };
    match rc {
        Err(x) => Err(x),
        Ok(ExpressionResult::Propagate(x)) => Ok(Computation::PropagateError(x, env.duplicate())),
        Ok(ExpressionResult::Value(v)) => {
            let holds = match v {
                Expression::CTrue => Some(true),
                Expression::CFalse => Some(false),
                _ => None,
            };
            match holds {
                None => Err(String::from_str("Condition must evaluate to a boolean")),
                Some(t) => {
                    if t == expected {
                        Ok(Computation::Continue(env.duplicate()))
                    } else {
                        match eval_with(msg, env, fuel) {
                            Err(x) => Err(x),
                            Ok(ExpressionResult::Propagate(x)) => Ok(Computation::PropagateError(x, env.duplicate())),
                            Ok(ExpressionResult::Value(Expression::CString(s))) => Err(s),
                            Ok(ExpressionResult::Value(_)) => Err(String::from_str("Assertion failed")),
                        }
                    }
                },
            }
        },
    }
}

/// Runs a declaration, an assignment, a definition or a `return`.
fn execute_simple(stmt: &Statement, env: &Environment<Expression>, fuel: u64) -> (r: Result<Computation, String>)
    requires
        env.wf(),
        !(stmt@ is IfThenElse || stmt@ is Block || stmt@ is While || stmt@ is For || stmt@ is Sequence),
        !(stmt@ is Assert || stmt@ is AssertTrue || stmt@ is AssertFalse || stmt@ is AssertEQ || stmt@ is AssertNEQ),
    ensures
        comp_view(r) == exec_spec(stmt@, env.model(), fuel as nat),
        comp_wf(r, env.current_func@),
    decreases fuel, stmt, 0int,
{
    let ghost m = env.model();
    proof {
        lemma_exec_simple(stmt@, m, fuel as nat);
    }
    match stmt {
        Statement::VarDeclaration(n, e) => match eval_with(e, env, fuel) {
            Err(x) => Err(x),
            Ok(ExpressionResult::Propagate(x)) => Ok(Computation::PropagateError(x, env.duplicate())),
            Ok(ExpressionResult::Value(v)) => {
                let mut ne = env.duplicate();
                ne.map_variable(n.clone(), true, v);
                Ok(Computation::Continue(ne))
            },
        },
        Statement::ValDeclaration(n, e) => match eval_with(e, env, fuel) {
            Err(x) => Err(x),
            Ok(ExpressionResult::Propagate(x)) => Ok(Computation::PropagateError(x, env.duplicate())),
            Ok(ExpressionResult::Value(v)) => {
                let mut ne = env.duplicate();
                ne.map_variable(n.clone(), false, v);
                Ok(Computation::Continue(ne))
            },
        },
        Statement::Assignment(n, e) => {
            match &**e {
                Expression::Lambda(f) => {
                    let mut g = clone_function(f);
                    g.name = n.clone();
                    assert(g@ == (FunctionV { name: n@, kind: f@.kind, params: f@.params, body: f@.body }));
                    let mut ne = env.duplicate();
                    ne.map_function(g);
                    assert(e@ == ExprV::Lambda(f@));
                    Ok(Computation::Continue(ne))
                },
                _ => match eval_with(e, env, fuel) {
                    Err(x) => Err(x),
                    Ok(ExpressionResult::Propagate(x)) => Ok(Computation::PropagateError(x, env.duplicate())),
                    Ok(ExpressionResult::Value(v)) => match env.lookup(n) {
                        Some(b) => {
                            if !b.0 {
                                Ok(Computation::PropagateError(
                                    Expression::CString(concat3("Cannot assign to immutable variable '", n.as_str(), "'")),
                                    env.duplicate(),
                                ))
                            } else {
                                let mut ne = env.duplicate();
                                ne.update_existing_variable(n, v);
                                Ok(Computation::Continue(ne))
                            }
                        },
                        None => {
                            let mut ne = env.duplicate();
                            ne.map_variable(n.clone(), true, v);
                            Ok(Computation::Continue(ne))
                        },
                    },
                },
            }
        },
        Statement::FuncDef(f) => {
            let mut ne = env.duplicate();
            ne.map_function(clone_function(f));
            Ok(Computation::Continue(ne))
        },
        Statement::TestDef(f) => {
            let mut ne = env.duplicate();
            ne.map_test(clone_function(f));
            Ok(Computation::Continue(ne))
        },
        Statement::Return(e) => match eval_with(e, env, fuel) {
            Err(x) => Err(x),
            Ok(ExpressionResult::Propagate(x)) => Ok(Computation::PropagateError(x, env.duplicate())),
            Ok(ExpressionResult::Value(v)) => Ok(Computation::Return(v, env.duplicate())),
        },
        Statement::TypeDeclaration(n, cs) => {
            let mut ne = env.duplicate();
            ne.map_adt(n.clone(), clone_ctors(cs));
            Ok(Computation::Continue(ne))
        },
        _ => Err(String::from_str("not implemented yet")),
    }
}

} // verus!

verus! {

/// The step budget of `execute`, `execute_block`, `run` and `run_tests`: a
/// function call and a loop iteration each take a step. A run that would
/// need more steps ends with the error "Step limit reached"; a run that ends
/// otherwise within the budget ends the same way with any larger budget
/// (`law_larger_budget_same_result`), so the budget changes no result but the
/// ones it cuts off.
pub const STEP_LIMIT: u64 = 1000000000;

/// The environment in which a program starts: no binding at all.
pub open spec fn empty_env() -> EnvM<ExprV> {
    EnvM { globals: empty_scope(), stack: seq![] }
}

/// The environment after running a statement, whatever way it ended.
pub open spec fn run_spec(s: StmtV, m: EnvM<ExprV>, fuel: nat) -> Result<EnvM<ExprV>, Seq<char>> {
    match exec_spec(s, m, fuel) {
        Ok(CompV::Continue(e)) => Ok(e),
        Ok(CompV::Return(_, e)) => Ok(e),
        Ok(CompV::PropagateError(_, e)) => Ok(e),
        Err(x) => Err(x),
    }
}

/// The view of a test result.
pub struct TestResultV {
    pub name: Seq<char>,
    pub result: bool,
    pub error: Option<Seq<char>>,
}

/// The view of a test result.
pub open spec fn test_result_view(t: TestResult) -> TestResultV {
    TestResultV {
        name: t.name@,
        result: t.result,
        error: match t.error {
            Some(e) => Some(e@),
            None => None,
        },
    }
}

/// The views of a list of test results.
pub open spec fn test_results_view(s: Seq<TestResult>) -> Seq<TestResultV> {
    s.map_values(|t: TestResult| test_result_view(t))
}

/// The result of one test: its body run in a new scope over the program's
/// environment; a test without a body has no result.
pub open spec fn test_outcome(t: FunctionV, m: EnvM<ExprV>, fuel: nat) -> Option<TestResultV> {
    match t.body {
        None => None,
        Some(b) => Some(
            match exec_spec(*b, m.push(), fuel) {
                Ok(CompV::Continue(_)) => TestResultV { name: t.name, result: true, error: None },
                Ok(CompV::Return(_, _)) => TestResultV { name: t.name, result: true, error: None },
                Err(e) => TestResultV { name: t.name, result: false, error: Some(e) },
                Ok(CompV::PropagateError(x, _)) => TestResultV {
                    name: t.name,
                    result: false,
                    error: Some("Propagated error: "@ + expr_dbg(x)),
                },
            },
        ),
    }
}

/// The results of the tests, in order.
pub open spec fn test_results(ts: Seq<FunctionV>, m: EnvM<ExprV>, fuel: nat) -> Seq<TestResultV>
    decreases ts.len(),
{
    if ts.len() == 0 {
        seq![]
    } else {
        test_results(ts.drop_last(), m, fuel) + match test_outcome(ts.last(), m, fuel) {
            Some(r) => seq![r],
            None => seq![],
        }
    }
}

/// Running a program's tests: the program runs first; if it fails, its error
/// is the answer; otherwise each test it defines is run.
pub open spec fn run_tests_spec(s: StmtV, fuel: nat) -> Result<Seq<TestResultV>, Seq<char>> {
    match run_spec(s, empty_env(), fuel) {
        Err(x) => Err(x),
        Ok(m) => Ok(test_results(m.all_tests(), m, fuel)),
    }
}

/// Evaluates an expression.
pub fn eval(expr: &Expression, env: &Environment<Expression>) -> (r: Result<ExpressionResult, String>)
    requires
        env.wf(),
    ensures
        eval_view(r) == eval_spec(expr@, env.model(), STEP_LIMIT as nat),
{
    eval_with(expr, env, STEP_LIMIT)
}

/// Runs a statement.
pub fn execute(stmt: Statement, env: &Environment<Expression>) -> (r: Result<Computation, String>)
    requires
        env.wf(),
    ensures
        comp_view(r) == exec_spec(stmt@, env.model(), STEP_LIMIT as nat),
        comp_wf(r, env.current_func@),
{
    execute_with(&stmt, env, STEP_LIMIT)
}

/// Runs statements in order: the first that does not go on ends the block.
pub fn execute_block(stmts: Vec<Statement>, env: &Environment<Expression>) -> (r: Result<Computation, String>)
    requires
        env.wf(),
    ensures
        comp_view(r) == exec_spec(StmtV::Block(stmts_view(stmts@)), env.model(), STEP_LIMIT as nat),
        comp_wf(r, env.current_func@),
{
    proof {
        lemma_exec_block(stmts_view(stmts@), env.model(), STEP_LIMIT as nat);
    }
    execute_block_with(&stmts, env, STEP_LIMIT)
}

/// Runs a statement and gives the environment it ends with, whose current
/// function is that of `env`.
pub fn run(stmt: Statement, env: &Environment<Expression>) -> (r: Result<Environment<Expression>, String>)
    requires
        env.wf(),
    ensures
        match r {
            Ok(e) => e.wf() && run_spec(stmt@, env.model(), STEP_LIMIT as nat) == Ok::<EnvM<ExprV>, Seq<char>>(e.model()),
            Err(x) => run_spec(stmt@, env.model(), STEP_LIMIT as nat) == Err::<EnvM<ExprV>, Seq<char>>(x@),
        },
        r matches Ok(e) ==> e.current_func@ == env.current_func@,
{
    match execute_with(&stmt, env, STEP_LIMIT) {
        Ok(Computation::Continue(e)) => Ok(e),
        Ok(Computation::Return(_, e)) => Ok(e),
        Ok(Computation::PropagateError(_, e)) => Ok(e),
        Err(x) => Err(x),
    }
}

/// Runs a program, then each test it defines, each in a new scope over the
/// program's environment.
pub fn run_tests(stmt: &Statement) -> (r: Result<Vec<TestResult>, String>)
    ensures
        match r {
            Ok(v) => run_tests_spec(stmt@, STEP_LIMIT as nat) == Ok::<Seq<TestResultV>, Seq<char>>(test_results_view(v@)),
            Err(x) => run_tests_spec(stmt@, STEP_LIMIT as nat) == Err::<Seq<TestResultV>, Seq<char>>(x@),
        },
{
    let start: Environment<Expression> = Environment::new();
    assert(start.model().globals.vars =~= empty_env().globals.vars);
    assert(start.model().stack =~= empty_env().stack);
    assert(start.model() == empty_env());
    let env = match execute_with(stmt, &start, STEP_LIMIT) {
        Ok(Computation::Continue(e)) => e,
        Ok(Computation::Return(_, e)) => e,
        Ok(Computation::PropagateError(_, e)) => e,
        Err(x) => {
            return Err(x);
        },
    };
    let ghost m = env.model();
    let tests = env.get_all_tests();
    let ghost ts = m.all_tests();
    let mut results: Vec<TestResult> = Vec::new();
    let mut i: usize = 0;
    assert(ts.subrange(0, 0) =~= Seq::<FunctionV>::empty());
    assert(test_results_view(results@) =~= Seq::<TestResultV>::empty());
    while i < tests.len()
        invariant
            env.wf(),
            m == env.model(),
            ts == m.all_tests(),
            crate::environment::functions_view(tests@) == ts,
            ts.len() == tests.len(),
            i <= tests.len(),
            test_results_view(results@) == test_results(ts.subrange(0, i as int), m, STEP_LIMIT as nat),
        decreases tests.len() - i,
    {
        let ghost sub = ts.subrange(0, i + 1);
        proof {
            assert(sub.drop_last() =~= ts.subrange(0, i as int));
            assert(ts[i as int] == tests@[i as int]@);
        }
        let test = &tests[i];
        let ghost before = results@;
        match &test.body {
            None => {},
            Some(body) => {
                let mut test_env = env.duplicate();
                test_env.push();
                let outcome = match execute_with(body, &test_env, STEP_LIMIT) {
                    Ok(Computation::Continue(_)) | Ok(Computation::Return(_, _)) => TestResult::new(test.name.clone(), true, None),
                    Err(e) => TestResult::new(test.name.clone(), false, Some(e)),
                    Ok(Computation::PropagateError(e, _)) => {
                        let mut text = String::from_str("Propagated error: ");
                        append_str(&mut text, e.debug_text().as_str());
                        TestResult::new(test.name.clone(), false, Some(text))
                    },
                };
                results.push(outcome);
            },
        }
        assert(test_results_view(results@) =~= test_results(sub, m, STEP_LIMIT as nat));
        i = i + 1;
    }
    assert(ts.subrange(0, tests.len() as int) =~= ts);
    Ok(results)
}

} // verus!

verus! {

/// A `var` declaration binds its name, mutably, to the value of its
/// expression; a `val` declaration binds it immutably.
pub proof fn law_declaration_binds(n: Seq<char>, e: ExprV, m: EnvM<ExprV>, fuel: nat, v: ExprV)
    requires
        eval_spec(e, m, fuel) == Ok::<EvalV, Seq<char>>(EvalV::Value(v)),
    ensures
        exec_spec(StmtV::VarDeclaration(n, e), m, fuel) == Ok::<CompV, Seq<char>>(CompV::Continue(m.declare(n, true, v))),
        exec_spec(StmtV::ValDeclaration(n, e), m, fuel) == Ok::<CompV, Seq<char>>(CompV::Continue(m.declare(n, false, v))),
        m.declare(n, true, v).lookup(n) == Some((true, v)),
        m.declare(n, false, v).lookup(n) == Some((false, v)),
{
    lemma_exec_simple(StmtV::VarDeclaration(n, e), m, fuel);
    lemma_exec_simple(StmtV::ValDeclaration(n, e), m, fuel);
    crate::environment::law_declare_then_lookup(m, n, true, v, n);
    crate::environment::law_declare_then_lookup(m, n, false, v, n);
}

/// Assigning to an immutable variable changes nothing and propagates an
/// error message naming the variable.
pub proof fn law_immutable_assignment_refused(n: Seq<char>, e: ExprV, m: EnvM<ExprV>, fuel: nat, v: ExprV, old_v: ExprV)
    requires
        !(e is Lambda),
        eval_spec(e, m, fuel) == Ok::<EvalV, Seq<char>>(EvalV::Value(v)),
        m.lookup(n) == Some((false, old_v)),
    ensures
        exec_spec(StmtV::Assignment(n, e), m, fuel) == Ok::<CompV, Seq<char>>(
            CompV::PropagateError(ExprV::CString(msg_immutable(n)), m),
        ),
{
    lemma_exec_simple(StmtV::Assignment(n, e), m, fuel);
}

/// Assigning to a mutable variable gives it the new value and keeps it
/// mutable; assigning to an unbound name declares it mutable.
pub proof fn law_mutable_assignment(n: Seq<char>, e: ExprV, m: EnvM<ExprV>, fuel: nat, v: ExprV)
    requires
        !(e is Lambda),
        eval_spec(e, m, fuel) == Ok::<EvalV, Seq<char>>(EvalV::Value(v)),
        m.lookup(n) is None || m.lookup(n).unwrap().0,
    ensures
        exec_spec(StmtV::Assignment(n, e), m, fuel) matches Ok(CompV::Continue(m2)) && m2.lookup(n) == Some((true, v)),
{
    lemma_exec_simple(StmtV::Assignment(n, e), m, fuel);
    if m.lookup(n) is None {
        crate::environment::law_declare_then_lookup(m, n, true, v, n);
    } else {
        crate::environment::law_update_then_lookup(m, n, v, n);
    }
}

/// A loop whose condition is false runs no iteration and changes nothing.
pub proof fn law_while_false(c: ExprV, b: StmtV, m: EnvM<ExprV>, fuel: nat)
    requires
        fuel > 0,
        eval_spec(c, m, fuel) == Ok::<EvalV, Seq<char>>(EvalV::Value(ExprV::CFalse)),
    ensures
        exec_spec(StmtV::While(c, Box::new(b)), m, fuel) == Ok::<CompV, Seq<char>>(CompV::Continue(m)),
{
    lemma_exec_while(c, b, m, fuel);
}

/// A `return` ends a block: the statements after it do not run.
pub proof fn law_return_ends_block(e: ExprV, rest: Seq<StmtV>, m: EnvM<ExprV>, fuel: nat, v: ExprV)
    requires
        eval_spec(e, m, fuel) == Ok::<EvalV, Seq<char>>(EvalV::Value(v)),
    ensures
        exec_spec(StmtV::Block(seq![StmtV::Return(e)] + rest), m, fuel) == Ok::<CompV, Seq<char>>(CompV::Return(v, m)),
{
    let ss = seq![StmtV::Return(e)] + rest;
    lemma_exec_block(ss, m, fuel);
    lemma_block_step(ss, 0, m, fuel);
    assert(ss[0] == StmtV::Return(e));
    lemma_exec_simple(StmtV::Return(e), m, fuel);
}

/// `?` unwraps an `Ok` value; on an `Err` value it stops the block it
/// stands in: a declaration of `e?` where `e` evaluates to `Err(x)` ends the
/// block, propagating `x`, and the environment is left as it was.
pub proof fn law_error_propagates(n: Seq<char>, e: ExprV, rest: Seq<StmtV>, m: EnvM<ExprV>, fuel: nat, x: ExprV)
    ensures
        eval_spec(e, m, fuel) == Ok::<EvalV, Seq<char>>(EvalV::Value(ExprV::COk(Box::new(x)))) ==> eval_spec(
            ExprV::Propagate(Box::new(e)),
            m,
            fuel,
        ) == Ok::<EvalV, Seq<char>>(EvalV::Value(x)),
        eval_spec(e, m, fuel) == Ok::<EvalV, Seq<char>>(EvalV::Value(ExprV::CErr(Box::new(x)))) ==> exec_spec(
            StmtV::Block(seq![StmtV::ValDeclaration(n, ExprV::Propagate(Box::new(e)))] + rest),
            m,
            fuel,
        ) == Ok::<CompV, Seq<char>>(CompV::PropagateError(x, m)),
{
    let p = ExprV::Propagate(Box::new(e));
    lemma_eval_unary(p, m, fuel);
    let d = StmtV::ValDeclaration(n, p);
    let ss = seq![d] + rest;
    lemma_exec_block(ss, m, fuel);
    lemma_block_step(ss, 0, m, fuel);
    assert(ss[0] == d);
    lemma_exec_simple(d, m, fuel);
}

/// An assertion that holds changes nothing; one that fails with a string
/// message is an error carrying that message.
pub proof fn law_assertion(c: ExprV, msg: ExprV, m: EnvM<ExprV>, fuel: nat, text: Seq<char>)
    requires
        eval_spec(msg, m, fuel) == Ok::<EvalV, Seq<char>>(EvalV::Value(ExprV::CString(text))),
    ensures
        eval_spec(c, m, fuel) == Ok::<EvalV, Seq<char>>(EvalV::Value(ExprV::CTrue)) ==> exec_spec(
            StmtV::AssertTrue(c, msg),
            m,
            fuel,
        ) == Ok::<CompV, Seq<char>>(CompV::Continue(m)),
        eval_spec(c, m, fuel) == Ok::<EvalV, Seq<char>>(EvalV::Value(ExprV::CFalse)) ==> exec_spec(
            StmtV::AssertTrue(c, msg),
            m,
            fuel,
        ) == Err::<CompV, Seq<char>>(text),
        eval_spec(c, m, fuel) == Ok::<EvalV, Seq<char>>(EvalV::Value(ExprV::CFalse)) ==> exec_spec(
            StmtV::AssertFalse(c, msg),
            m,
            fuel,
        ) == Ok::<CompV, Seq<char>>(CompV::Continue(m)),
{
    lemma_exec_simple(StmtV::AssertTrue(c, msg), m, fuel);
    lemma_exec_simple(StmtV::AssertFalse(c, msg), m, fuel);
}

/// Tests run in isolation: each one in its own scope over the program's
/// environment, so the results for two lists of tests run one after the
/// other are the results for each list, one after the other.
pub proof fn law_tests_are_isolated(ts1: Seq<FunctionV>, ts2: Seq<FunctionV>, m: EnvM<ExprV>, fuel: nat)
    ensures
        test_results(ts1 + ts2, m, fuel) == test_results(ts1, m, fuel) + test_results(ts2, m, fuel),
    decreases ts2.len(),
{
    if ts2.len() == 0 {
        assert(ts1 + ts2 =~= ts1);
        assert(test_results(ts2, m, fuel) =~= Seq::<TestResultV>::empty());
        assert(test_results(ts1, m, fuel) + test_results(ts2, m, fuel) =~= test_results(ts1, m, fuel));
    } else {
        let all = ts1 + ts2;
        assert(all.drop_last() =~= ts1 + ts2.drop_last());
        assert(all.last() == ts2.last());
        law_tests_are_isolated(ts1, ts2.drop_last(), m, fuel);
        let tail = match test_outcome(ts2.last(), m, fuel) {
            Some(r) => seq![r],
            None => Seq::<TestResultV>::empty(),
        };
        assert(test_results(all, m, fuel) == test_results(all.drop_last(), m, fuel) + tail);
        assert(test_results(ts2, m, fuel) == test_results(ts2.drop_last(), m, fuel) + tail);
        assert(test_results(all, m, fuel) =~= test_results(ts1, m, fuel) + test_results(ts2, m, fuel));
    }
}

/// The tests that have a body, in order.
pub open spec fn tests_with_body(ts: Seq<FunctionV>) -> Seq<FunctionV>
    decreases ts.len(),
{
    if ts.len() == 0 {
        seq![]
    } else if ts.last().body is Some {
        tests_with_body(ts.drop_last()).push(ts.last())
    } else {
        tests_with_body(ts.drop_last())
    }
}

/// Running the tests of a program fails exactly when running the program
/// fails, with its error; otherwise there is one result per test with a
/// body, in the order of the program's tests, named after it, and a test
/// passes exactly when its result carries no error.
pub proof fn law_run_tests_reports_each_test(s: StmtV, fuel: nat)
    ensures
        run_spec(s, empty_env(), fuel) matches Err(x) ==> run_tests_spec(s, fuel) == Err::<Seq<TestResultV>, Seq<char>>(x),
        run_spec(s, empty_env(), fuel) matches Ok(m) ==> {
            let ts = tests_with_body(m.all_tests());
            &&& run_tests_spec(s, fuel) is Ok
            &&& run_tests_spec(s, fuel)->Ok_0.len() == ts.len()
            &&& forall|i: int|
                0 <= i < ts.len() ==> (#[trigger] run_tests_spec(s, fuel)->Ok_0[i]).name == ts[i].name
                    && (run_tests_spec(s, fuel)->Ok_0[i].result <==> run_tests_spec(s, fuel)->Ok_0[i].error is None)
        },
{
    if let Ok(m) = run_spec(s, empty_env(), fuel) {
        lemma_test_results_shape(m.all_tests(), m, fuel);
    }
}

/// One result per test with a body, named after it, passing exactly when it
/// carries no error.
proof fn lemma_test_results_shape(ts: Seq<FunctionV>, m: EnvM<ExprV>, fuel: nat)
    ensures
        test_results(ts, m, fuel).len() == tests_with_body(ts).len(),
        forall|i: int|
            0 <= i < tests_with_body(ts).len() ==> (#[trigger] test_results(ts, m, fuel)[i]).name
                == tests_with_body(ts)[i].name && (test_results(ts, m, fuel)[i].result
                <==> test_results(ts, m, fuel)[i].error is None),
    decreases ts.len(),
{
    if ts.len() > 0 {
        lemma_test_results_shape(ts.drop_last(), m, fuel);
        let prev = test_results(ts.drop_last(), m, fuel);
        let wb = tests_with_body(ts.drop_last());
        if ts.last().body is Some {
            let r = test_outcome(ts.last(), m, fuel).unwrap();
            assert(test_results(ts, m, fuel) == prev + seq![r]);
            assert forall|i: int| 0 <= i < tests_with_body(ts).len() implies (#[trigger] test_results(ts, m, fuel)[i]).name
                == tests_with_body(ts)[i].name && (test_results(ts, m, fuel)[i].result
                <==> test_results(ts, m, fuel)[i].error is None) by {
                if i < wb.len() {
                    assert(test_results(ts, m, fuel)[i] == prev[i]);
                    assert(tests_with_body(ts)[i] == wb[i]);
                } else {
                    assert(test_results(ts, m, fuel)[i] == r);
                    assert(tests_with_body(ts)[i] == ts.last());
                }
            }
        } else {
            assert(test_results(ts, m, fuel) =~= prev);
        }
    }
}

/// A variable is bound, if at all, only in the innermost scope (the global
/// one when there is no local scope).
pub open spec fn bound_only_on_top(m: EnvM<ExprV>, v: Seq<char>) -> bool {
    m.stack.len() > 0 ==> {
        &&& !m.globals.vars.dom().contains(v)
        &&& forall|i: int| 0 <= i < m.stack.len() - 1 ==> !(#[trigger] m.stack[i]).vars.dom().contains(v)
    }
}

/// A lookup finds nothing exactly when no scope binds the name.
proof fn lemma_lookup_in_none(stack: Seq<ScopeM<ExprV>>, globals: ScopeM<ExprV>, k: Seq<char>)
    ensures
        (lookup_in(stack, globals, k) is None) == (!globals.vars.dom().contains(k) && forall|i: int|
            0 <= i < stack.len() ==> !(#[trigger] stack[i]).vars.dom().contains(k)),
    decreases stack.len(),
{
    if stack.len() > 0 {
        lemma_lookup_in_none(stack.drop_last(), globals, k);
        if lookup_in(stack, globals, k) is None {
            assert forall|i: int| 0 <= i < stack.len() implies !(#[trigger] stack[i]).vars.dom().contains(k) by {
                if i < stack.len() - 1 {
                    assert(stack.drop_last()[i] == stack[i]);
                }
            }
        } else if !globals.vars.dom().contains(k) && forall|i: int|
            0 <= i < stack.len() ==> !(#[trigger] stack[i]).vars.dom().contains(k) {
            assert(!stack[stack.len() - 1].vars.dom().contains(k));
            assert forall|i: int| 0 <= i < stack.drop_last().len() implies !(
            #[trigger] stack.drop_last()[i]).vars.dom().contains(k) by {
                assert(stack.drop_last()[i] == stack[i]);
            }
        }
    }
}

/// The innermost local scope that binds a name binds it, and no scope
/// inside it does.
proof fn lemma_home_in(stack: Seq<ScopeM<ExprV>>, k: Seq<char>)
    ensures
        -1 <= home_in(stack, k) < stack.len(),
        home_in(stack, k) >= 0 ==> stack[home_in(stack, k)].vars.dom().contains(k),
        forall|j: int| home_in(stack, k) < j < stack.len() ==> !(#[trigger] stack[j]).vars.dom().contains(k),
    decreases stack.len(),
{
    if stack.len() > 0 && !stack.last().vars.dom().contains(k) {
        lemma_home_in(stack.drop_last(), k);
        assert forall|j: int| home_in(stack, k) < j < stack.len() implies !(
        #[trigger] stack[j]).vars.dom().contains(k) by {
            if j < stack.len() - 1 {
                assert(stack.drop_last()[j] == stack[j]);
            }
        }
        if home_in(stack, k) >= 0 {
            assert(stack.drop_last()[home_in(stack, k)] == stack[home_in(stack, k)]);
        }
    }
}

/// Changing only the innermost scope keeps a variable bound only there.
proof fn lemma_with_top_only_on_top(m: EnvM<ExprV>, t: ScopeM<ExprV>, v: Seq<char>)
    requires
        bound_only_on_top(m, v),
    ensures
        bound_only_on_top(m.with_top(t), v),
        m.with_top(t).stack.len() == m.stack.len(),
{
    if m.stack.len() > 0 {
        let n = m.with_top(t);
        assert forall|i: int| 0 <= i < n.stack.len() - 1 implies !(#[trigger] n.stack[i]).vars.dom().contains(v) by {
            assert(n.stack[i] == m.stack[i]);
        }
    }
}

/// Giving a binding a new value or removing one keeps a variable bound only
/// in the innermost scope.
proof fn lemma_update_remove_only_on_top(m: EnvM<ExprV>, k: Seq<char>, x: ExprV, v: Seq<char>)
    requires
        bound_only_on_top(m, v),
    ensures
        bound_only_on_top(m.update(k, x), v),
        bound_only_on_top(m.remove(k), v),
        m.update(k, x).stack.len() == m.stack.len(),
        m.remove(k).stack.len() == m.stack.len(),
{
    lemma_home_in(m.stack, k);
    let h = home_in(m.stack, k);
    if m.stack.len() > 0 {
        let u = m.update(k, x);
        let r = m.remove(k);
        assert forall|i: int| 0 <= i < u.stack.len() - 1 implies !(#[trigger] u.stack[i]).vars.dom().contains(v) by {
            if i == h {
                assert(m.stack[h].vars.dom().contains(k));
                assert(u.stack[i].vars.dom() =~= m.stack[i].vars.dom().insert(k));
            } else {
                assert(u.stack[i] == m.stack[i]);
            }
        }
        assert forall|i: int| 0 <= i < r.stack.len() - 1 implies !(#[trigger] r.stack[i]).vars.dom().contains(v) by {
            if i != h {
                assert(r.stack[i] == m.stack[i]);
            }
        }
        if h < 0 && m.globals.vars.dom().contains(k) {
            assert(u.globals.vars.dom() =~= m.globals.vars.dom().insert(k));
        }
    }
}

/// Running a statement keeps a variable bound only in the innermost scope:
/// no statement binds a variable in another scope, or opens one that stays.
proof fn lemma_exec_only_on_top(s: StmtV, m: EnvM<ExprV>, fuel: nat, v: Seq<char>)
    requires
        bound_only_on_top(m, v),
    ensures
        exec_spec(s, m, fuel) matches Ok(CompV::Continue(m2)) ==> bound_only_on_top(m2, v) && m2.stack.len()
            == m.stack.len(),
    decreases fuel, s, 0int,
{
    reveal(exec_spec);
    let t = m.top();
    match s {
        StmtV::VarDeclaration(n, e) | StmtV::ValDeclaration(n, e) => {
            if let Ok(EvalV::Value(x)) = eval_spec(e, m, fuel) {
                lemma_with_top_only_on_top(m, ScopeM { vars: t.vars.insert(n, (true, x)), funcs: t.funcs, tests: t.tests, adts: t.adts }, v);
                lemma_with_top_only_on_top(m, ScopeM { vars: t.vars.insert(n, (false, x)), funcs: t.funcs, tests: t.tests, adts: t.adts }, v);
            }
        },
        StmtV::Assignment(n, e) => {
            lemma_assignment_only_on_top(n, e, m, fuel, v);
        },
        StmtV::IfThenElse(c, th, el) => {
            lemma_exec_only_on_top(*th, m, fuel, v);
            if let Some(x) = el {
                lemma_exec_only_on_top(*x, m, fuel, v);
            }
        },
        StmtV::Block(ss) => {
            lemma_exec_block(ss, m, fuel);
            lemma_block_only_on_top(ss, 0, m, fuel, v);
        },
        StmtV::While(c, b) => {
            if fuel > 0 {
                let f1 = (fuel - 1) as nat;
                lemma_exec_only_on_top(*b, m, f1, v);
                if let Ok(CompV::Continue(m2)) = exec_spec(*b, m, f1) {
                    lemma_exec_only_on_top(s, m2, f1, v);
                }
            }
        },
        StmtV::For(x, e, b) => {
            lemma_exec_for(x, e, *b, m, fuel);
            if let Ok(EvalV::Value(coll)) = eval_spec(e, m, fuel) {
                if let Some(items) = iter_items(coll) {
                    lemma_for_only_on_top(x, items, 0, *b, m, fuel, v);
                }
            }
        },
        StmtV::Sequence(a, b) => {
            lemma_exec_only_on_top(*a, m, fuel, v);
            if let Ok(CompV::Continue(m2)) = exec_spec(*a, m, fuel) {
                lemma_exec_only_on_top(*b, m2, fuel, v);
            }
        },
        StmtV::FuncDef(f) => {
            lemma_with_top_only_on_top(m, ScopeM { vars: t.vars, funcs: seq_move_last(t.funcs, signature_of(f), f), tests: t.tests, adts: t.adts }, v);
        },
        StmtV::TestDef(f) => {
            lemma_with_top_only_on_top(m, ScopeM { vars: t.vars, funcs: t.funcs, tests: seq_insert(t.tests, f.name, f), adts: t.adts }, v);
        },
        StmtV::TypeDeclaration(n, cs) => {
            lemma_with_top_only_on_top(m, ScopeM { vars: t.vars, funcs: t.funcs, tests: t.tests, adts: t.adts.insert(n, cs) }, v);
        },
        _ => {},
    }
}

/// An assignment keeps a variable bound only in the innermost scope.
proof fn lemma_assignment_only_on_top(n: Seq<char>, e: ExprV, m: EnvM<ExprV>, fuel: nat, v: Seq<char>)
    requires
        bound_only_on_top(m, v),
    ensures
        exec_spec(StmtV::Assignment(n, e), m, fuel) matches Ok(CompV::Continue(m2)) ==> bound_only_on_top(m2, v)
            && m2.stack.len() == m.stack.len(),
{
    lemma_exec_simple(StmtV::Assignment(n, e), m, fuel);
    let t = m.top();
    if let ExprV::Lambda(f) = e {
        let g = FunctionV { name: n, kind: f.kind, params: f.params, body: f.body };
        lemma_with_top_only_on_top(
            m,
            ScopeM { vars: t.vars, funcs: seq_move_last(t.funcs, signature_of(g), g), tests: t.tests, adts: t.adts },
            v,
        );
    } else if let Ok(EvalV::Value(x)) = eval_spec(e, m, fuel) {
        lemma_update_remove_only_on_top(m, n, x, v);
        lemma_with_top_only_on_top(
            m,
            ScopeM { vars: t.vars.insert(n, (true, x)), funcs: t.funcs, tests: t.tests, adts: t.adts },
            v,
        );
    }
}

/// The statements of a block keep a variable bound only in the innermost
/// scope.
proof fn lemma_block_only_on_top(ss: Seq<StmtV>, i: int, m: EnvM<ExprV>, fuel: nat, v: Seq<char>)
    requires
        bound_only_on_top(m, v),
    ensures
        block_spec(ss, i, m, fuel) matches Ok(CompV::Continue(m2)) ==> bound_only_on_top(m2, v) && m2.stack.len()
            == m.stack.len(),
    decreases fuel, ss, ss.len() - i,
{
    lemma_block_step(ss, i, m, fuel);
    if 0 <= i < ss.len() {
        lemma_exec_only_on_top(ss[i], m, fuel, v);
        if let Ok(CompV::Continue(m2)) = exec_spec(ss[i], m, fuel) {
            lemma_block_only_on_top(ss, i + 1, m2, fuel, v);
        }
    }
}

/// A `for` loop keeps a variable bound only in the innermost scope.
proof fn lemma_for_only_on_top(
    x: Seq<char>,
    items: Seq<ExprV>,
    i: int,
    body: StmtV,
    m: EnvM<ExprV>,
    fuel: nat,
    v: Seq<char>,
)
    requires
        bound_only_on_top(m, v),
    ensures
        for_spec(x, items, i, body, m, fuel) matches Ok(CompV::Continue(m2)) ==> bound_only_on_top(m2, v)
            && m2.stack.len() == m.stack.len(),
    decreases fuel, body, items.len() - i,
{
    lemma_for_step(x, items, i, body, m, fuel);
    if 0 <= i < items.len() {
        let t = m.top();
        let m1 = m.declare(x, false, items[i]);
        lemma_with_top_only_on_top(m, ScopeM { vars: t.vars.insert(x, (false, items[i])), funcs: t.funcs, tests: t.tests, adts: t.adts }, v);
        lemma_exec_only_on_top(body, m1, fuel, v);
        if let Ok(CompV::Continue(m2)) = exec_spec(body, m1, fuel) {
            let m3 = m2.remove(x);
            lemma_update_remove_only_on_top(m2, x, ExprV::CVoid, v);
            let prev = m.lookup(x);
            if let Some(b) = prev {
                let t3 = m3.top();
                lemma_with_top_only_on_top(m3, ScopeM { vars: t3.vars.insert(x, (b.0, b.1)), funcs: t3.funcs, tests: t3.tests, adts: t3.adts }, v);
            }
            lemma_for_only_on_top(x, items, i + 1, body, restore(m3, x, prev), fuel, v);
        }
    }
}

/// Removing the innermost binding of a variable bound only in the innermost
/// scope leaves it unbound.
proof fn lemma_remove_only_on_top(m: EnvM<ExprV>, v: Seq<char>)
    requires
        bound_only_on_top(m, v),
    ensures
        m.remove(v).lookup(v) is None,
{
    let r = m.remove(v);
    lemma_home_in(m.stack, v);
    lemma_lookup_in_none(r.stack, r.globals, v);
    let h = home_in(m.stack, v);
    assert forall|i: int| 0 <= i < r.stack.len() implies !(#[trigger] r.stack[i]).vars.dom().contains(v) by {
        if i != h {
            assert(r.stack[i] == m.stack[i]);
        }
    }
}

/// A `for` loop binds its variable only while its body runs: when the loop
/// ends normally, the variable has again the binding it had before the loop,
/// or none when it had none.
pub proof fn law_for_restores_variable(v: Seq<char>, e: ExprV, body: StmtV, m: EnvM<ExprV>, fuel: nat)
    ensures
        exec_spec(StmtV::For(v, e, Box::new(body)), m, fuel) matches Ok(CompV::Continue(m3)) ==> m3.lookup(v) == m.lookup(v),
{
    lemma_exec_for(v, e, body, m, fuel);
    if let Ok(EvalV::Value(coll)) = eval_spec(e, m, fuel) {
        if let Some(items) = iter_items(coll) {
            lemma_for_restores(v, items, 0, body, m, fuel);
        }
    }
}

/// Each run of the loop's body is followed by the restoring of the loop
/// variable's earlier binding.
proof fn lemma_for_restores(v: Seq<char>, items: Seq<ExprV>, i: int, body: StmtV, m: EnvM<ExprV>, fuel: nat)
    ensures
        for_spec(v, items, i, body, m, fuel) matches Ok(CompV::Continue(m3)) ==> m3.lookup(v) == m.lookup(v),
    decreases items.len() - i,
{
    lemma_for_step(v, items, i, body, m, fuel);
    if 0 <= i < items.len() {
        let prev = m.lookup(v);
        let m1 = m.declare(v, false, items[i]);
        if let Ok(CompV::Continue(m2)) = exec_spec(body, m1, fuel) {
            let r = restore(m2.remove(v), v, prev);
            match prev {
                Some(b) => {
                    crate::environment::law_declare_then_lookup(m2.remove(v), v, b.0, b.1, v);
                },
                None => {
                    lemma_lookup_in_none(m.stack, m.globals, v);
                    let t = m.top();
                    lemma_with_top_only_on_top(
                        m,
                        ScopeM { vars: t.vars.insert(v, (false, items[i])), funcs: t.funcs, tests: t.tests, adts: t.adts },
                        v,
                    );
                    lemma_exec_only_on_top(body, m1, fuel, v);
                    lemma_remove_only_on_top(m2, v);
                },
            }
            assert(r.lookup(v) == prev);
            lemma_for_restores(v, items, i + 1, body, r, fuel);
        }
    }
}

/// A run that ends within a step budget, other than by running out of it,
/// ends the same way with any larger budget: the budget only cuts off runs
/// that have not finished.
pub proof fn law_larger_budget_same_result(s: StmtV, m: EnvM<ExprV>, f: nat, g: nat)
    requires
        f <= g,
        exec_spec(s, m, f) != Err::<CompV, Seq<char>>(msg_limit()),
    ensures
        exec_spec(s, m, g) == exec_spec(s, m, f),
{
    lemma_exec_fuel(s, m, f, g);
}

/// An evaluation that does not run out of its budget gives the same result
/// with a larger one.
proof fn lemma_eval_fuel(e: ExprV, m: EnvM<ExprV>, f: nat, g: nat)
    requires
        f <= g,
        eval_spec(e, m, f) != Err::<EvalV, Seq<char>>(msg_limit()),
    ensures
        eval_spec(e, m, g) == eval_spec(e, m, f),
    decreases f, e, 0int,
{
    reveal(eval_spec);
    reveal(eval_list_spec);
    reveal(exec_spec);
    reveal(block_spec);
    reveal(for_spec);
    match e {
        ExprV::Add(l, r) | ExprV::Sub(l, r) | ExprV::Mul(l, r) | ExprV::Div(l, r) | ExprV::And(l, r)
        | ExprV::Or(l, r) | ExprV::EQ(l, r) | ExprV::NEQ(l, r) | ExprV::GT(l, r) | ExprV::LT(l, r)
        | ExprV::GTE(l, r) | ExprV::LTE(l, r) => {
            if eval_spec(*l, m, f) != Err::<EvalV, Seq<char>>(msg_limit()) {
                lemma_eval_fuel(*l, m, f, g);
            }
            if eval_spec(*r, m, f) != Err::<EvalV, Seq<char>>(msg_limit()) {
                lemma_eval_fuel(*r, m, f, g);
            }
        },
        ExprV::Not(x) | ExprV::COk(x) | ExprV::CErr(x) | ExprV::CJust(x) | ExprV::Unwrap(x)
        | ExprV::IsError(x) | ExprV::IsNothing(x) | ExprV::Propagate(x) => {
            if eval_spec(*x, m, f) != Err::<EvalV, Seq<char>>(msg_limit()) {
                lemma_eval_fuel(*x, m, f, g);
            }
        },
        ExprV::ListValue(v) | ExprV::Tuple(v) | ExprV::Constructor(_, v) => {
            if eval_list_spec(v, m, f) != Err::<ListV, Seq<char>>(msg_limit()) {
                lemma_list_fuel(v, m, f, g);
            }
        },
        ExprV::FuncCall(name, args) => {
            if eval_list_spec(args, m, f) != Err::<ListV, Seq<char>>(msg_limit()) {
                lemma_list_fuel(args, m, f, g);
            }
            if let Ok(ListV::Values(vs)) = eval_list_spec(args, m, f) {
                if let Some(fun) = m.function_named(name) {
                    if vs.len() == fun.params.len() && f > 0 {
                        if let Some(b) = fun.body {
                            let m1 = bind_params(m.push(), fun.params, vs);
                            if exec_spec(*b, m1, (f - 1) as nat) != Err::<CompV, Seq<char>>(msg_limit()) {
                                lemma_exec_fuel(*b, m1, (f - 1) as nat, (g - 1) as nat);
                            }
                        }
                    }
                }
            }
        },
        _ => {},
    }
}

/// The evaluation of a list that does not run out of its budget gives the
/// same result with a larger one.
proof fn lemma_list_fuel(es: Seq<ExprV>, m: EnvM<ExprV>, f: nat, g: nat)
    requires
        f <= g,
        eval_list_spec(es, m, f) != Err::<ListV, Seq<char>>(msg_limit()),
    ensures
        eval_list_spec(es, m, g) == eval_list_spec(es, m, f),
    decreases f, es, 0int,
{
    reveal(eval_spec);
    reveal(eval_list_spec);
    reveal(exec_spec);
    reveal(block_spec);
    reveal(for_spec);
    if es.len() > 0 {
        if eval_list_spec(es.drop_last(), m, f) != Err::<ListV, Seq<char>>(msg_limit()) {
            lemma_list_fuel(es.drop_last(), m, f, g);
        }
        if eval_spec(es.last(), m, f) != Err::<EvalV, Seq<char>>(msg_limit()) {
            lemma_eval_fuel(es.last(), m, f, g);
        }
    }
}

/// A run of a statement that does not run out of its budget gives the same
/// result with a larger one.
proof fn lemma_exec_fuel(s: StmtV, m: EnvM<ExprV>, f: nat, g: nat)
    requires
        f <= g,
        exec_spec(s, m, f) != Err::<CompV, Seq<char>>(msg_limit()),
    ensures
        exec_spec(s, m, g) == exec_spec(s, m, f),
    decreases f, s, 0int,
{
    reveal(eval_spec);
    reveal(eval_list_spec);
    reveal(exec_spec);
    reveal(block_spec);
    reveal(for_spec);
    match s {
        StmtV::VarDeclaration(_, e) | StmtV::ValDeclaration(_, e) | StmtV::Assignment(_, e) | StmtV::Return(e) => {
            if eval_spec(e, m, f) != Err::<EvalV, Seq<char>>(msg_limit()) {
                lemma_eval_fuel(e, m, f, g);
            }
        },
        StmtV::Assert(a, msg) | StmtV::AssertTrue(a, msg) | StmtV::AssertFalse(a, msg) => {
            if eval_spec(a, m, f) != Err::<EvalV, Seq<char>>(msg_limit()) {
                lemma_eval_fuel(a, m, f, g);
            }
            if eval_spec(msg, m, f) != Err::<EvalV, Seq<char>>(msg_limit()) {
                lemma_eval_fuel(msg, m, f, g);
            }
        },
        StmtV::AssertEQ(a, b, msg) | StmtV::AssertNEQ(a, b, msg) => {
            if eval_spec(a, m, f) != Err::<EvalV, Seq<char>>(msg_limit()) {
                lemma_eval_fuel(a, m, f, g);
            }
            if eval_spec(b, m, f) != Err::<EvalV, Seq<char>>(msg_limit()) {
                lemma_eval_fuel(b, m, f, g);
            }
            if eval_spec(msg, m, f) != Err::<EvalV, Seq<char>>(msg_limit()) {
                lemma_eval_fuel(msg, m, f, g);
            }
        },
        StmtV::IfThenElse(c, th, el) => {
            if eval_spec(c, m, f) != Err::<EvalV, Seq<char>>(msg_limit()) {
                lemma_eval_fuel(c, m, f, g);
            }
            if exec_spec(*th, m, f) != Err::<CompV, Seq<char>>(msg_limit()) {
                lemma_exec_fuel(*th, m, f, g);
            }
            if let Some(x) = el {
                if exec_spec(*x, m, f) != Err::<CompV, Seq<char>>(msg_limit()) {
                    lemma_exec_fuel(*x, m, f, g);
                }
            }
        },
        StmtV::Block(ss) => {
            if block_spec(ss, 0, m, f) != Err::<CompV, Seq<char>>(msg_limit()) {
                lemma_block_fuel(ss, 0, m, f, g);
            }
        },
        StmtV::While(c, b) => {
            if f > 0 {
                if eval_spec(c, m, f) != Err::<EvalV, Seq<char>>(msg_limit()) {
                    lemma_eval_fuel(c, m, f, g);
                }
                if exec_spec(*b, m, (f - 1) as nat) != Err::<CompV, Seq<char>>(msg_limit()) {
                    lemma_exec_fuel(*b, m, (f - 1) as nat, (g - 1) as nat);
                }
                if let Ok(CompV::Continue(m2)) = exec_spec(*b, m, (f - 1) as nat) {
                    if exec_spec(s, m2, (f - 1) as nat) != Err::<CompV, Seq<char>>(msg_limit()) {
                        lemma_exec_fuel(s, m2, (f - 1) as nat, (g - 1) as nat);
                    }
                }
            }
        },
        StmtV::For(v, e, b) => {
            if eval_spec(e, m, f) != Err::<EvalV, Seq<char>>(msg_limit()) {
                lemma_eval_fuel(e, m, f, g);
            }
            if let Ok(EvalV::Value(coll)) = eval_spec(e, m, f) {
                if let Some(items) = iter_items(coll) {
                    if for_spec(v, items, 0, *b, m, f) != Err::<CompV, Seq<char>>(msg_limit()) {
                        lemma_for_fuel(v, items, 0, *b, m, f, g);
                    }
                }
            }
        },
        StmtV::Sequence(a, b) => {
            if exec_spec(*a, m, f) != Err::<CompV, Seq<char>>(msg_limit()) {
                lemma_exec_fuel(*a, m, f, g);
            }
            if let Ok(CompV::Continue(m2)) = exec_spec(*a, m, f) {
                if exec_spec(*b, m2, f) != Err::<CompV, Seq<char>>(msg_limit()) {
                    lemma_exec_fuel(*b, m2, f, g);
                }
            }
        },
        _ => {},
    }
}

/// The run of a block's statements that does not run out of its budget
/// gives the same result with a larger one.
proof fn lemma_block_fuel(ss: Seq<StmtV>, i: int, m: EnvM<ExprV>, f: nat, g: nat)
    requires
        f <= g,
        block_spec(ss, i, m, f) != Err::<CompV, Seq<char>>(msg_limit()),
    ensures
        block_spec(ss, i, m, g) == block_spec(ss, i, m, f),
    decreases f, ss, ss.len() - i,
{
    reveal(eval_spec);
    reveal(eval_list_spec);
    reveal(exec_spec);
    reveal(block_spec);
    reveal(for_spec);
    if 0 <= i < ss.len() {
        if exec_spec(ss[i], m, f) != Err::<CompV, Seq<char>>(msg_limit()) {
            lemma_exec_fuel(ss[i], m, f, g);
        }
        if let Ok(CompV::Continue(m2)) = exec_spec(ss[i], m, f) {
            if block_spec(ss, i + 1, m2, f) != Err::<CompV, Seq<char>>(msg_limit()) {
                lemma_block_fuel(ss, i + 1, m2, f, g);
            }
        }
    }
}

/// The runs of a `for` loop's body that do not run out of their budget give
/// the same result with a larger one.
proof fn lemma_for_fuel(v: Seq<char>, items: Seq<ExprV>, i: int, body: StmtV, m: EnvM<ExprV>, f: nat, g: nat)
    requires
        f <= g,
        for_spec(v, items, i, body, m, f) != Err::<CompV, Seq<char>>(msg_limit()),
    ensures
        for_spec(v, items, i, body, m, g) == for_spec(v, items, i, body, m, f),
    decreases f, body, items.len() - i,
{
    reveal(eval_spec);
    reveal(eval_list_spec);
    reveal(exec_spec);
    reveal(block_spec);
    reveal(for_spec);
    if 0 <= i < items.len() {
        let prev = m.lookup(v);
        let m1 = m.declare(v, false, items[i]);
        if exec_spec(body, m1, f) != Err::<CompV, Seq<char>>(msg_limit()) {
            lemma_exec_fuel(body, m1, f, g);
        }
        if let Ok(CompV::Continue(m2)) = exec_spec(body, m1, f) {
            let r = restore(m2.remove(v), v, prev);
            if for_spec(v, items, i + 1, body, r, f) != Err::<CompV, Seq<char>>(msg_limit()) {
                lemma_for_fuel(v, items, i + 1, body, r, f, g);
            }
        }
    }
}

/// Integer literals evaluate to themselves; on two operands that evaluate to
/// the integers `x` and `y`, a comparison gives `True` exactly when it holds
/// of `x` and `y` (`==`, `!=`, `<`, `>`, `<=`, `>=`), and `+ - *` give
/// `x + y`, `x - y`, `x * y` when it fits in 32 bits (an error otherwise);
/// `/` divides rounding towards zero (an error for a zero divisor or a
/// quotient past 32 bits).
pub proof fn law_integer_operations(l: ExprV, r: ExprV, m: EnvM<ExprV>, fuel: nat, x: i32, y: i32)
    requires
        eval_spec(l, m, fuel) == Ok::<EvalV, Seq<char>>(EvalV::Value(ExprV::CInt(x))),
        eval_spec(r, m, fuel) == Ok::<EvalV, Seq<char>>(EvalV::Value(ExprV::CInt(y))),
    ensures
        eval_spec(ExprV::CInt(x), m, fuel) == Ok::<EvalV, Seq<char>>(EvalV::Value(ExprV::CInt(x))),
        eval_spec(ExprV::GTE(Box::new(l), Box::new(r)), m, fuel) == Ok::<EvalV, Seq<char>>(
            EvalV::Value(if x >= y { ExprV::CTrue } else { ExprV::CFalse }),
        ),
        eval_spec(ExprV::GT(Box::new(l), Box::new(r)), m, fuel) == Ok::<EvalV, Seq<char>>(
            EvalV::Value(if x > y { ExprV::CTrue } else { ExprV::CFalse }),
        ),
        eval_spec(ExprV::LTE(Box::new(l), Box::new(r)), m, fuel) == Ok::<EvalV, Seq<char>>(
            EvalV::Value(if x <= y { ExprV::CTrue } else { ExprV::CFalse }),
        ),
        eval_spec(ExprV::LT(Box::new(l), Box::new(r)), m, fuel) == Ok::<EvalV, Seq<char>>(
            EvalV::Value(if x < y { ExprV::CTrue } else { ExprV::CFalse }),
        ),
        eval_spec(ExprV::EQ(Box::new(l), Box::new(r)), m, fuel) == Ok::<EvalV, Seq<char>>(
            EvalV::Value(if x == y { ExprV::CTrue } else { ExprV::CFalse }),
        ),
        eval_spec(ExprV::NEQ(Box::new(l), Box::new(r)), m, fuel) == Ok::<EvalV, Seq<char>>(
            EvalV::Value(if x != y { ExprV::CTrue } else { ExprV::CFalse }),
        ),
        i32::MIN <= x + y <= i32::MAX ==> eval_spec(ExprV::Add(Box::new(l), Box::new(r)), m, fuel)
            == Ok::<EvalV, Seq<char>>(EvalV::Value(ExprV::CInt((x + y) as i32))),
        !(i32::MIN <= x + y <= i32::MAX) ==> eval_spec(ExprV::Add(Box::new(l), Box::new(r)), m, fuel) is Err,
        i32::MIN <= x - y <= i32::MAX ==> eval_spec(ExprV::Sub(Box::new(l), Box::new(r)), m, fuel)
            == Ok::<EvalV, Seq<char>>(EvalV::Value(ExprV::CInt((x - y) as i32))),
        !(i32::MIN <= x - y <= i32::MAX) ==> eval_spec(ExprV::Sub(Box::new(l), Box::new(r)), m, fuel) is Err,
        i32::MIN <= x * y <= i32::MAX ==> eval_spec(ExprV::Mul(Box::new(l), Box::new(r)), m, fuel)
            == Ok::<EvalV, Seq<char>>(EvalV::Value(ExprV::CInt((x * y) as i32))),
        !(i32::MIN <= x * y <= i32::MAX) ==> eval_spec(ExprV::Mul(Box::new(l), Box::new(r)), m, fuel) is Err,
        0 <= x && 0 < y ==> eval_spec(ExprV::Div(Box::new(l), Box::new(r)), m, fuel) == Ok::<EvalV, Seq<char>>(
            EvalV::Value(ExprV::CInt((x / y) as i32)),
        ),
        x < 0 && 0 < y ==> eval_spec(ExprV::Div(Box::new(l), Box::new(r)), m, fuel) == Ok::<EvalV, Seq<char>>(
            EvalV::Value(ExprV::CInt((-((-(x as int)) / (y as int))) as i32)),
        ),
        0 <= x && y < 0 ==> eval_spec(ExprV::Div(Box::new(l), Box::new(r)), m, fuel) == Ok::<EvalV, Seq<char>>(
            EvalV::Value(ExprV::CInt((-((x as int) / (-(y as int)))) as i32)),
        ),
        x < 0 && y < 0 && (-(x as int)) / (-(y as int)) <= i32::MAX ==> eval_spec(ExprV::Div(Box::new(l), Box::new(r)), m, fuel)
            == Ok::<EvalV, Seq<char>>(EvalV::Value(ExprV::CInt(((-(x as int)) / (-(y as int))) as i32))),
        y == 0 ==> eval_spec(ExprV::Div(Box::new(l), Box::new(r)), m, fuel) is Err,
{
    reveal(eval_spec);
    if y != 0 {
        let ax: int = if x < 0 { -x } else { x as int };
        let ay: int = if y < 0 { -y } else { y as int };
        assert(0 <= ax / ay <= ax) by (nonlinear_arith)
            requires
                ax >= 0,
                ay >= 1,
        ;
    }
}

/// On two operands that evaluate to booleans, `and` and `or` give their
/// conjunction and disjunction, and `not` negates a boolean.
pub proof fn law_boolean_operations(l: ExprV, r: ExprV, m: EnvM<ExprV>, fuel: nat, a: bool, b: bool)
    requires
        eval_spec(l, m, fuel) == Ok::<EvalV, Seq<char>>(
            EvalV::Value(if a { ExprV::CTrue } else { ExprV::CFalse }),
        ),
        eval_spec(r, m, fuel) == Ok::<EvalV, Seq<char>>(
            EvalV::Value(if b { ExprV::CTrue } else { ExprV::CFalse }),
        ),
    ensures
        eval_spec(ExprV::And(Box::new(l), Box::new(r)), m, fuel) == Ok::<EvalV, Seq<char>>(
            EvalV::Value(if a && b { ExprV::CTrue } else { ExprV::CFalse }),
        ),
        eval_spec(ExprV::Or(Box::new(l), Box::new(r)), m, fuel) == Ok::<EvalV, Seq<char>>(
            EvalV::Value(if a || b { ExprV::CTrue } else { ExprV::CFalse }),
        ),
        eval_spec(ExprV::Not(Box::new(l)), m, fuel) == Ok::<EvalV, Seq<char>>(
            EvalV::Value(if !a { ExprV::CTrue } else { ExprV::CFalse }),
        ),
{
    reveal(eval_spec);
}

/// `unwrap` and `?` give the value inside `Ok(..)` and `Just(..)`;
/// `is_error` tells `Err(..)` from `Ok(..)` and `is_nothing` tells
/// `Nothing` from `Just(..)`; `?` on `Err(x)` propagates `x`, and on
/// `Nothing` propagates `Nothing`; unwrapping `Err(..)` or `Nothing` is an
/// error.
pub proof fn law_wrapped_values(e: ExprV, m: EnvM<ExprV>, fuel: nat, v: ExprV)
    ensures
        eval_spec(e, m, fuel) == Ok::<EvalV, Seq<char>>(EvalV::Value(ExprV::COk(Box::new(v)))) ==> {
            &&& eval_spec(ExprV::Unwrap(Box::new(e)), m, fuel) == Ok::<EvalV, Seq<char>>(EvalV::Value(v))
            &&& eval_spec(ExprV::Propagate(Box::new(e)), m, fuel) == Ok::<EvalV, Seq<char>>(EvalV::Value(v))
            &&& eval_spec(ExprV::IsError(Box::new(e)), m, fuel) == Ok::<EvalV, Seq<char>>(
                EvalV::Value(ExprV::CFalse),
            )
        },
        eval_spec(e, m, fuel) == Ok::<EvalV, Seq<char>>(EvalV::Value(ExprV::CErr(Box::new(v)))) ==> {
            &&& eval_spec(ExprV::Unwrap(Box::new(e)), m, fuel) is Err
            &&& eval_spec(ExprV::Propagate(Box::new(e)), m, fuel) == Ok::<EvalV, Seq<char>>(EvalV::Propagate(v))
            &&& eval_spec(ExprV::IsError(Box::new(e)), m, fuel) == Ok::<EvalV, Seq<char>>(
                EvalV::Value(ExprV::CTrue),
            )
        },
        eval_spec(e, m, fuel) == Ok::<EvalV, Seq<char>>(EvalV::Value(ExprV::CJust(Box::new(v)))) ==> {
            &&& eval_spec(ExprV::Unwrap(Box::new(e)), m, fuel) == Ok::<EvalV, Seq<char>>(EvalV::Value(v))
            &&& eval_spec(ExprV::Propagate(Box::new(e)), m, fuel) == Ok::<EvalV, Seq<char>>(EvalV::Value(v))
            &&& eval_spec(ExprV::IsNothing(Box::new(e)), m, fuel) == Ok::<EvalV, Seq<char>>(
                EvalV::Value(ExprV::CFalse),
            )
        },
        eval_spec(e, m, fuel) == Ok::<EvalV, Seq<char>>(EvalV::Value(ExprV::CNothing)) ==> {
            &&& eval_spec(ExprV::Unwrap(Box::new(e)), m, fuel) is Err
            &&& eval_spec(ExprV::Propagate(Box::new(e)), m, fuel) == Ok::<EvalV, Seq<char>>(
                EvalV::Propagate(ExprV::CNothing),
            )
            &&& eval_spec(ExprV::IsNothing(Box::new(e)), m, fuel) == Ok::<EvalV, Seq<char>>(
                EvalV::Value(ExprV::CTrue),
            )
        },
        eval_spec(ExprV::COk(Box::new(e)), m, fuel) == (match eval_spec(e, m, fuel) {
            Ok(EvalV::Value(x)) => Ok::<EvalV, Seq<char>>(EvalV::Value(ExprV::COk(Box::new(x)))),
            other => other,
        }),
        eval_spec(ExprV::CJust(Box::new(e)), m, fuel) == (match eval_spec(e, m, fuel) {
            Ok(EvalV::Value(x)) => Ok::<EvalV, Seq<char>>(EvalV::Value(ExprV::CJust(Box::new(x)))),
            other => other,
        }),
{
    reveal(eval_spec);
}

} // verus!
