//! Static checking: the type of an expression in an environment of typed
//! variables and functions, and the environment that a statement leaves.
use vstd::prelude::*;
use crate::ast::{
    boxed_exprs_view, clone_ctors, clone_function, clone_type, exprs_view, opt_stmt_view, stmts_view,
    lemma_stmts_view, lemma_boxed_exprs_view, lemma_exprs_view,
    param_types, type_equal, types_view, Expression, ExprV, Function, Name, Statement,
    StmtV, Type, TypeV, FuncSignatureV,
};
use crate::environment::{lemma_lookup_model, EnvM, Environment, ScopeM};
use crate::table::Binding;
use crate::debug_text::{debug_string, string_debug, type_dbg};
use crate::text::{append_str, concat3};

verus! {

/// What a check of a type gives back: the type, or an error message.
pub open spec fn type_result(r: Result<Type, String>) -> Result<TypeV, Seq<char>> {
    match r {
        Ok(t) => Ok(t@),
        Err(m) => Err(m@),
    }
}

/// What a check of a list of expressions gives back.
pub open spec fn types_result(r: Result<Vec<Type>, String>) -> Result<Seq<TypeV>, Seq<char>> {
    match r {
        Ok(ts) => Ok(types_view(ts@)),
        Err(m) => Err(m@),
    }
}

/// Integers and reals.
pub open spec fn is_numeric(t: TypeV) -> bool {
    t == TypeV::TInteger || t == TypeV::TReal
}

/// Error for a variable that is not declared.
pub open spec fn msg_undeclared(n: Seq<char>) -> Seq<char> {
    "[Name Error] variable '"@ + n + "' is not declared."@
}

/// Error for a function that is not declared.
pub open spec fn msg_no_function(n: Seq<char>) -> Seq<char> {
    "[Name Error] function '"@ + n + "' is not declared."@
}

/// Error for a call whose arguments do not match the parameters.
pub open spec fn msg_wrong_args(n: Seq<char>) -> Seq<char> {
    "[Type Error] wrong arguments in a call to '"@ + n + "'."@
}

/// Error for an operand that is not a number.
pub open spec fn msg_numeric() -> Seq<char> {
    "[Type Error] expecting numeric type values."@
}

/// Error for an operand that is not a boolean.
pub open spec fn msg_boolean() -> Seq<char> {
    "[Type Error] expecting boolean type values."@
}

/// Error for a list whose elements differ in type.
pub open spec fn msg_list() -> Seq<char> {
    "[Type Error] the elements of a list must have the same type."@
}

/// Error for `is_error` on something that is not a result.
pub open spec fn msg_result() -> Seq<char> {
    "[Type Error] expecting a result value."@
}

/// Error for `is_nothing` on something that is not a maybe.
pub open spec fn msg_maybe() -> Seq<char> {
    "[Type Error] expecting a maybe value."@
}

/// Error for unwrapping something that is neither a maybe nor a result.
pub open spec fn msg_unwrap() -> Seq<char> {
    "[Type Error] expecting a maybe or result value."@
}

/// The kinds of binary operators.
pub enum BinKind {
    /// `+ - * /`: numbers to a number, real when either side is real.
    Arith,
    /// `and`, `or`: booleans to a boolean.
    Logic,
    /// `== != < > <= >=`: numbers to a boolean.
    Compare,
}

/// The type of a binary operation on operands of the given types.
pub open spec fn bin_type(k: BinKind, l: TypeV, r: TypeV) -> Result<TypeV, Seq<char>> {
    match k {
        BinKind::Arith => if l == TypeV::TInteger && r == TypeV::TInteger {
            Ok(TypeV::TInteger)
        } else if is_numeric(l) && is_numeric(r) {
            Ok(TypeV::TReal)
        } else {
            Err(msg_numeric())
        },
        BinKind::Logic => if l == TypeV::TBool && r == TypeV::TBool {
            Ok(TypeV::TBool)
        } else {
            Err(msg_boolean())
        },
        BinKind::Compare => if is_numeric(l) && is_numeric(r) {
            Ok(TypeV::TBool)
        } else {
            Err(msg_numeric())
        },
    }
}

/// The type of a binary operation whose operands were checked: the first
/// error met, left to right, or the type of the operation.
pub open spec fn bin_result(
    k: BinKind,
    a: Result<TypeV, Seq<char>>,
    b: Result<TypeV, Seq<char>>,
) -> Result<TypeV, Seq<char>> {
    match a {
        Err(m) => Err(m),
        Ok(l) => match b {
            Err(m) => Err(m),
            Ok(r) => bin_type(k, l, r),
        },
    }
}

/// The type of the value inside a maybe or a result.
pub open spec fn unwrap_type(t: TypeV) -> Result<TypeV, Seq<char>> {
    match t {
        TypeV::TMaybe(x) => Ok(*x),
        TypeV::TResult(o, _) => Ok(*o),
        _ => Err(msg_unwrap()),
    }
}

/// Every type of the list is the first one.
pub open spec fn all_same(ts: Seq<TypeV>) -> bool {
    forall|i: int| 0 <= i < ts.len() ==> #[trigger] ts[i] == ts[0]
}

/// The type of a list with elements of the given types.
pub open spec fn list_type(ts: Seq<TypeV>) -> Result<TypeV, Seq<char>> {
    if ts.len() == 0 {
        Ok(TypeV::TList(Box::new(TypeV::TAny)))
    } else if all_same(ts) {
        Ok(TypeV::TList(Box::new(ts[0])))
    } else {
        Err(msg_list())
    }
}

/// The type of an expression, or the first error met checking it left to
/// right. Variables have the type they were declared with; a call has the
/// return type of the function of its name when the types of the arguments
/// are those of the parameters; a constructor's arguments are checked and
/// the constructor has any type.
#[verifier::opaque]
pub open spec fn expr_type(e: ExprV, env: EnvM<TypeV>) -> Result<TypeV, Seq<char>>
    decreases e, 0int,
{
    match e {
        ExprV::CTrue => Ok(TypeV::TBool),
        ExprV::CFalse => Ok(TypeV::TBool),
        ExprV::CInt(_) => Ok(TypeV::TInteger),
        ExprV::CReal(_) => Ok(TypeV::TReal),
        ExprV::CString(_) => Ok(TypeV::TString),
        ExprV::CVoid => Ok(TypeV::TVoid),
        ExprV::Var(n) => match env.lookup(n) {
            Some(b) => Ok(b.1),
            None => Err(msg_undeclared(n)),
        },
        ExprV::Add(l, r) => bin_result(BinKind::Arith, expr_type(*l, env), expr_type(*r, env)),
        ExprV::Sub(l, r) => bin_result(BinKind::Arith, expr_type(*l, env), expr_type(*r, env)),
        ExprV::Mul(l, r) => bin_result(BinKind::Arith, expr_type(*l, env), expr_type(*r, env)),
        ExprV::Div(l, r) => bin_result(BinKind::Arith, expr_type(*l, env), expr_type(*r, env)),
        ExprV::And(l, r) => bin_result(BinKind::Logic, expr_type(*l, env), expr_type(*r, env)),
        ExprV::Or(l, r) => bin_result(BinKind::Logic, expr_type(*l, env), expr_type(*r, env)),
        ExprV::EQ(l, r) => bin_result(BinKind::Compare, expr_type(*l, env), expr_type(*r, env)),
        ExprV::NEQ(l, r) => bin_result(BinKind::Compare, expr_type(*l, env), expr_type(*r, env)),
        ExprV::GT(l, r) => bin_result(BinKind::Compare, expr_type(*l, env), expr_type(*r, env)),
        ExprV::LT(l, r) => bin_result(BinKind::Compare, expr_type(*l, env), expr_type(*r, env)),
        ExprV::GTE(l, r) => bin_result(BinKind::Compare, expr_type(*l, env), expr_type(*r, env)),
        ExprV::LTE(l, r) => bin_result(BinKind::Compare, expr_type(*l, env), expr_type(*r, env)),
        ExprV::Not(x) => match expr_type(*x, env) {
            Err(m) => Err(m),
            Ok(t) => if t == TypeV::TBool {
                Ok(TypeV::TBool)
            } else {
                Err(msg_boolean())
            },
        },
        ExprV::COk(x) => match expr_type(*x, env) {
            Err(m) => Err(m),
            Ok(t) => Ok(TypeV::TResult(Box::new(t), Box::new(TypeV::TAny))),
        },
        ExprV::CErr(x) => match expr_type(*x, env) {
            Err(m) => Err(m),
            Ok(t) => Ok(TypeV::TResult(Box::new(TypeV::TAny), Box::new(t))),
        },
        ExprV::CJust(x) => match expr_type(*x, env) {
            Err(m) => Err(m),
            Ok(t) => Ok(TypeV::TMaybe(Box::new(t))),
        },
        ExprV::CNothing => Ok(TypeV::TMaybe(Box::new(TypeV::TAny))),
        ExprV::IsError(x) => match expr_type(*x, env) {
            Err(m) => Err(m),
            Ok(t) => if t is TResult {
                Ok(TypeV::TBool)
            } else {
                Err(msg_result())
            },
        },
        ExprV::IsNothing(x) => match expr_type(*x, env) {
            Err(m) => Err(m),
            Ok(t) => if t is TMaybe {
                Ok(TypeV::TBool)
            } else {
                Err(msg_maybe())
            },
        },
        ExprV::Unwrap(x) => match expr_type(*x, env) {
            Err(m) => Err(m),
            Ok(t) => unwrap_type(t),
        },
        ExprV::Propagate(x) => match expr_type(*x, env) {
            Err(m) => Err(m),
            Ok(t) => unwrap_type(t),
        },
        ExprV::FuncCall(n, args) => match env.function_named(n) {
            None => Err(msg_no_function(n)),
            Some(f) => match exprs_types(args, env) {
                Err(m) => Err(m),
                Ok(ts) => if ts == param_types(f.params) {
                    Ok(f.kind)
                } else {
                    Err(msg_wrong_args(n))
                },
            },
        },
        ExprV::Lambda(f) => Ok(TypeV::TFunction(Box::new(f.kind), param_types(f.params))),
        ExprV::ListValue(es) => match exprs_types(es, env) {
            Err(m) => Err(m),
            Ok(ts) => list_type(ts),
        },
        ExprV::Tuple(es) => match exprs_types(es, env) {
            Err(m) => Err(m),
            Ok(ts) => Ok(TypeV::TTuple(ts)),
        },
        ExprV::Constructor(_, args) => match exprs_types(args, env) {
            Err(m) => Err(m),
            Ok(_) => Ok(TypeV::TAny),
        },
    }
}

/// The types of a list of expressions, or the first error met.
#[verifier::opaque]
pub open spec fn exprs_types(es: Seq<ExprV>, env: EnvM<TypeV>) -> Result<Seq<TypeV>, Seq<char>>
    decreases es, 0int,
{
    if es.len() == 0 {
        Ok(seq![])
    } else {
        match exprs_types(es.drop_last(), env) {
            Err(m) => Err(m),
            Ok(ts) => match expr_type(es.last(), env) {
                Err(m) => Err(m),
                Ok(t) => Ok(ts.push(t)),
            },
        }
    }
}

/// Checking one more expression after a list: the first error stays, and
/// otherwise the type of the new expression comes last.
pub proof fn lemma_exprs_types_push(es: Seq<ExprV>, e: ExprV, env: EnvM<TypeV>)
    ensures
        exprs_types(es.push(e), env) == match exprs_types(es, env) {
            Err(m) => Err(m),
            Ok(ts) => match expr_type(e, env) {
                Err(m) => Err(m),
                Ok(t) => Ok(ts.push(t)),
            },
        },
{
    reveal(expr_type);
    reveal(exprs_types);
    assert(es.push(e).drop_last() =~= es);
}

/// An error in a prefix of a list is the error of the whole list.
pub proof fn lemma_exprs_types_prefix_err(es: Seq<ExprV>, k: int, env: EnvM<TypeV>)
    requires
        0 <= k <= es.len(),
        exprs_types(es.subrange(0, k), env) is Err,
    ensures
        exprs_types(es, env) == exprs_types(es.subrange(0, k), env),
    decreases es.len() - k,
{
    if k < es.len() {
        lemma_exprs_types_push(es.subrange(0, k), es[k], env);
        assert(es.subrange(0, k).push(es[k]) =~= es.subrange(0, k + 1));
        lemma_exprs_types_prefix_err(es, k + 1, env);
    } else {
        assert(es.subrange(0, k) =~= es);
    }
}

/// The type of a binary operation on operands of the given types.
fn bin_check(k: BinKind, l: &Type, r: &Type) -> (res: Result<Type, String>)
    ensures
        type_result(res) == bin_type(k, l@, r@),
{
    let l_int = matches!(l, Type::TInteger);
    let r_int = matches!(r, Type::TInteger);
    let l_num = l_int || matches!(l, Type::TReal);
    let r_num = r_int || matches!(r, Type::TReal);
    match k {
        BinKind::Arith => {
            if l_int && r_int {
                Ok(Type::TInteger)
            } else if l_num && r_num {
                Ok(Type::TReal)
            } else {
                Err(String::from_str("[Type Error] expecting numeric type values."))
            }
        },
        BinKind::Logic => {
            if matches!(l, Type::TBool) && matches!(r, Type::TBool) {
                Ok(Type::TBool)
            } else {
                Err(String::from_str("[Type Error] expecting boolean type values."))
            }
        },
        BinKind::Compare => {
            if l_num && r_num {
                Ok(Type::TBool)
            } else {
                Err(String::from_str("[Type Error] expecting numeric type values."))
            }
        },
    }
}

/// The type of the value inside a maybe or a result.
fn unwrap_check(t: &Type) -> (res: Result<Type, String>)
    ensures
        type_result(res) == unwrap_type(t@),
{
    match t {
        Type::TMaybe(x) => Ok(clone_type(x)),
        Type::TResult(o, _) => Ok(clone_type(o)),
        _ => Err(String::from_str("[Type Error] expecting a maybe or result value.")),
    }
}

/// The type of a list with elements of the given types.
fn list_check(ts: &Vec<Type>) -> (res: Result<Type, String>)
    ensures
        type_result(res) == list_type(types_view(ts@)),
{
    let ghost tv = types_view(ts@);
    proof {
        crate::ast::lemma_types_view(ts@);
    }
    assert(Type::TAny@ == TypeV::TAny);
    if ts.len() == 0 {
        return Ok(Type::TList(Box::new(Type::TAny)));
    }
    let mut i: usize = 1;
    while i < ts.len()
        invariant
            1 <= i <= ts.len(),
            tv == types_view(ts@),
            tv.len() == ts.len(),
            forall|j: int| 0 <= j < ts.len() ==> #[trigger] tv[j] == ts@[j]@,
            forall|j: int| 0 <= j < i ==> #[trigger] tv[j] == tv[0],
        decreases ts.len() - i,
    {
        if !type_equal(&ts[i], &ts[0]) {
            assert(!all_same(tv)) by {
                assert(tv[i as int] != tv[0]);
            }
            return Err(String::from_str("[Type Error] the elements of a list must have the same type."));
        }
        i = i + 1;
    }
    assert(all_same(tv));
    Ok(Type::TList(Box::new(clone_type(&ts[0]))))
}

/// The types of the parameters of a function.
fn param_type_list(f: &Function) -> (r: Vec<Type>)
    ensures
        types_view(r@) == param_types(f@.params),
{
    let ghost pv = f@.params;
    proof {
        crate::ast::lemma_params_view(f.params@);
    }
    let mut r: Vec<Type> = Vec::new();
    let mut i: usize = 0;
    while i < f.params.len()
        invariant
            i <= f.params.len(),
            pv == f@.params,
            pv.len() == f.params.len(),
            forall|j: int|
                0 <= j < f.params.len() ==> #[trigger] pv[j] == (
                    f.params@[j].argument_name@,
                    f.params@[j].argument_type@,
                ),
            types_view(r@) == param_types(pv).subrange(0, i as int),
        decreases f.params.len() - i,
    {
        let t = clone_type(&f.params[i].argument_type);
        let ghost old_r = r@;
        r.push(t);
        proof {
            crate::ast::lemma_types_view(r@);
            crate::ast::lemma_types_view(old_r);
        }
        assert(r@.drop_last() == old_r);
        assert(types_view(r@) =~= param_types(pv).subrange(0, i + 1));
        i = i + 1;
    }
    assert(param_types(pv).subrange(0, f.params.len() as int) =~= param_types(pv));
    r
}

/// The types of a list of expressions, or the first error met.
fn check_exprs(es: &Vec<Expression>, env: &Environment<Type>) -> (r: Result<Vec<Type>, String>)
    requires
        env.wf(),
    ensures
        types_result(r) == exprs_types(exprs_view(es@), env.model()),
    decreases es@, 2int,
{
    let ghost ev = exprs_view(es@);
    proof {
        lemma_exprs_view(es@);
    }
    let mut ts: Vec<Type> = Vec::new();
    let mut i: usize = 0;
    assert(ev.subrange(0, 0) =~= Seq::<ExprV>::empty());
    proof {
        reveal(exprs_types);
    }
    while i < es.len()
        invariant
            i <= es.len(),
            env.wf(),
            ev == exprs_view(es@),
            ev.len() == es.len(),
            forall|j: int| 0 <= j < es.len() ==> #[trigger] ev[j] == es@[j]@,
            exprs_types(ev.subrange(0, i as int), env.model()) == Ok::<Seq<TypeV>, Seq<char>>(types_view(ts@)),
        decreases es.len() - i,
    {
        proof {
            lemma_exprs_types_push(ev.subrange(0, i as int), ev[i as int], env.model());
            assert(ev.subrange(0, i as int).push(ev[i as int]) =~= ev.subrange(0, i + 1));
        }
        match check_expr(&es[i], env) {
            Ok(t) => {
                let ghost old_ts = ts@;
                ts.push(t);
                proof {
                    crate::ast::lemma_types_view(ts@);
                    crate::ast::lemma_types_view(old_ts);
                    assert(ts@.drop_last() == old_ts);
                }
            },
            Err(m) => {
                proof {
                    lemma_exprs_types_prefix_err(ev, i + 1, env.model());
                }
                return Err(m);
            },
        }
        i = i + 1;
    }
    assert(ev.subrange(0, es.len() as int) =~= ev);
    Ok(ts)
}

/// The types of a list of boxed expressions, or the first error met.
fn check_boxed_exprs(es: &Vec<Box<Expression>>, env: &Environment<Type>) -> (r: Result<Vec<Type>, String>)
    requires
        env.wf(),
    ensures
        types_result(r) == exprs_types(boxed_exprs_view(es@), env.model()),
    decreases es@, 2int,
{
    let ghost ev = boxed_exprs_view(es@);
    proof {
        lemma_boxed_exprs_view(es@);
    }
    let mut ts: Vec<Type> = Vec::new();
    let mut i: usize = 0;
    assert(ev.subrange(0, 0) =~= Seq::<ExprV>::empty());
    proof {
        reveal(exprs_types);
    }
    while i < es.len()
        invariant
            i <= es.len(),
            env.wf(),
            ev == boxed_exprs_view(es@),
            ev.len() == es.len(),
            forall|j: int| 0 <= j < es.len() ==> #[trigger] ev[j] == (*es@[j])@,
            exprs_types(ev.subrange(0, i as int), env.model()) == Ok::<Seq<TypeV>, Seq<char>>(types_view(ts@)),
        decreases es.len() - i,
    {
        proof {
            lemma_exprs_types_push(ev.subrange(0, i as int), ev[i as int], env.model());
            assert(ev.subrange(0, i as int).push(ev[i as int]) =~= ev.subrange(0, i + 1));
        }
        match check_expr(&es[i], env) {
            Ok(t) => {
                let ghost old_ts = ts@;
                ts.push(t);
                proof {
                    crate::ast::lemma_types_view(ts@);
                    crate::ast::lemma_types_view(old_ts);
                    assert(ts@.drop_last() == old_ts);
                }
            },
            Err(m) => {
                proof {
                    lemma_exprs_types_prefix_err(ev, i + 1, env.model());
                }
                return Err(m);
            },
        }
        i = i + 1;
    }
    assert(ev.subrange(0, es.len() as int) =~= ev);
    Ok(ts)
}

/// The type of an expression, or the first error met checking it, as
/// [`expr_type`] states.
pub fn check_expr(e: &Expression, env: &Environment<Type>) -> (r: Result<Type, String>)
    requires
        env.wf(),
    ensures
        type_result(r) == expr_type(e@, env.model()),
    decreases e, 1int,
{
    match e {
        Expression::Add(..) | Expression::Sub(..) | Expression::Mul(..) | Expression::Div(..)
        | Expression::And(..) | Expression::Or(..) | Expression::EQ(..) | Expression::NEQ(..)
        | Expression::GT(..) | Expression::LT(..) | Expression::GTE(..) | Expression::LTE(..) => check_binary(e, env),
        Expression::Not(..) | Expression::COk(..) | Expression::CErr(..) | Expression::CJust(..)
        | Expression::IsError(..) | Expression::IsNothing(..) | Expression::Unwrap(..)
        | Expression::Propagate(..) => check_unary(e, env),
        Expression::FuncCall(..) | Expression::ListValue(..) | Expression::Tuple(..)
        | Expression::Constructor(..) => check_compound(e, env),
        _ => check_leaf(e, env),
    }
}

/// Constants, variables, `Nothing` and lambdas.
fn check_leaf(e: &Expression, env: &Environment<Type>) -> (r: Result<Type, String>)
    requires
        env.wf(),
        e is CTrue || e is CFalse || e is CInt || e is CReal || e is CString || e is CVoid
            || e is Var || e is CNothing || e is Lambda,
    ensures
        type_result(r) == expr_type(e@, env.model()),
{
    proof {
        reveal(expr_type);
        reveal(exprs_types);
    }
    assert(Type::TAny@ == TypeV::TAny);
    match e {
        Expression::CTrue => Ok(Type::TBool),
        Expression::CFalse => Ok(Type::TBool),
        Expression::CInt(_) => Ok(Type::TInteger),
        Expression::CReal(_) => Ok(Type::TReal),
        Expression::CString(_) => Ok(Type::TString),
        Expression::CVoid => Ok(Type::TVoid),
        Expression::Var(n) => match env.lookup(n) {
            Some(b) => Ok(b.1),
            None => Err(concat3("[Name Error] variable '", n.as_str(), "' is not declared.")),
        },
        Expression::CNothing => Ok(Type::TMaybe(Box::new(Type::TAny))),
        Expression::Lambda(f) => Ok(Type::TFunction(Box::new(clone_type(&f.kind)), param_type_list(f))),
        _ => Err(String::new()),
    }
}

/// Binary operations.
fn check_binary(e: &Expression, env: &Environment<Type>) -> (r: Result<Type, String>)
    requires
        env.wf(),
        e is Add || e is Sub || e is Mul || e is Div || e is And || e is Or || e is EQ || e is NEQ
            || e is GT || e is LT || e is GTE || e is LTE,
    ensures
        type_result(r) == expr_type(e@, env.model()),
    decreases e, 0int,
{
    proof {
        reveal(expr_type);
        reveal(exprs_types);
    }
    let (k, l, r) = match e {
        Expression::Add(l, r) => (BinKind::Arith, l, r),
        Expression::Sub(l, r) => (BinKind::Arith, l, r),
        Expression::Mul(l, r) => (BinKind::Arith, l, r),
        Expression::Div(l, r) => (BinKind::Arith, l, r),
        Expression::And(l, r) => (BinKind::Logic, l, r),
        Expression::Or(l, r) => (BinKind::Logic, l, r),
        Expression::EQ(l, r) => (BinKind::Compare, l, r),
        Expression::NEQ(l, r) => (BinKind::Compare, l, r),
        Expression::GT(l, r) => (BinKind::Compare, l, r),
        Expression::LT(l, r) => (BinKind::Compare, l, r),
        Expression::GTE(l, r) => (BinKind::Compare, l, r),
        Expression::LTE(l, r) => (BinKind::Compare, l, r),
        _ => {
            return Err(String::new());
        },
    };
    assert(expr_type(e@, env.model()) == bin_result(k, expr_type((**l)@, env.model()), expr_type((**r)@, env.model())));
    let lt = match check_expr(l, env) {
        Ok(t) => t,
        Err(m) => {
            return Err(m);
        },
    };
    let rt = match check_expr(r, env) {
        Ok(t) => t,
        Err(m) => {
            return Err(m);
        },
    };
    bin_check(k, &lt, &rt)
}

/// `not`, the constructors of maybes and results, and their tests and
/// unwrapping.
fn check_unary(e: &Expression, env: &Environment<Type>) -> (r: Result<Type, String>)
    requires
        env.wf(),
        e is Not || e is COk || e is CErr || e is CJust || e is IsError || e is IsNothing
            || e is Unwrap || e is Propagate,
    ensures
        type_result(r) == expr_type(e@, env.model()),
    decreases e, 0int,
{
    proof {
        reveal(expr_type);
        reveal(exprs_types);
    }
    let x = match e {
        Expression::Not(x) => x,
        Expression::COk(x) => x,
        Expression::CErr(x) => x,
        Expression::CJust(x) => x,
        Expression::IsError(x) => x,
        Expression::IsNothing(x) => x,
        Expression::Unwrap(x) => x,
        Expression::Propagate(x) => x,
        _ => {
            return Err(String::new());
        },
    };
    let t = match check_expr(x, env) {
        Ok(t) => t,
        Err(m) => {
            return Err(m);
        },
    };
    assert(Type::TAny@ == TypeV::TAny);
    match e {
        Expression::Not(_) => if matches!(t, Type::TBool) {
            Ok(Type::TBool)
        } else {
            Err(String::from_str("[Type Error] expecting boolean type values."))
        },
        Expression::COk(_) => Ok(Type::TResult(Box::new(t), Box::new(Type::TAny))),
        Expression::CErr(_) => Ok(Type::TResult(Box::new(Type::TAny), Box::new(t))),
        Expression::CJust(_) => Ok(Type::TMaybe(Box::new(t))),
        Expression::IsError(_) => if matches!(t, Type::TResult(..)) {
            Ok(Type::TBool)
        } else {
            Err(String::from_str("[Type Error] expecting a result value."))
        },
        Expression::IsNothing(_) => if matches!(t, Type::TMaybe(..)) {
            Ok(Type::TBool)
        } else {
            Err(String::from_str("[Type Error] expecting a maybe value."))
        },
        _ => unwrap_check(&t),
    }
}

/// Calls, lists, tuples and constructors.
fn check_compound(e: &Expression, env: &Environment<Type>) -> (r: Result<Type, String>)
    requires
        env.wf(),
        e is FuncCall || e is ListValue || e is Tuple || e is Constructor,
    ensures
        type_result(r) == expr_type(e@, env.model()),
    decreases e, 0int,
{
    proof {
        reveal(expr_type);
        reveal(exprs_types);
    }
    match e {
        Expression::FuncCall(n, args) => {
            let f = match env.lookup_function_by_name(n) {
                Some(f) => f,
                None => {
                    return Err(concat3("[Name Error] function '", n.as_str(), "' is not declared."));
                },
            };
            let ts = match check_exprs(args, env) {
                Ok(ts) => ts,
                Err(m) => {
                    return Err(m);
                },
            };
            let ps = param_type_list(f);
            if types_equal_lists(&ts, &ps) {
                Ok(clone_type(&f.kind))
            } else {
                Err(concat3("[Type Error] wrong arguments in a call to '", n.as_str(), "'."))
            }
        },
        Expression::ListValue(es) => match check_exprs(es, env) {
            Ok(ts) => list_check(&ts),
            Err(m) => Err(m),
        },
        Expression::Tuple(es) => match check_exprs(es, env) {
            Ok(ts) => Ok(Type::TTuple(ts)),
            Err(m) => Err(m),
        },
        Expression::Constructor(_, args) => match check_boxed_exprs(args, env) {
            Ok(_) => Ok(Type::TAny),
            Err(m) => Err(m),
        },
        _ => Err(String::new()),
    }
}

/// Whether two lists of types are equal.
fn types_equal_lists(a: &Vec<Type>, b: &Vec<Type>) -> (r: bool)
    ensures
        r == (types_view(a@) == types_view(b@)),
{
    crate::ast::types_equal(a, b)
}

/// The type of the elements met iterating over a value of type `t`: the
/// element type of a list, one-character strings of a string, the common
/// type of a tuple whose members all have one type.
pub open spec fn iterable_element(t: TypeV) -> Result<TypeV, Seq<char>> {
    match t {
        TypeV::TList(b) => Ok(*b),
        TypeV::TString => Ok(TypeV::TString),
        TypeV::TTuple(ts) => if ts.len() == 0 {
            Err("[Type Error] Cannot iterate over empty tuple type"@)
        } else if all_same(ts) {
            Ok(ts[0])
        } else {
            Err("[Type Error] Can only iterate over homogeneous tuples (all elements same type)"@)
        },
        _ => Err("[Type Error] Type "@ + type_dbg(t) + " is not iterable"@),
    }
}

/// The outcome of checking a statement.
pub enum CheckV {
    /// The statement checks and leaves this environment.
    Passes(EnvM<TypeV>),
    /// The statement is refused with this message.
    Refused(Seq<char>),
    /// The environments after the branches of a conditional give a
    /// variable two different types; the message names one such variable.
    Inconsistent(EnvM<TypeV>, EnvM<TypeV>),
}

/// A variable that the two environments give two different types, neither
/// of them `any`.
pub open spec fn inconsistent(e1: EnvM<TypeV>, e2: EnvM<TypeV>, k: Seq<char>) -> bool {
    &&& e1.lookup(k) is Some
    &&& e2.lookup(k) is Some
    &&& e1.lookup(k).unwrap().1 != TypeV::TAny
    &&& e2.lookup(k).unwrap().1 != TypeV::TAny
    &&& e1.lookup(k).unwrap().1 != e2.lookup(k).unwrap().1
}

/// The message refusing a variable that two branches give two types.
pub open spec fn inconsistency_message(e1: EnvM<TypeV>, e2: EnvM<TypeV>, k: Seq<char>) -> Seq<char> {
    "[Type Error] Variable '"@ + k + "' has inconsistent types in different branches: '"@
        + type_dbg(e1.lookup(k).unwrap().1) + "' and '"@ + type_dbg(e2.lookup(k).unwrap().1) + "'"@
}

/// The error for two inconsistent environments: the message for one of the
/// variables that they give two types.
pub open spec fn inconsistency_refused(r: Result<Environment<Type>, String>, e1: EnvM<TypeV>, e2: EnvM<TypeV>) -> bool {
    r matches Err(x) && exists|k: Seq<char>| inconsistent(e1, e2, k) && x@ == inconsistency_message(e1, e2, k)
}

/// The binding of a variable after two branches: mutable when both are, and
/// the known type when one of them is `any`.
pub open spec fn merge_binding(b1: Option<(bool, TypeV)>, b2: (bool, TypeV)) -> (bool, TypeV) {
    match b1 {
        None => b2,
        Some(x) => (x.0 && b2.0, if x.1 == TypeV::TAny { b2.1 } else { x.1 }),
    }
}

/// The first environment with every variable visible in the second bound
/// in its innermost scope, as [`merge_binding`] combines them.
pub open spec fn merged(e1: EnvM<TypeV>, e2: EnvM<TypeV>) -> EnvM<TypeV> {
    let t = e1.top();
    e1.with_top(
        ScopeM {
            vars: t.vars.union_prefer_right(
                Map::new(
                    |k: Seq<char>| e2.lookup(k) is Some,
                    |k: Seq<char>| merge_binding(e1.lookup(k), e2.lookup(k).unwrap()),
                ),
            ),
            funcs: t.funcs,
            tests: t.tests,
            adts: t.adts,
        },
    )
}

/// Joining the environments after the two branches of a conditional.
pub open spec fn merge_spec(e1: EnvM<TypeV>, e2: EnvM<TypeV>) -> CheckV {
    if exists|k: Seq<char>| inconsistent(e1, e2, k) {
        CheckV::Inconsistent(e1, e2)
    } else {
        CheckV::Passes(merged(e1, e2))
    }
}

/// The environment with the parameters bound, immutable, in order.
pub open spec fn declare_params(env: EnvM<TypeV>, ps: Seq<(Seq<char>, TypeV)>) -> EnvM<TypeV>
    decreases ps.len(),
{
    if ps.len() == 0 {
        env
    } else {
        declare_params(env, ps.drop_last()).declare(ps.last().0, false, ps.last().1)
    }
}

/// A declaration: the type of the expression, bound to a name not yet
/// visible.
pub open spec fn declare_spec(n: Seq<char>, e: ExprV, mutable: bool, env: EnvM<TypeV>) -> CheckV {
    match expr_type(e, env) {
        Err(m) => CheckV::Refused(m),
        Ok(t) => if env.lookup(n) is None {
            CheckV::Passes(env.declare(n, mutable, t))
        } else {
            CheckV::Refused("[Type Error] variable '"@ + string_debug(n) + "' already declared"@)
        },
    }
}

/// An assignment: to a declared, mutable variable, of its type (or of any
/// type when it was declared `any`, which then becomes the new type).
pub open spec fn assign_spec(n: Seq<char>, e: ExprV, env: EnvM<TypeV>) -> CheckV {
    match expr_type(e, env) {
        Err(m) => CheckV::Refused(m),
        Ok(t) => match env.lookup(n) {
            None => CheckV::Refused("[Type Error] variable '"@ + string_debug(n) + "' not declared."@),
            Some(b) => if !b.0 {
                CheckV::Refused(
                    "[Type Error] cannot reassign '"@ + string_debug(n)
                        + "' variable, since it was declared as a constant value."@,
                )
            } else if b.1 == TypeV::TAny {
                CheckV::Passes(env.declare(n, true, t))
            } else if b.1 == t {
                CheckV::Passes(env)
            } else {
                CheckV::Refused(
                    "[Type Error] expected '"@ + type_dbg(b.1) + "', found '"@ + type_dbg(t) + "'."@,
                )
            },
        },
    }
}

/// An assertion with a condition and a message: the condition boolean, the
/// message a string.
pub open spec fn assert_spec(
    a: Result<TypeV, Seq<char>>,
    m: Result<TypeV, Seq<char>>,
    bad_cond: Seq<char>,
    bad_msg: Seq<char>,
    env: EnvM<TypeV>,
) -> CheckV {
    match a {
        Err(x) => CheckV::Refused(x),
        Ok(ta) => match m {
            Err(x) => CheckV::Refused(x),
            Ok(tm) => if ta != TypeV::TBool {
                CheckV::Refused(bad_cond)
            } else if tm != TypeV::TString {
                CheckV::Refused(bad_msg)
            } else {
                CheckV::Passes(env)
            },
        },
    }
}

/// An assertion comparing two values: both of one type, the message a
/// string.
pub open spec fn compare_spec(
    which: Seq<char>,
    a: Result<TypeV, Seq<char>>,
    b: Result<TypeV, Seq<char>>,
    m: Result<TypeV, Seq<char>>,
    env: EnvM<TypeV>,
) -> CheckV {
    match a {
        Err(x) => CheckV::Refused(x),
        Ok(ta) => match b {
            Err(x) => CheckV::Refused(x),
            Ok(tb) => match m {
                Err(x) => CheckV::Refused(x),
                Ok(tm) => if ta != tb {
                    CheckV::Refused(
                        "[Type Error] "@ + which + " expressions must have the same type. Found "@
                            + type_dbg(ta) + " and "@ + type_dbg(tb) + "."@,
                    )
                } else if tm != TypeV::TString {
                    CheckV::Refused("[Type Error] Third "@ + which + " expression must be of type String."@)
                } else {
                    CheckV::Passes(env)
                },
            },
        },
    }
}

/// What checking a statement gives in an environment. Only declarations,
/// assignments, sequences, conditionals, loops, function and test
/// definitions, type declarations, returns and assertions are checked;
/// anything else is refused as not implemented.
#[verifier::opaque]
pub open spec fn check_spec(s: StmtV, env: EnvM<TypeV>) -> CheckV
    decreases s, 0int,
{
    match s {
        StmtV::VarDeclaration(n, e) => declare_spec(n, e, true, env),
        StmtV::ValDeclaration(n, e) => declare_spec(n, e, false, env),
        StmtV::Sequence(a, b) => match check_spec(*a, env) {
            CheckV::Passes(m) => check_spec(*b, m),
            other => other,
        },
        StmtV::Assignment(n, e) => assign_spec(n, e, env),
        StmtV::IfThenElse(c, t, e) => match expr_type(c, env) {
            Err(m) => CheckV::Refused(m),
            Ok(ct) => if ct != TypeV::TBool {
                CheckV::Refused("[Type Error] a condition in a 'if' statement must be of type boolean."@)
            } else {
                match check_spec(*t, env) {
                    CheckV::Passes(te) => match e {
                        Some(b) => match check_spec(*b, env) {
                            CheckV::Passes(ee) => merge_spec(te, ee),
                            other => other,
                        },
                        None => merge_spec(env, te),
                    },
                    other => other,
                }
            },
        },
        StmtV::While(c, b) => match expr_type(c, env) {
            Err(m) => CheckV::Refused(m),
            Ok(ct) => if ct != TypeV::TBool {
                CheckV::Refused("[Type Error] a condition in a 'while' statement must be of type boolean."@)
            } else {
                check_spec(*b, env)
            },
        },
        StmtV::For(v, it, b) => match expr_type(it, env) {
            Err(m) => CheckV::Refused(m),
            Ok(t) => match iterable_element(t) {
                Err(m) => CheckV::Refused(m),
                Ok(el) => match env.lookup(v) {
                    Some(x) => if x.1 == el || el == TypeV::TAny || x.1 == TypeV::TAny {
                        check_spec(*b, env)
                    } else {
                        CheckV::Refused(
                            "[Type Error] Type mismatch for iterator '"@ + string_debug(v)
                                + "': expected "@ + type_dbg(x.1) + ", found "@ + type_dbg(el),
                        )
                    },
                    None => check_spec(*b, env.declare(v, false, el)),
                },
            },
        },
        StmtV::FuncDef(f) => {
            let inner = declare_params(env.push(), f.params);
            match f.body {
                Some(b) => match check_spec(*b, inner) {
                    CheckV::Passes(m) => CheckV::Passes(m.pop().define_function(f)),
                    other => other,
                },
                None => CheckV::Passes(inner.pop().define_function(f)),
            }
        },
        StmtV::TypeDeclaration(n, cs) => CheckV::Passes(env.define_adt(n, cs)),
        StmtV::Return(e) => match expr_type(e, env) {
            Err(m) => CheckV::Refused(m),
            Ok(t) => if env.lookup("return"@) is Some {
                CheckV::Passes(env)
            } else {
                CheckV::Passes(env.declare("return"@, false, t))
            },
        },
        StmtV::Assert(a, m) => assert_spec(
            expr_type(a, env),
            expr_type(m, env),
            "[Type Error] First Assert expression must be of type Boolean."@,
            "[Type Error] Second Assert expression must be of type String."@,
            env,
        ),
        StmtV::AssertTrue(a, m) => assert_spec(
            expr_type(a, env),
            expr_type(m, env),
            "[Type Error] AssertTrue expression must be of type Boolean."@,
            "[Type Error] Second AssertTrue expression must be of type String."@,
            env,
        ),
        StmtV::AssertFalse(a, m) => assert_spec(
            expr_type(a, env),
            expr_type(m, env),
            "[Type Error] AssertFalse expression must be of type Boolean."@,
            "[Type Error] Second AssertFalse expression must be of type String."@,
            env,
        ),
        StmtV::AssertEQ(a, b, m) => compare_spec(
            "AssertEQ"@,
            expr_type(a, env),
            expr_type(b, env),
            expr_type(m, env),
            env,
        ),
        StmtV::AssertNEQ(a, b, m) => compare_spec(
            "AssertNEQ"@,
            expr_type(a, env),
            expr_type(b, env),
            expr_type(m, env),
            env,
        ),
        StmtV::TestDef(f) => if env.has_test(f.name) {
            CheckV::Refused("[Type Error] Test function '"@ + f.name + "' already exists."@)
        } else if f.params.len() != 0 {
            CheckV::Refused("[Type Error] Test functions must not have parameters."@)
        } else if f.kind != TypeV::TVoid {
            CheckV::Refused("[Type Error] Test functions must return void."@)
        } else {
            match f.body {
                Some(b) => match block_spec(*b, env) {
                    CheckV::Passes(_) => CheckV::Passes(env.define_test(f)),
                    other => other,
                },
                None => CheckV::Passes(env.define_test(f)),
            }
        },
        _ => CheckV::Refused("Not implemented yet"@),
    }
}

/// Checking a block: its statements in turn, in a new innermost scope that
/// is closed at the end.
#[verifier::opaque]
pub open spec fn block_spec(s: StmtV, env: EnvM<TypeV>) -> CheckV
    decreases s, 1int,
{
    match s {
        StmtV::Block(ss) => match check_all(ss, env.push()) {
            CheckV::Passes(m) => CheckV::Passes(m.pop()),
            other => other,
        },
        _ => CheckV::Refused("Expected a block statement"@),
    }
}

/// Checking statements in turn, each in the environment the one before
/// left; the first refusal stops.
#[verifier::opaque]
pub open spec fn check_all(ss: Seq<StmtV>, env: EnvM<TypeV>) -> CheckV
    decreases ss, 0int,
{
    if ss.len() == 0 {
        CheckV::Passes(env)
    } else {
        match check_all(ss.drop_last(), env) {
            CheckV::Passes(m) => check_spec(ss.last(), m),
            other => other,
        }
    }
}

/// No `return` outside of a function or test definition.
pub open spec fn no_bare_return(s: StmtV) -> bool
    decreases s,
{
    match s {
        StmtV::Return(_) => false,
        StmtV::Sequence(a, b) => no_bare_return(*a) && no_bare_return(*b),
        StmtV::IfThenElse(_, t, e) => no_bare_return(*t) && match e {
            Some(b) => no_bare_return(*b),
            None => true,
        },
        StmtV::While(_, b) => no_bare_return(*b),
        StmtV::For(_, _, b) => no_bare_return(*b),
        _ => true,
    }
}

/// The type of the elements met iterating over a value of the given type,
/// as [`iterable_element`] states.
pub fn get_iterable_element_type(expr_type: &Type) -> (r: Result<Type, String>)
    ensures
        type_result(r) == iterable_element(expr_type@),
{
    match expr_type {
        Type::TList(base_type) => Ok(clone_type(base_type)),
        Type::TString => Ok(Type::TString),
        Type::TTuple(types) => {
            proof {
                crate::ast::lemma_types_view(types@);
            }
            if types.len() == 0 {
                return Err(String::from_str("[Type Error] Cannot iterate over empty tuple type"));
            }
            match list_check(types) {
                Ok(_) => Ok(clone_type(&types[0])),
                Err(_) => Err(
                    String::from_str(
                        "[Type Error] Can only iterate over homogeneous tuples (all elements same type)",
                    ),
                ),
            }
        },
        _ => Err(concat3("[Type Error] Type ", expr_type.debug_text().as_str(), " is not iterable")),
    }
}

/// Replacing the innermost scope twice keeps the second one.
proof fn lemma_with_top_twice(e: EnvM<TypeV>, a: ScopeM<TypeV>, b: ScopeM<TypeV>)
    ensures
        e.with_top(a).top() == a,
        e.with_top(a).with_top(b) == e.with_top(b),
        e.with_top(a).stack.len() == e.stack.len(),
{
    if e.stack.len() > 0 {
        assert(e.with_top(a).with_top(b).stack =~= e.with_top(b).stack);
    }
}

/// The variables of `e2` among the first `n` listed, merged into `e1`.
pub open spec fn merged_prefix(e1: EnvM<TypeV>, e2: EnvM<TypeV>, names: Seq<Seq<char>>, n: int) -> EnvM<TypeV> {
    let t = e1.top();
    e1.with_top(
        ScopeM {
            vars: t.vars.union_prefer_right(
                Map::new(
                    |k: Seq<char>| exists|j: int| 0 <= j < n && names[j] == k,
                    |k: Seq<char>| merge_binding(e1.lookup(k), e2.lookup(k).unwrap()),
                ),
            ),
            funcs: t.funcs,
            tests: t.tests,
            adts: t.adts,
        },
    )
}

/// Joins the environments after the two branches of a conditional: every
/// variable visible in `env2` is bound in the innermost scope of a copy of
/// `env1`, mutable when both branches have it mutable, with the type that is
/// not `any`; a variable with two different types is refused.
fn merge_environments(env1: &Environment<Type>, env2: &Environment<Type>) -> (r: Result<Environment<Type>, String>)
    requires
        env1.wf(),
        env2.wf(),
    ensures
        match merge_spec(env1.model(), env2.model()) {
            CheckV::Passes(m) => r matches Ok(e) && e.wf() && e.model() == m,
            _ => inconsistency_refused(r, env1.model(), env2.model()),
        },
        r matches Ok(e) ==> e.stack@.len() == env1.stack@.len() && e.current_func@ == env1.current_func@,
{
    let ghost m1 = env1.model();
    let ghost m2 = env2.model();
    assert forall|k: Seq<char>| #[trigger] env1.lookup_spec(k) == m1.lookup(k) by {
        lemma_lookup_model(env1.stack@, env1.globals, k);
    }
    assert forall|k: Seq<char>| #[trigger] env2.lookup_spec(k) == m2.lookup(k) by {
        lemma_lookup_model(env2.stack@, env2.globals, k);
    }
    let mut joined = env1.duplicate();
    let vars = env2.get_all_variables();
    let ghost names = vars@.map_values(|v: (Name, (bool, Type))| v.0@);
    let mut i: usize = 0;
    proof {
        assert(merged_prefix(m1, m2, names, 0).top().vars =~= m1.top().vars);
        if m1.stack.len() > 0 {
            assert(merged_prefix(m1, m2, names, 0).stack =~= m1.stack);
        }
        assert(merged_prefix(m1, m2, names, 0) == m1);
    }
    while i < vars.len()
        invariant
            i <= vars.len(),
            env1.wf(),
            env2.wf(),
            m1 == env1.model(),
            m2 == env2.model(),
            names == vars@.map_values(|v: (Name, (bool, Type))| v.0@),
            forall|k: Seq<char>| #[trigger] env1.lookup_spec(k) == m1.lookup(k),
            forall|k: Seq<char>| #[trigger] env2.lookup_spec(k) == m2.lookup(k),
            forall|a: int| 0 <= a < vars@.len() ==> env2.lookup_spec(#[trigger] vars@[a].0@) == Some(vars@[a].1.model()),
            forall|k: Seq<char>|
                #[trigger] env2.lookup_spec(k) is Some ==> exists|a: int| 0 <= a < vars@.len() && vars@[a].0@ == k,
            joined.wf(),
            joined.stack@.len() == env1.stack@.len(),
            joined.current_func@ == env1.current_func@,
            joined.model() == merged_prefix(m1, m2, names, i as int),
            forall|j: int| 0 <= j < i ==> !inconsistent(m1, m2, #[trigger] names[j]),
        decreases vars.len() - i,
    {
        let name = &vars[i].0;
        let mutable2 = vars[i].1.0;
        let type2 = &vars[i].1.1;
        let ghost k = name@;
        assert(names[i as int] == k);
        assert(m2.lookup(k) == Some((mutable2, type2@)));
        let ghost b = merge_binding(m1.lookup(k), (mutable2, type2@));
        let ghost before = joined.model();
        match env1.lookup(name) {
            Some((mutable1, type1)) => {
                let final_mutable = mutable1 && mutable2;
                if matches!(type1, Type::TAny) {
                    joined.map_variable(name.clone(), final_mutable, clone_type(type2));
                } else if matches!(type2, Type::TAny) {
                    joined.map_variable(name.clone(), final_mutable, type1);
                } else if !type_equal(&type1, type2) {
                    assert(inconsistent(m1, m2, k));
                    let mut msg = concat3(
                        "[Type Error] Variable '",
                        name.as_str(),
                        "' has inconsistent types in different branches: '",
                    );
                    append_str(&mut msg, type1.debug_text().as_str());
                    append_str(&mut msg, "' and '");
                    append_str(&mut msg, type2.debug_text().as_str());
                    append_str(&mut msg, "'");
                    assert(msg@ == inconsistency_message(m1, m2, k));
                    return Err(msg);
                } else {
                    joined.map_variable(name.clone(), final_mutable, type1);
                }
            },
            None => {
                joined.map_variable(name.clone(), mutable2, clone_type(type2));
            },
        }
        proof {
            let t = m1.top();
            let pi = merged_prefix(m1, m2, names, i as int).top();
            let next = merged_prefix(m1, m2, names, i + 1);
            lemma_with_top_twice(m1, pi, next.top());
            let q = ScopeM { vars: pi.vars.insert(k, b), funcs: pi.funcs, tests: pi.tests, adts: pi.adts };
            lemma_with_top_twice(m1, pi, q);
            assert(before.top() == pi);
            assert(joined.model() == before.with_top(q));
            assert(q.vars =~= next.top().vars);
            assert(q == next.top());
            assert(joined.model() == next);
            assert(!inconsistent(m1, m2, names[i as int]));
        }
        i = i + 1;
    }
    proof {
        let t = m1.top();
        let want = merged(m1, m2);
        let have = merged_prefix(m1, m2, names, vars@.len() as int);
        assert(have.top().vars =~= want.top().vars) by {
            assert forall|k: Seq<char>|
                (exists|j: int| 0 <= j < vars@.len() && names[j] == k) == (m2.lookup(k) is Some) by {
                if m2.lookup(k) is Some {
                    assert(env2.lookup_spec(k) is Some);
                    let a = choose|a: int| 0 <= a < vars@.len() && vars@[a].0@ == k;
                    assert(names[a] == k);
                }
                if exists|j: int| 0 <= j < vars@.len() && names[j] == k {
                    let j = choose|j: int| 0 <= j < vars@.len() && names[j] == k;
                    assert(env2.lookup_spec(vars@[j].0@) is Some);
                }
            }
        }
        lemma_with_top_twice(m1, have.top(), want.top());
        assert(have == want);
        assert forall|k: Seq<char>| !inconsistent(m1, m2, k) by {
            if inconsistent(m1, m2, k) {
                assert(env2.lookup_spec(k) is Some);
                let a = choose|a: int| 0 <= a < vars@.len() && vars@[a].0@ == k;
                assert(names[a] == k);
            }
        }
    }
    Ok(joined)
}

/// A check's result matches its outcome: the environment it leaves, with
/// as many local scopes as there were and the same current function
/// (`current`), or the message it refuses with.
pub open spec fn outcome(r: Result<Environment<Type>, String>, c: CheckV, depth: int, current: FuncSignatureV) -> bool {
    match c {
        CheckV::Passes(m) => r matches Ok(e) && e.wf() && e.model() == m && e.stack@.len() == depth
            && e.current_func@ == current,
        CheckV::Refused(msg) => r matches Err(x) && x@ == msg,
        CheckV::Inconsistent(e1, e2) => inconsistency_refused(r, e1, e2),
    }
}

/// Checks a statement in an environment, as [`check_spec`] states: the
/// environment it leaves, or why it is refused.
pub fn check_stmt(stmt: Statement, env: &Environment<Type>) -> (r: Result<Environment<Type>, String>)
    requires
        env.wf(),
        env.stack@.len() > 0 || no_bare_return(stmt@),
    ensures
        outcome(r, check_spec(stmt@, env.model()), env.stack@.len() as int, env.current_func@),
{
    check(&stmt, env)
}

/// Checks a block: its statements in turn in a new scope, closed at the
/// end, as [`block_spec`] states.
pub fn check_block(stmt: Statement, env: &Environment<Type>) -> (r: Result<Environment<Type>, String>)
    requires
        env.wf(),
    ensures
        outcome(r, block_spec(stmt@, env.model()), env.stack@.len() as int, env.current_func@),
{
    check_block_ref(&stmt, env)
}

/// Checks a statement.
fn check(s: &Statement, env: &Environment<Type>) -> (r: Result<Environment<Type>, String>)
    requires
        env.wf(),
        env.stack@.len() > 0 || no_bare_return(s@),
    ensures
        outcome(r, check_spec(s@, env.model()), env.stack@.len() as int, env.current_func@),
    decreases s, 1int,
{
    match s {
        Statement::VarDeclaration(..) | Statement::ValDeclaration(..) | Statement::Assignment(..)
        | Statement::Return(..) | Statement::TypeDeclaration(..) => check_binding(s, env),
        Statement::Assert(..) | Statement::AssertTrue(..) | Statement::AssertFalse(..)
        | Statement::AssertEQ(..) | Statement::AssertNEQ(..) => check_assertion(s, env),
        Statement::Sequence(..) | Statement::IfThenElse(..) | Statement::While(..) => check_flow(s, env),
        Statement::For(..) => check_for(s, env),
        Statement::FuncDef(..) | Statement::TestDef(..) => check_definition(s, env),
        _ => {
            proof {
                reveal(check_spec);
            }
            Err(String::from_str("Not implemented yet"))
        },
    }
}

/// Declarations, assignments, returns and type declarations.
fn check_binding(s: &Statement, env: &Environment<Type>) -> (r: Result<Environment<Type>, String>)
    requires
        env.wf(),
        env.stack@.len() > 0 || no_bare_return(s@),
        s is VarDeclaration || s is ValDeclaration || s is Assignment || s is Return || s is TypeDeclaration,
    ensures
        outcome(r, check_spec(s@, env.model()), env.stack@.len() as int, env.current_func@),
{
    proof {
        reveal(check_spec);
        reveal(block_spec);
        reveal(check_all);
    }
    let mut new_env = env.duplicate();
    match s {
        Statement::VarDeclaration(n, e) | Statement::ValDeclaration(n, e) => {
            let mutable = matches!(s, Statement::VarDeclaration(..));
            let declared = new_env.lookup(n).is_some();
            let t = match check_expr(e, &new_env) {
                Ok(t) => t,
                Err(m) => {
                    return Err(m);
                },
            };
            if !declared {
                new_env.map_variable(n.clone(), mutable, t);
                Ok(new_env)
            } else {
                Err(concat3("[Type Error] variable '", debug_string(n.as_str()).as_str(), "' already declared"))
            }
        },
        Statement::Assignment(n, e) => {
            let t = match check_expr(e, &new_env) {
                Ok(t) => t,
                Err(m) => {
                    return Err(m);
                },
            };
            match new_env.lookup(n) {
                Some((mutable, var_type)) => {
                    if !mutable {
                        Err(
                            concat3(
                                "[Type Error] cannot reassign '",
                                debug_string(n.as_str()).as_str(),
                                "' variable, since it was declared as a constant value.",
                            ),
                        )
                    } else if matches!(var_type, Type::TAny) {
                        new_env.map_variable(n.clone(), true, t);
                        Ok(new_env)
                    } else if type_equal(&var_type, &t) {
                        Ok(new_env)
                    } else {
                        let mut msg = concat3("[Type Error] expected '", var_type.debug_text().as_str(), "', found '");
                        append_str(&mut msg, t.debug_text().as_str());
                        append_str(&mut msg, "'.");
                        Err(msg)
                    }
                },
                None => Err(concat3("[Type Error] variable '", debug_string(n.as_str()).as_str(), "' not declared.")),
            }
        },
        Statement::Return(e) => {
            let t = match check_expr(e, &new_env) {
                Ok(t) => t,
                Err(m) => {
                    return Err(m);
                },
            };
            let ret = String::from_str("return");
            if new_env.lookup(&ret).is_some() {
                Ok(new_env)
            } else {
                new_env.map_variable(ret, false, t);
                Ok(new_env)
            }
        },
        Statement::TypeDeclaration(n, cs) => {
            new_env.map_adt(n.clone(), clone_ctors(cs));
            Ok(new_env)
        },
        _ => Ok(new_env),
    }
}

/// The check of an assertion's operands: each expression's type, in order.
fn assert_types(a: &Expression, m: &Expression, env: &Environment<Type>) -> (r: Result<(Type, Type), String>)
    requires
        env.wf(),
    ensures
        match expr_type(a@, env.model()) {
            Err(x) => r matches Err(y) && y@ == x,
            Ok(ta) => match expr_type(m@, env.model()) {
                Err(x) => r matches Err(y) && y@ == x,
                Ok(tm) => r matches Ok(p) && p.0@ == ta && p.1@ == tm,
            },
        },
{
    let ta = match check_expr(a, env) {
        Ok(t) => t,
        Err(x) => {
            return Err(x);
        },
    };
    let tm = match check_expr(m, env) {
        Ok(t) => t,
        Err(x) => {
            return Err(x);
        },
    };
    Ok((ta, tm))
}

/// Assertions.
fn check_assertion(s: &Statement, env: &Environment<Type>) -> (r: Result<Environment<Type>, String>)
    requires
        env.wf(),
        s is Assert || s is AssertTrue || s is AssertFalse || s is AssertEQ || s is AssertNEQ,
    ensures
        outcome(r, check_spec(s@, env.model()), env.stack@.len() as int, env.current_func@),
{
    proof {
        reveal(check_spec);
        reveal(block_spec);
        reveal(check_all);
    }
    match s {
        Statement::Assert(a, m) | Statement::AssertTrue(a, m) | Statement::AssertFalse(a, m) => {
            let (bad_cond, bad_msg) = match s {
                Statement::Assert(..) => (
                    "[Type Error] First Assert expression must be of type Boolean.",
                    "[Type Error] Second Assert expression must be of type String.",
                ),
                Statement::AssertTrue(..) => (
                    "[Type Error] AssertTrue expression must be of type Boolean.",
                    "[Type Error] Second AssertTrue expression must be of type String.",
                ),
                _ => (
                    "[Type Error] AssertFalse expression must be of type Boolean.",
                    "[Type Error] Second AssertFalse expression must be of type String.",
                ),
            };
            let (ta, tm) = match assert_types(a, m, env) {
                Ok(p) => p,
                Err(x) => {
                    return Err(x);
                },
            };
            if !matches!(ta, Type::TBool) {
                Err(String::from_str(bad_cond))
            } else if !matches!(tm, Type::TString) {
                Err(String::from_str(bad_msg))
            } else {
                Ok(env.duplicate())
            }
        },
        Statement::AssertEQ(a, b, m) | Statement::AssertNEQ(a, b, m) => {
            let which = if matches!(s, Statement::AssertEQ(..)) {
                "AssertEQ"
            } else {
                "AssertNEQ"
            };
            let (ta, tb) = match assert_types(a, b, env) {
                Ok(p) => p,
                Err(x) => {
                    return Err(x);
                },
            };
            let tm = match check_expr(m, env) {
                Ok(t) => t,
                Err(x) => {
                    return Err(x);
                },
            };
            if !type_equal(&ta, &tb) {
                let mut msg = concat3("[Type Error] ", which, " expressions must have the same type. Found ");
                append_str(&mut msg, ta.debug_text().as_str());
                append_str(&mut msg, " and ");
                append_str(&mut msg, tb.debug_text().as_str());
                append_str(&mut msg, ".");
                Err(msg)
            } else if !matches!(tm, Type::TString) {
                Err(concat3("[Type Error] Third ", which, " expression must be of type String."))
            } else {
                Ok(env.duplicate())
            }
        },
        _ => Err(String::new()),
    }
}

/// Sequences, conditionals and `while` loops.
fn check_flow(s: &Statement, env: &Environment<Type>) -> (r: Result<Environment<Type>, String>)
    requires
        env.wf(),
        env.stack@.len() > 0 || no_bare_return(s@),
        s is Sequence || s is IfThenElse || s is While,
    ensures
        outcome(r, check_spec(s@, env.model()), env.stack@.len() as int, env.current_func@),
    decreases s, 0int,
{
    proof {
        reveal(check_spec);
        reveal(block_spec);
        reveal(check_all);
    }
    match s {
        Statement::Sequence(a, b) => {
            let first = match check(a, env) {
                Ok(e) => e,
                Err(m) => {
                    return Err(m);
                },
            };
            check(b, &first)
        },
        Statement::IfThenElse(c, t, e) => {
            let new_env = env.duplicate();
            let ct = match check_expr(c, &new_env) {
                Ok(t) => t,
                Err(m) => {
                    return Err(m);
                },
            };
            assert(s@ == StmtV::IfThenElse(c@, Box::new(t@), opt_stmt_view(*e)));
            if !matches!(ct, Type::TBool) {
                return Err(
                    String::from_str("[Type Error] a condition in a 'if' statement must be of type boolean."),
                );
            }
            let then_env = match check(t, &new_env) {
                Ok(x) => x,
                Err(m) => {
                    return Err(m);
                },
            };
            match e {
                Some(b) => {
                    assert(opt_stmt_view(*e) == Some(Box::new((**b)@)));
                    let else_env = match check(b, &new_env) {
                        Ok(x) => x,
                        Err(m) => {
                            return Err(m);
                        },
                    };
                    merge_environments(&then_env, &else_env)
                },
                None => merge_environments(&new_env, &then_env),
            }
        },
        Statement::While(c, b) => {
            let new_env = env.duplicate();
            let ct = match check_expr(c, &new_env) {
                Ok(t) => t,
                Err(m) => {
                    return Err(m);
                },
            };
            if !matches!(ct, Type::TBool) {
                return Err(
                    String::from_str(
                        "[Type Error] a condition in a 'while' statement must be of type boolean.",
                    ),
                );
            }
            check(b, &new_env)
        },
        _ => Err(String::new()),
    }
}

/// `for` loops: the iterated value must be iterable; a loop variable
/// already visible must have the element type (or `any`), a new one is bound
/// immutable in the current scope.
fn check_for(s: &Statement, env: &Environment<Type>) -> (r: Result<Environment<Type>, String>)
    requires
        env.wf(),
        env.stack@.len() > 0 || no_bare_return(s@),
        s is For,
    ensures
        outcome(r, check_spec(s@, env.model()), env.stack@.len() as int, env.current_func@),
    decreases s, 0int,
{
    proof {
        reveal(check_spec);
        reveal(block_spec);
        reveal(check_all);
    }
    match s {
        Statement::For(v, it, b) => {
            let mut new_env = env.duplicate();
            let t = match check_expr(it, &new_env) {
                Ok(t) => t,
                Err(m) => {
                    return Err(m);
                },
            };
            let el = match get_iterable_element_type(&t) {
                Ok(x) => x,
                Err(m) => {
                    return Err(m);
                },
            };
            match new_env.lookup(v) {
                Some((_, existing)) => {
                    if type_equal(&existing, &el) || matches!(el, Type::TAny) || matches!(existing, Type::TAny) {
                        check(b, &new_env)
                    } else {
                        let mut msg = concat3(
                            "[Type Error] Type mismatch for iterator '",
                            debug_string(v.as_str()).as_str(),
                            "': expected ",
                        );
                        append_str(&mut msg, existing.debug_text().as_str());
                        append_str(&mut msg, ", found ");
                        append_str(&mut msg, el.debug_text().as_str());
                        Err(msg)
                    }
                },
                None => {
                    new_env.map_variable(v.clone(), false, el);
                    check(b, &new_env)
                },
            }
        },
        _ => Err(String::new()),
    }
}

/// Binds the parameters of a function, immutable, in order.
fn bind_params(env: &mut Environment<Type>, f: &Function)
    requires
        old(env).wf(),
    ensures
        final(env).wf(),
        final(env).stack@.len() == old(env).stack@.len(),
        final(env).model() == declare_params(old(env).model(), f@.params),
        final(env).current_func == old(env).current_func,
{
    let ghost pv = f@.params;
    let ghost start = env.model();
    proof {
        crate::ast::lemma_params_view(f.params@);
        assert(pv.subrange(0, 0) =~= Seq::<(Seq<char>, TypeV)>::empty());
    }
    let mut i: usize = 0;
    while i < f.params.len()
        invariant
            i <= f.params.len(),
            pv == f@.params,
            pv.len() == f.params.len(),
            forall|j: int|
                0 <= j < f.params.len() ==> #[trigger] pv[j] == (
                    f.params@[j].argument_name@,
                    f.params@[j].argument_type@,
                ),
            env.wf(),
            env.stack@.len() == old(env).stack@.len(),
            env.current_func == old(env).current_func,
            start == old(env).model(),
            env.model() == declare_params(start, pv.subrange(0, i as int)),
        decreases f.params.len() - i,
    {
        assert(pv.subrange(0, i + 1).drop_last() =~= pv.subrange(0, i as int));
        env.map_variable(f.params[i].argument_name.clone(), false, clone_type(&f.params[i].argument_type));
        i = i + 1;
    }
    assert(pv.subrange(0, f.params.len() as int) =~= pv);
}

/// Function and test definitions.
fn check_definition(s: &Statement, env: &Environment<Type>) -> (r: Result<Environment<Type>, String>)
    requires
        env.wf(),
        s is FuncDef || s is TestDef,
    ensures
        outcome(r, check_spec(s@, env.model()), env.stack@.len() as int, env.current_func@),
    decreases s, 0int,
{
    proof {
        reveal(check_spec);
        reveal(block_spec);
        reveal(check_all);
    }
    match s {
        Statement::FuncDef(f) => {
            assert(s@ == StmtV::FuncDef(f@));
            let mut new_env = env.duplicate();
            new_env.push();
            bind_params(&mut new_env, f);
            match &f.body {
                Some(body) => {
                    new_env = match check(body, &new_env) {
                        Ok(e) => e,
                        Err(m) => {
                            return Err(m);
                        },
                    };
                },
                None => {},
            }
            new_env.pop();
            new_env.map_function(clone_function(f));
            Ok(new_env)
        },
        Statement::TestDef(f) => {
            assert(s@ == StmtV::TestDef(f@));
            if env.lookup_test(&f.name).is_some() {
                return Err(concat3("[Type Error] Test function '", f.name.as_str(), "' already exists."));
            }
            proof {
                crate::ast::lemma_params_view(f.params@);
            }
            if f.params.len() != 0 {
                return Err(String::from_str("[Type Error] Test functions must not have parameters."));
            }
            if !matches!(f.kind, Type::TVoid) {
                return Err(String::from_str("[Type Error] Test functions must return void."));
            }
            match &f.body {
                Some(body) => {
                    match check_block_ref(body, env) {
                        Ok(_) => {},
                        Err(m) => {
                            return Err(m);
                        },
                    }
                },
                None => {},
            }
            let mut final_env = env.duplicate();
            final_env.map_test(clone_function(f));
            Ok(final_env)
        },
        _ => Err(String::new()),
    }
}

/// Checks a block.
fn check_block_ref(s: &Statement, env: &Environment<Type>) -> (r: Result<Environment<Type>, String>)
    requires
        env.wf(),
    ensures
        outcome(r, block_spec(s@, env.model()), env.stack@.len() as int, env.current_func@),
    decreases s, 2int,
{
    proof {
        reveal(check_spec);
        reveal(block_spec);
        reveal(check_all);
    }
    match s {
        Statement::Block(stmts) => {
            let mut block_env = env.duplicate();
            block_env.push();
            let mut done = match check_list(stmts, &block_env) {
                Ok(e) => e,
                Err(m) => {
                    return Err(m);
                },
            };
            done.pop();
            Ok(done)
        },
        _ => Err(String::from_str("Expected a block statement")),
    }
}

/// Checks statements in turn, as [`check_all`] states.
fn check_list(stmts: &Vec<Statement>, env: &Environment<Type>) -> (r: Result<Environment<Type>, String>)
    requires
        env.wf(),
        env.stack@.len() > 0,
    ensures
        outcome(r, check_all(stmts_view(stmts@), env.model()), env.stack@.len() as int, env.current_func@),
    decreases stmts@, 0int,
{
    let ghost sv = stmts_view(stmts@);
    proof {
        lemma_stmts_view(stmts@);
        reveal(check_spec);
        reveal(block_spec);
        reveal(check_all);
        assert(sv.subrange(0, 0) =~= Seq::<StmtV>::empty());
    }
    let mut cur = env.duplicate();
    let ghost start = env.model();
    let mut i: usize = 0;
    while i < stmts.len()
        invariant
            i <= stmts.len(),
            env.wf(),
            env.stack@.len() > 0,
            sv == stmts_view(stmts@),
            sv.len() == stmts.len(),
            forall|j: int| 0 <= j < stmts.len() ==> #[trigger] sv[j] == stmts@[j]@,
            cur.wf(),
            cur.stack@.len() == env.stack@.len(),
            cur.current_func@ == env.current_func@,
            start == env.model(),
            check_all(sv.subrange(0, i as int), start) == CheckV::Passes(cur.model()),
        decreases stmts.len() - i,
    {
        proof {
            reveal(check_spec);
            reveal(block_spec);
            reveal(check_all);
            assert(sv.subrange(0, i + 1).drop_last() =~= sv.subrange(0, i as int));
            assert(sv.subrange(0, i + 1).last() == sv[i as int]);
            assert(check_all(sv.subrange(0, i + 1), start) == check_spec(sv[i as int], cur.model()));
        }
        cur = match check(&stmts[i], &cur) {
            Ok(e) => e,
            Err(m) => {
                proof {
                    lemma_check_all_stops(sv, i as int + 1, start);
                }
                return Err(m);
            },
        };
        i = i + 1;
    }
    assert(sv.subrange(0, stmts.len() as int) =~= sv);
    Ok(cur)
}

/// A refusal in the first statements of a list is the refusal of the whole
/// list.
proof fn lemma_check_all_stops(ss: Seq<StmtV>, k: int, env: EnvM<TypeV>)
    requires
        0 <= k <= ss.len(),
        !(check_all(ss.subrange(0, k), env) is Passes),
    ensures
        check_all(ss, env) == check_all(ss.subrange(0, k), env),
    decreases ss.len() - k,
{
    if k < ss.len() {
        assert(ss.subrange(0, k + 1).drop_last() =~= ss.subrange(0, k));
        reveal(check_spec);
        reveal(block_spec);
        reveal(check_all);
        lemma_check_all_stops(ss, k + 1, env);
    } else {
        assert(ss.subrange(0, k) =~= ss);
    }
}

/// A declaration of a name not yet visible binds it with the type of its
/// expression, mutable for `var` and immutable for `val`; a name already
/// visible cannot be declared again.
pub proof fn law_declaration_binds_type(n: Seq<char>, e: ExprV, mutable: bool, env: EnvM<TypeV>)
    requires
        expr_type(e, env) is Ok,
    ensures
        ({
            let s = if mutable {
                StmtV::VarDeclaration(n, e)
            } else {
                StmtV::ValDeclaration(n, e)
            };
            let t = expr_type(e, env)->Ok_0;
            &&& env.lookup(n) is None ==> check_spec(s, env) == CheckV::Passes(env.declare(n, mutable, t))
            &&& env.lookup(n) is None ==> env.declare(n, mutable, t).lookup(n) == Some((mutable, t))
            &&& env.lookup(n) is Some ==> check_spec(s, env) is Refused
        }),
{
    reveal(check_spec);
    reveal(block_spec);
    reveal(check_all);
    crate::environment::law_declare_then_lookup(env, n, mutable, expr_type(e, env)->Ok_0, n);
}

/// Assigning to a mutable variable of a known type passes, changing nothing,
/// exactly when the value has that type; a constant is never assigned.
pub proof fn law_assignment_keeps_type(n: Seq<char>, e: ExprV, env: EnvM<TypeV>)
    requires
        expr_type(e, env) is Ok,
        env.lookup(n) is Some,
        env.lookup(n).unwrap().1 != TypeV::TAny,
    ensures
        ({
            let b = env.lookup(n).unwrap();
            let t = expr_type(e, env)->Ok_0;
            let r = check_spec(StmtV::Assignment(n, e), env);
            &&& !b.0 ==> r is Refused
            &&& b.0 ==> (r == CheckV::Passes(env) <==> t == b.1)
            &&& b.0 && t != b.1 ==> r is Refused
        }),
{
    reveal(check_spec);
    reveal(block_spec);
    reveal(check_all);
}

/// The two branches of a conditional may give a variable two types only when
/// one of them is `any`: otherwise the conditional is refused; when they
/// agree, the variable keeps its type after the conditional.
pub proof fn law_branches_agree(
    c: ExprV,
    t: StmtV,
    e: StmtV,
    env: EnvM<TypeV>,
    k: Seq<char>,
)
    requires
        expr_type(c, env) == Ok::<TypeV, Seq<char>>(TypeV::TBool),
        check_spec(t, env) is Passes,
        check_spec(e, env) is Passes,
    ensures
        ({
            let te = check_spec(t, env)->Passes_0;
            let ee = check_spec(e, env)->Passes_0;
            let r = check_spec(StmtV::IfThenElse(c, Box::new(t), Some(Box::new(e))), env);
            &&& inconsistent(te, ee, k) ==> r == CheckV::Inconsistent(te, ee)
            &&& (r is Passes && te.lookup(k) is Some && ee.lookup(k) is Some
                && te.lookup(k).unwrap().1 == ee.lookup(k).unwrap().1)
                ==> r->Passes_0.lookup(k) is Some && r->Passes_0.lookup(k).unwrap().1 == te.lookup(k).unwrap().1
        }),
{
    reveal(check_spec);
    reveal(block_spec);
    reveal(check_all);
    let te = check_spec(t, env)->Passes_0;
    let ee = check_spec(e, env)->Passes_0;
    let r = check_spec(StmtV::IfThenElse(c, Box::new(t), Some(Box::new(e))), env);
    if r is Passes && te.lookup(k) is Some && ee.lookup(k) is Some {
        let m = merged(te, ee);
        let top = te.top();
        let nt = ScopeM {
            vars: top.vars.union_prefer_right(
                Map::new(
                    |x: Seq<char>| ee.lookup(x) is Some,
                    |x: Seq<char>| merge_binding(te.lookup(x), ee.lookup(x).unwrap()),
                ),
            ),
            funcs: top.funcs,
            tests: top.tests,
            adts: top.adts,
        };
        assert(nt.vars.dom().contains(k));
        assert(m == te.with_top(nt));
        lemma_with_top_twice(te, nt, nt);
        lemma_lookup_top(te, nt, k);
    }
}

/// A name bound in the innermost scope is found there.
proof fn lemma_lookup_top(e: EnvM<TypeV>, s: ScopeM<TypeV>, k: Seq<char>)
    requires
        s.vars.dom().contains(k),
    ensures
        e.with_top(s).lookup(k) == Some(s.vars[k]),
{
}

/// The types of operators: on two numeric operands (integer or real) a
/// comparison (`==`, `!=`, `<`, `>`, `<=`, `>=`) has type `Bool`, and
/// `+ - * /` have type `Int` when both are integers and `Real` otherwise; on
/// two booleans `and` and `or` have type `Bool`, and `not` of a boolean has
/// type `Bool`.
pub proof fn law_operator_types(l: ExprV, r: ExprV, env: EnvM<TypeV>, tl: TypeV, tr: TypeV)
    requires
        expr_type(l, env) == Ok::<TypeV, Seq<char>>(tl),
        expr_type(r, env) == Ok::<TypeV, Seq<char>>(tr),
    ensures
        (tl == TypeV::TInteger || tl == TypeV::TReal) && (tr == TypeV::TInteger || tr == TypeV::TReal) ==> {
            &&& expr_type(ExprV::EQ(Box::new(l), Box::new(r)), env) == Ok::<TypeV, Seq<char>>(TypeV::TBool)
            &&& expr_type(ExprV::NEQ(Box::new(l), Box::new(r)), env) == Ok::<TypeV, Seq<char>>(TypeV::TBool)
            &&& expr_type(ExprV::LT(Box::new(l), Box::new(r)), env) == Ok::<TypeV, Seq<char>>(TypeV::TBool)
            &&& expr_type(ExprV::GT(Box::new(l), Box::new(r)), env) == Ok::<TypeV, Seq<char>>(TypeV::TBool)
            &&& expr_type(ExprV::LTE(Box::new(l), Box::new(r)), env) == Ok::<TypeV, Seq<char>>(TypeV::TBool)
            &&& expr_type(ExprV::GTE(Box::new(l), Box::new(r)), env) == Ok::<TypeV, Seq<char>>(TypeV::TBool)
        },
        tl == TypeV::TInteger && tr == TypeV::TInteger ==> {
            &&& expr_type(ExprV::Add(Box::new(l), Box::new(r)), env) == Ok::<TypeV, Seq<char>>(TypeV::TInteger)
            &&& expr_type(ExprV::Sub(Box::new(l), Box::new(r)), env) == Ok::<TypeV, Seq<char>>(TypeV::TInteger)
            &&& expr_type(ExprV::Mul(Box::new(l), Box::new(r)), env) == Ok::<TypeV, Seq<char>>(TypeV::TInteger)
            &&& expr_type(ExprV::Div(Box::new(l), Box::new(r)), env) == Ok::<TypeV, Seq<char>>(TypeV::TInteger)
        },
        (tl == TypeV::TInteger || tl == TypeV::TReal) && (tr == TypeV::TInteger || tr == TypeV::TReal) && (tl
            == TypeV::TReal || tr == TypeV::TReal) ==> {
            &&& expr_type(ExprV::Add(Box::new(l), Box::new(r)), env) == Ok::<TypeV, Seq<char>>(TypeV::TReal)
            &&& expr_type(ExprV::Sub(Box::new(l), Box::new(r)), env) == Ok::<TypeV, Seq<char>>(TypeV::TReal)
            &&& expr_type(ExprV::Mul(Box::new(l), Box::new(r)), env) == Ok::<TypeV, Seq<char>>(TypeV::TReal)
            &&& expr_type(ExprV::Div(Box::new(l), Box::new(r)), env) == Ok::<TypeV, Seq<char>>(TypeV::TReal)
        },
        tl == TypeV::TBool && tr == TypeV::TBool ==> {
            &&& expr_type(ExprV::And(Box::new(l), Box::new(r)), env) == Ok::<TypeV, Seq<char>>(TypeV::TBool)
            &&& expr_type(ExprV::Or(Box::new(l), Box::new(r)), env) == Ok::<TypeV, Seq<char>>(TypeV::TBool)
        },
        tl == TypeV::TBool ==> expr_type(ExprV::Not(Box::new(l)), env) == Ok::<TypeV, Seq<char>>(TypeV::TBool),
{
    reveal(expr_type);
}

} // verus!
