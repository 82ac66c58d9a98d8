//! The debug texts of types, expressions and statements, laid out as their
//! derived `Debug` prints them (`{:?}`): a variant by its name, its fields in
//! parentheses or, for named fields, in braces after their names; lists in
//! square brackets; the constructors of a data type as a map in braces;
//! texts quoted and escaped.
use vstd::prelude::*;
use crate::ast::{
    boxed_exprs_view, branches_view, ctors_view, exprs_view, lemma_boxed_exprs_view, lemma_branches_view,
    lemma_ctors_view, lemma_exprs_view, lemma_params_view, lemma_stmts_view, lemma_types_view, params_view,
    stmts_view, types_view, arms_view, lemma_arms_view, Expression, ExprV, FormalArgument, Function, FunctionV,
    Name, Statement, StmtV, Type, TypeV,
};
use crate::tac::join_text;
use crate::text::{append_int, append_str, int_text};

verus! {

/// The debug text of a string: in double quotes, with special characters
/// escaped.
pub uninterp spec fn string_debug(s: Seq<char>) -> Seq<char>;

/// `format!("{:?}", s)` on a string (`<str as Debug>`). Its text is named,
/// not stated: it is a function of the string alone.
#[verifier::external_body]
pub(crate) fn debug_string(s: &str) -> (r: String)
    ensures
        r@ == string_debug(s@),
{
    format!("{:?}", s)
}

/// A list of texts as `Debug` prints a list: in square brackets, separated
/// by `, `.
pub open spec fn list_text(parts: Seq<Seq<char>>) -> Seq<char> {
    "["@ + join_text(parts, ", "@) + "]"@
}

/// A map's entries as `Debug` prints a map: in braces, separated by `, `.
pub open spec fn map_text(entries: Seq<Seq<char>>) -> Seq<char> {
    "{"@ + join_text(entries, ", "@) + "}"@
}

/// The debug text of a type.
pub open spec fn type_dbg(t: TypeV) -> Seq<char>
    decreases t, 0int,
{
    match t {
        TypeV::TInteger => "TInteger"@,
        TypeV::TBool => "TBool"@,
        TypeV::TReal => "TReal"@,
        TypeV::TString => "TString"@,
        TypeV::TVoid => "TVoid"@,
        TypeV::TFunction(r, ps) => "TFunction("@ + type_dbg(*r) + ", "@ + list_text(types_dbgs(ps)) + ")"@,
        TypeV::TList(x) => "TList("@ + type_dbg(*x) + ")"@,
        TypeV::TTuple(es) => "TTuple("@ + list_text(types_dbgs(es)) + ")"@,
        TypeV::TMaybe(x) => "TMaybe("@ + type_dbg(*x) + ")"@,
        TypeV::TResult(o, e) => "TResult("@ + type_dbg(*o) + ", "@ + type_dbg(*e) + ")"@,
        TypeV::TUnion(ts) => "TUnion("@ + list_text(types_dbgs(ts)) + ")"@,
        TypeV::TAny => "TAny"@,
        TypeV::TAlgebraicData(n, cs) => "TAlgebraicData("@ + string_debug(n) + ", "@ + map_text(ctors_dbgs(cs))
            + ")"@,
    }
}

/// The debug texts of a list of types.
pub open spec fn types_dbgs(ts: Seq<TypeV>) -> Seq<Seq<char>>
    decreases ts, 0int,
{
    if ts.len() == 0 {
        seq![]
    } else {
        types_dbgs(ts.drop_last()).push(type_dbg(ts.last()))
    }
}

/// The debug texts of constructors, as entries of a map from a
/// constructor's name to its field types (listed in the order held, which
/// for a canonical list is the order of the names).
pub open spec fn ctors_dbgs(cs: Seq<(Seq<char>, Seq<TypeV>)>) -> Seq<Seq<char>>
    decreases cs, 0int,
{
    if cs.len() == 0 {
        seq![]
    } else {
        ctors_dbgs(cs.drop_last()).push(
            string_debug(cs.last().0) + ": "@ + list_text(types_dbgs(cs.last().1)),
        )
    }
}

/// One debug text per type.
proof fn lemma_types_dbgs_len(ts: Seq<TypeV>)
    ensures
        types_dbgs(ts).len() == ts.len(),
    decreases ts.len(),
{
    if ts.len() > 0 {
        lemma_types_dbgs_len(ts.drop_last());
    }
}

/// One debug text per constructor.
proof fn lemma_ctors_dbgs_len(cs: Seq<(Seq<char>, Seq<TypeV>)>)
    ensures
        ctors_dbgs(cs).len() == cs.len(),
    decreases cs.len(),
{
    if cs.len() > 0 {
        lemma_ctors_dbgs_len(cs.drop_last());
    }
}

/// Appends the debug text of a type.
fn append_type_dbg(out: &mut String, t: &Type)
    ensures
        final(out)@ == old(out)@ + type_dbg(t@),
    decreases t, 2int,
{
    match t {
        Type::TInteger => append_str(out, "TInteger"),
        Type::TBool => append_str(out, "TBool"),
        Type::TReal => append_str(out, "TReal"),
        Type::TString => append_str(out, "TString"),
        Type::TVoid => append_str(out, "TVoid"),
        Type::TFunction(r, ps) => {
            append_str(out, "TFunction(");
            append_type_dbg(out, r);
            append_str(out, ", ");
            append_types_dbg(out, ps);
            append_str(out, ")");
        },
        Type::TList(x) => {
            append_str(out, "TList(");
            append_type_dbg(out, x);
            append_str(out, ")");
        },
        Type::TTuple(es) => {
            append_str(out, "TTuple(");
            append_types_dbg(out, es);
            append_str(out, ")");
        },
        Type::TMaybe(x) => {
            append_str(out, "TMaybe(");
            append_type_dbg(out, x);
            append_str(out, ")");
        },
        Type::TResult(o, e) => {
            append_str(out, "TResult(");
            append_type_dbg(out, o);
            append_str(out, ", ");
            append_type_dbg(out, e);
            append_str(out, ")");
        },
        Type::TUnion(ts) => {
            append_str(out, "TUnion(");
            append_types_dbg(out, ts);
            append_str(out, ")");
        },
        Type::TAny => append_str(out, "TAny"),
        Type::TAlgebraicData(n, cs) => {
            append_str(out, "TAlgebraicData(");
            append_str(out, debug_string(n.as_str()).as_str());
            append_str(out, ", ");
            append_ctors_dbg(out, cs);
            append_str(out, ")");
        },
    }
    assert(final(out)@ =~= old(out)@ + type_dbg(t@));
}

/// Appends the debug text of a list of types.
fn append_types_dbg(out: &mut String, ts: &Vec<Type>)
    ensures
        final(out)@ == old(out)@ + list_text(types_dbgs(types_view(ts@))),
    decreases ts@, 1int,
{
    let ghost tv = types_view(ts@);
    proof {
        lemma_types_view(ts@);
    }
    let ghost start = out@;
    append_str(out, "[");
    let mut i: usize = 0;
    assert(tv.subrange(0, 0) =~= Seq::<TypeV>::empty());
    while i < ts.len()
        invariant
            i <= ts.len(),
            tv == types_view(ts@),
            tv.len() == ts.len(),
            forall|j: int| 0 <= j < ts.len() ==> #[trigger] tv[j] == ts@[j]@,
            out@ == start + "["@ + join_text(types_dbgs(tv.subrange(0, i as int)), ", "@),
        decreases ts.len() - i,
    {
        let ghost sub = tv.subrange(0, i + 1);
        assert(sub.drop_last() =~= tv.subrange(0, i as int));
        assert(sub.last() == ts@[i as int]@);
        if i > 0 {
            append_str(out, ", ");
        }
        append_type_dbg(out, &ts[i]);
        let ghost parts = types_dbgs(sub);
        assert(parts == types_dbgs(tv.subrange(0, i as int)).push(type_dbg(ts@[i as int]@)));
        assert(parts.drop_last() =~= types_dbgs(tv.subrange(0, i as int)));
        proof { lemma_types_dbgs_len(sub); }
        assert(out@ =~= start + "["@ + join_text(types_dbgs(sub), ", "@));
        i = i + 1;
    }
    assert(tv.subrange(0, ts.len() as int) =~= tv);
    append_str(out, "]");
    assert(out@ =~= start + list_text(types_dbgs(tv)));
}

/// Appends the debug text of constructors, as a map.
fn append_ctors_dbg(out: &mut String, cs: &Vec<(Name, Vec<Type>)>)
    ensures
        final(out)@ == old(out)@ + map_text(ctors_dbgs(ctors_view(cs@))),
    decreases cs@, 1int,
{
    let ghost cv = ctors_view(cs@);
    proof {
        lemma_ctors_view(cs@);
    }
    let ghost start = out@;
    append_str(out, "{");
    let mut i: usize = 0;
    assert(cv.subrange(0, 0) =~= Seq::<(Seq<char>, Seq<TypeV>)>::empty());
    while i < cs.len()
        invariant
            i <= cs.len(),
            cv == ctors_view(cs@),
            cv.len() == cs.len(),
            forall|j: int| 0 <= j < cs.len() ==> #[trigger] cv[j] == (cs@[j].0@, types_view(cs@[j].1@)),
            out@ == start + "{"@ + join_text(ctors_dbgs(cv.subrange(0, i as int)), ", "@),
        decreases cs.len() - i,
    {
        let ghost sub = cv.subrange(0, i + 1);
        assert(sub.drop_last() =~= cv.subrange(0, i as int));
        assert(sub.last() == cv[i as int]);
        if i > 0 {
            append_str(out, ", ");
        }
        append_str(out, debug_string(cs[i].0.as_str()).as_str());
        append_str(out, ": ");
        append_types_dbg(out, &cs[i].1);
        let ghost parts = ctors_dbgs(sub);
        assert(parts.drop_last() =~= ctors_dbgs(cv.subrange(0, i as int)));
        proof { lemma_ctors_dbgs_len(sub); }
        assert(out@ =~= start + "{"@ + join_text(ctors_dbgs(sub), ", "@));
        i = i + 1;
    }
    assert(cv.subrange(0, cs.len() as int) =~= cv);
    append_str(out, "}");
    assert(out@ =~= start + map_text(ctors_dbgs(cv)));
}

impl Type {
    /// The debug text of the type, as its derived `Debug` prints it.
    pub fn debug_text(&self) -> (r: String)
        ensures
            r@ == type_dbg(self@),
    {
        let mut s = String::new();
        append_type_dbg(&mut s, self);
        assert(s@ =~= type_dbg(self@));
        s
    }
}

/// `name(a)`, as `Debug` prints a variant with one field; `head` is the
/// variant's name with the opening parenthesis.
pub open spec fn call1(head: Seq<char>, a: Seq<char>) -> Seq<char> {
    head + a + ")"@
}

/// `name(a, b)`.
pub open spec fn call2(head: Seq<char>, a: Seq<char>, b: Seq<char>) -> Seq<char> {
    head + a + ", "@ + b + ")"@
}

/// `name(a, b, c)`.
pub open spec fn call3(head: Seq<char>, a: Seq<char>, b: Seq<char>, c: Seq<char>) -> Seq<char> {
    head + a + ", "@ + b + ", "@ + c + ")"@
}

/// The debug text of an expression.
pub open spec fn expr_dbg(e: ExprV) -> Seq<char>
    decreases e, 0int,
{
    match e {
        ExprV::CTrue => "CTrue"@,
        ExprV::CFalse => "CFalse"@,
        ExprV::CInt(i) => call1("CInt("@, int_text(i as int)),
        ExprV::CReal(x) => call1("CReal("@, string_debug(x)),
        ExprV::CString(x) => call1("CString("@, string_debug(x)),
        ExprV::CVoid => "CVoid"@,
        ExprV::Var(n) => call1("Var("@, string_debug(n)),
        ExprV::FuncCall(n, args) => call2("FuncCall("@, string_debug(n), list_text(exprs_dbgs(args))),
        ExprV::Add(l, r) => call2("Add("@, expr_dbg(*l), expr_dbg(*r)),
        ExprV::Sub(l, r) => call2("Sub("@, expr_dbg(*l), expr_dbg(*r)),
        ExprV::Mul(l, r) => call2("Mul("@, expr_dbg(*l), expr_dbg(*r)),
        ExprV::Div(l, r) => call2("Div("@, expr_dbg(*l), expr_dbg(*r)),
        ExprV::And(l, r) => call2("And("@, expr_dbg(*l), expr_dbg(*r)),
        ExprV::Or(l, r) => call2("Or("@, expr_dbg(*l), expr_dbg(*r)),
        ExprV::Not(x) => call1("Not("@, expr_dbg(*x)),
        ExprV::EQ(l, r) => call2("EQ("@, expr_dbg(*l), expr_dbg(*r)),
        ExprV::NEQ(l, r) => call2("NEQ("@, expr_dbg(*l), expr_dbg(*r)),
        ExprV::GT(l, r) => call2("GT("@, expr_dbg(*l), expr_dbg(*r)),
        ExprV::LT(l, r) => call2("LT("@, expr_dbg(*l), expr_dbg(*r)),
        ExprV::GTE(l, r) => call2("GTE("@, expr_dbg(*l), expr_dbg(*r)),
        ExprV::LTE(l, r) => call2("LTE("@, expr_dbg(*l), expr_dbg(*r)),
        ExprV::COk(x) => call1("COk("@, expr_dbg(*x)),
        ExprV::CErr(x) => call1("CErr("@, expr_dbg(*x)),
        ExprV::CJust(x) => call1("CJust("@, expr_dbg(*x)),
        ExprV::CNothing => "CNothing"@,
        ExprV::Unwrap(x) => call1("Unwrap("@, expr_dbg(*x)),
        ExprV::IsError(x) => call1("IsError("@, expr_dbg(*x)),
        ExprV::IsNothing(x) => call1("IsNothing("@, expr_dbg(*x)),
        ExprV::Propagate(x) => call1("Propagate("@, expr_dbg(*x)),
        ExprV::Lambda(f) => call1("Lambda("@, function_dbg(f)),
        ExprV::ListValue(es) => call1("ListValue("@, list_text(exprs_dbgs(es))),
        ExprV::Tuple(es) => call1("Tuple("@, list_text(exprs_dbgs(es))),
        ExprV::Constructor(n, es) => call2("Constructor("@, string_debug(n), list_text(exprs_dbgs(es))),
    }
}

/// The debug texts of a list of expressions.
pub open spec fn exprs_dbgs(es: Seq<ExprV>) -> Seq<Seq<char>>
    decreases es, 0int,
{
    if es.len() == 0 {
        seq![]
    } else {
        exprs_dbgs(es.drop_last()).push(expr_dbg(es.last()))
    }
}

/// The debug text of an optional statement: `None` or `Some(..)`.
pub open spec fn opt_stmt_dbg(o: Option<Box<StmtV>>) -> Seq<char>
    decreases o, 0int,
{
    match o {
        Some(b) => call1("Some("@, stmt_dbg(*b)),
        None => "None"@,
    }
}

/// The debug text of a statement.
pub open spec fn stmt_dbg(s: StmtV) -> Seq<char>
    decreases s, 0int,
{
    match s {
        StmtV::VarDeclaration(n, e) => call2("VarDeclaration("@, string_debug(n), expr_dbg(e)),
        StmtV::ValDeclaration(n, e) => call2("ValDeclaration("@, string_debug(n), expr_dbg(e)),
        StmtV::Assignment(n, e) => call2("Assignment("@, string_debug(n), expr_dbg(e)),
        StmtV::IfThenElse(c, t, el) => call3("IfThenElse("@, expr_dbg(c), stmt_dbg(*t), opt_stmt_dbg(el)),
        StmtV::IfChain { branches, else_branch } => "IfChain { branches: "@ + list_text(pairs_dbgs(branches))
            + ", else_branch: "@ + opt_stmt_dbg(else_branch) + " }"@,
        StmtV::While(c, b) => call2("While("@, expr_dbg(c), stmt_dbg(*b)),
        StmtV::For(n, e, b) => call3("For("@, string_debug(n), expr_dbg(e), stmt_dbg(*b)),
        StmtV::Block(ss) => call1("Block("@, list_text(stmts_dbgs(ss))),
        StmtV::Sequence(a, b) => call2("Sequence("@, stmt_dbg(*a), stmt_dbg(*b)),
        StmtV::Assert(a, m) => call2("Assert("@, expr_dbg(a), expr_dbg(m)),
        StmtV::AssertTrue(a, m) => call2("AssertTrue("@, expr_dbg(a), expr_dbg(m)),
        StmtV::AssertFalse(a, m) => call2("AssertFalse("@, expr_dbg(a), expr_dbg(m)),
        StmtV::AssertEQ(a, b, m) => call3("AssertEQ("@, expr_dbg(a), expr_dbg(b), expr_dbg(m)),
        StmtV::AssertNEQ(a, b, m) => call3("AssertNEQ("@, expr_dbg(a), expr_dbg(b), expr_dbg(m)),
        StmtV::TestDef(f) => call1("TestDef("@, function_dbg(f)),
        StmtV::ModTestDef(n, b) => call2("ModTestDef("@, string_debug(n), stmt_dbg(*b)),
        StmtV::AssertFails(m) => call1("AssertFails("@, string_debug(m)),
        StmtV::FuncDef(f) => call1("FuncDef("@, function_dbg(f)),
        StmtV::Return(e) => call1("Return("@, expr_dbg(e)),
        StmtV::TypeDeclaration(n, cs) => call2("TypeDeclaration("@, string_debug(n), map_text(ctors_dbgs(cs))),
        StmtV::Match(e, arms) => call2("Match("@, expr_dbg(e), list_text(pairs_dbgs(arms))),
    }
}

/// The debug texts of a list of statements.
pub open spec fn stmts_dbgs(ss: Seq<StmtV>) -> Seq<Seq<char>>
    decreases ss, 0int,
{
    if ss.len() == 0 {
        seq![]
    } else {
        stmts_dbgs(ss.drop_last()).push(stmt_dbg(ss.last()))
    }
}

/// The debug texts of pairs of an expression and a statement.
pub open spec fn pairs_dbgs(ps: Seq<(ExprV, StmtV)>) -> Seq<Seq<char>>
    decreases ps, 0int,
{
    if ps.len() == 0 {
        seq![]
    } else {
        pairs_dbgs(ps.drop_last()).push("("@ + expr_dbg(ps.last().0) + ", "@ + stmt_dbg(ps.last().1) + ")"@)
    }
}

/// The debug text of a function.
pub open spec fn function_dbg(f: FunctionV) -> Seq<char>
    decreases f, 0int,
{
    "Function { name: "@ + string_debug(f.name) + ", kind: "@ + type_dbg(f.kind) + ", params: "@ + list_text(
        params_dbgs(f.params),
    ) + ", body: "@ + opt_stmt_dbg(f.body) + " }"@
}

/// The debug texts of formal arguments.
pub open spec fn params_dbgs(ps: Seq<(Seq<char>, TypeV)>) -> Seq<Seq<char>>
    decreases ps.len(),
{
    if ps.len() == 0 {
        seq![]
    } else {
        params_dbgs(ps.drop_last()).push(
            "FormalArgument { argument_name: "@ + string_debug(ps.last().0) + ", argument_type: "@ + type_dbg(
                ps.last().1,
            ) + " }"@,
        )
    }
}

/// One debug text per element.
proof fn lemma_exprs_dbgs_len(xs: Seq<ExprV>)
    ensures
        exprs_dbgs(xs).len() == xs.len(),
    decreases xs.len(),
{
    if xs.len() > 0 {
        lemma_exprs_dbgs_len(xs.drop_last());
    }
}

/// One debug text per element.
proof fn lemma_stmts_dbgs_len(xs: Seq<StmtV>)
    ensures
        stmts_dbgs(xs).len() == xs.len(),
    decreases xs.len(),
{
    if xs.len() > 0 {
        lemma_stmts_dbgs_len(xs.drop_last());
    }
}

/// One debug text per element.
proof fn lemma_pairs_dbgs_len(xs: Seq<(ExprV, StmtV)>)
    ensures
        pairs_dbgs(xs).len() == xs.len(),
    decreases xs.len(),
{
    if xs.len() > 0 {
        lemma_pairs_dbgs_len(xs.drop_last());
    }
}

/// One debug text per element.
proof fn lemma_params_dbgs_len(xs: Seq<(Seq<char>, TypeV)>)
    ensures
        params_dbgs(xs).len() == xs.len(),
    decreases xs.len(),
{
    if xs.len() > 0 {
        lemma_params_dbgs_len(xs.drop_last());
    }
}

/// Appends the debug text of a list of expressions.
fn append_exprs_dbg(out: &mut String, xs: &Vec<Expression>)
    ensures
        final(out)@ == old(out)@ + list_text(exprs_dbgs(exprs_view(xs@))),
    decreases xs@, 1int,
{
    let ghost xv = exprs_view(xs@);
    proof {
        lemma_exprs_view(xs@);
    }
    let ghost start = out@;
    append_str(out, "[");
    let mut i: usize = 0;
    assert(xv.subrange(0, 0) =~= Seq::<ExprV>::empty());
    while i < xs.len()
        invariant
            i <= xs.len(),
            xv == exprs_view(xs@),
            xv.len() == xs.len(),
            forall|j: int| 0 <= j < xs.len() ==> #[trigger] xv[j] == xs@[j]@,
            out@ == start + "["@ + join_text(exprs_dbgs(xv.subrange(0, i as int)), ", "@),
        decreases xs.len() - i,
    {
        let ghost sub = xv.subrange(0, i + 1);
        assert(sub.drop_last() =~= xv.subrange(0, i as int));
        assert(sub.last() == xv[i as int]);
        if i > 0 {
            append_str(out, ", ");
        }
        append_expr_dbg(out, &xs[i]);
        let ghost parts = exprs_dbgs(sub);
        assert(parts.drop_last() =~= exprs_dbgs(xv.subrange(0, i as int)));
        proof {
            lemma_exprs_dbgs_len(sub);
        }
        assert(out@ =~= start + "["@ + join_text(exprs_dbgs(sub), ", "@));
        i = i + 1;
    }
    assert(xv.subrange(0, xs.len() as int) =~= xv);
    append_str(out, "]");
    assert(out@ =~= start + list_text(exprs_dbgs(xv)));
}

/// Appends the debug text of a list of boxed expressions.
fn append_boxed_exprs_dbg(out: &mut String, xs: &Vec<Box<Expression>>)
    ensures
        final(out)@ == old(out)@ + list_text(exprs_dbgs(boxed_exprs_view(xs@))),
    decreases xs@, 1int,
{
    let ghost xv = boxed_exprs_view(xs@);
    proof {
        lemma_boxed_exprs_view(xs@);
    }
    let ghost start = out@;
    append_str(out, "[");
    let mut i: usize = 0;
    assert(xv.subrange(0, 0) =~= Seq::<ExprV>::empty());
    while i < xs.len()
        invariant
            i <= xs.len(),
            xv == boxed_exprs_view(xs@),
            xv.len() == xs.len(),
            forall|j: int| 0 <= j < xs.len() ==> #[trigger] xv[j] == (*xs@[j])@,
            out@ == start + "["@ + join_text(exprs_dbgs(xv.subrange(0, i as int)), ", "@),
        decreases xs.len() - i,
    {
        let ghost sub = xv.subrange(0, i + 1);
        assert(sub.drop_last() =~= xv.subrange(0, i as int));
        assert(sub.last() == xv[i as int]);
        if i > 0 {
            append_str(out, ", ");
        }
        append_expr_dbg(out, &xs[i]);
        let ghost parts = exprs_dbgs(sub);
        assert(parts.drop_last() =~= exprs_dbgs(xv.subrange(0, i as int)));
        proof {
            lemma_exprs_dbgs_len(sub);
        }
        assert(out@ =~= start + "["@ + join_text(exprs_dbgs(sub), ", "@));
        i = i + 1;
    }
    assert(xv.subrange(0, xs.len() as int) =~= xv);
    append_str(out, "]");
    assert(out@ =~= start + list_text(exprs_dbgs(xv)));
}

/// Appends the debug text of a list of statements.
fn append_stmts_dbg(out: &mut String, xs: &Vec<Statement>)
    ensures
        final(out)@ == old(out)@ + list_text(stmts_dbgs(stmts_view(xs@))),
    decreases xs@, 1int,
{
    let ghost xv = stmts_view(xs@);
    proof {
        lemma_stmts_view(xs@);
    }
    let ghost start = out@;
    append_str(out, "[");
    let mut i: usize = 0;
    assert(xv.subrange(0, 0) =~= Seq::<StmtV>::empty());
    while i < xs.len()
        invariant
            i <= xs.len(),
            xv == stmts_view(xs@),
            xv.len() == xs.len(),
            forall|j: int| 0 <= j < xs.len() ==> #[trigger] xv[j] == xs@[j]@,
            out@ == start + "["@ + join_text(stmts_dbgs(xv.subrange(0, i as int)), ", "@),
        decreases xs.len() - i,
    {
        let ghost sub = xv.subrange(0, i + 1);
        assert(sub.drop_last() =~= xv.subrange(0, i as int));
        assert(sub.last() == xv[i as int]);
        if i > 0 {
            append_str(out, ", ");
        }
        append_stmt_dbg(out, &xs[i]);
        let ghost parts = stmts_dbgs(sub);
        assert(parts.drop_last() =~= stmts_dbgs(xv.subrange(0, i as int)));
        proof {
            lemma_stmts_dbgs_len(sub);
        }
        assert(out@ =~= start + "["@ + join_text(stmts_dbgs(sub), ", "@));
        i = i + 1;
    }
    assert(xv.subrange(0, xs.len() as int) =~= xv);
    append_str(out, "]");
    assert(out@ =~= start + list_text(stmts_dbgs(xv)));
}

/// Appends the debug text of the branches of a chain.
fn append_branches_dbg(out: &mut String, xs: &Vec<(Box<Expression>, Box<Statement>)>)
    ensures
        final(out)@ == old(out)@ + list_text(pairs_dbgs(branches_view(xs@))),
    decreases xs@, 1int,
{
    let ghost xv = branches_view(xs@);
    proof {
        lemma_branches_view(xs@);
    }
    let ghost start = out@;
    append_str(out, "[");
    let mut i: usize = 0;
    assert(xv.subrange(0, 0) =~= Seq::<(ExprV, StmtV)>::empty());
    while i < xs.len()
        invariant
            i <= xs.len(),
            xv == branches_view(xs@),
            xv.len() == xs.len(),
            forall|j: int| 0 <= j < xs.len() ==> #[trigger] xv[j] == ((*xs@[j].0)@, (*xs@[j].1)@),
            out@ == start + "["@ + join_text(pairs_dbgs(xv.subrange(0, i as int)), ", "@),
        decreases xs.len() - i,
    {
        let ghost sub = xv.subrange(0, i + 1);
        assert(sub.drop_last() =~= xv.subrange(0, i as int));
        assert(sub.last() == xv[i as int]);
        if i > 0 {
            append_str(out, ", ");
        }
        append_str(out, "(");
        append_expr_dbg(out, &xs[i].0);
        append_str(out, ", ");
        append_stmt_dbg(out, &xs[i].1);
        append_str(out, ")");
        let ghost parts = pairs_dbgs(sub);
        assert(parts.drop_last() =~= pairs_dbgs(xv.subrange(0, i as int)));
        proof {
            lemma_pairs_dbgs_len(sub);
        }
        assert(out@ =~= start + "["@ + join_text(pairs_dbgs(sub), ", "@));
        i = i + 1;
    }
    assert(xv.subrange(0, xs.len() as int) =~= xv);
    append_str(out, "]");
    assert(out@ =~= start + list_text(pairs_dbgs(xv)));
}

/// Appends the debug text of the arms of a match.
fn append_arms_dbg(out: &mut String, xs: &Vec<(Expression, Statement)>)
    ensures
        final(out)@ == old(out)@ + list_text(pairs_dbgs(arms_view(xs@))),
    decreases xs@, 1int,
{
    let ghost xv = arms_view(xs@);
    proof {
        lemma_arms_view(xs@);
    }
    let ghost start = out@;
    append_str(out, "[");
    let mut i: usize = 0;
    assert(xv.subrange(0, 0) =~= Seq::<(ExprV, StmtV)>::empty());
    while i < xs.len()
        invariant
            i <= xs.len(),
            xv == arms_view(xs@),
            xv.len() == xs.len(),
            forall|j: int| 0 <= j < xs.len() ==> #[trigger] xv[j] == (xs@[j].0@, xs@[j].1@),
            out@ == start + "["@ + join_text(pairs_dbgs(xv.subrange(0, i as int)), ", "@),
        decreases xs.len() - i,
    {
        let ghost sub = xv.subrange(0, i + 1);
        assert(sub.drop_last() =~= xv.subrange(0, i as int));
        assert(sub.last() == xv[i as int]);
        if i > 0 {
            append_str(out, ", ");
        }
        append_str(out, "(");
        append_expr_dbg(out, &xs[i].0);
        append_str(out, ", ");
        append_stmt_dbg(out, &xs[i].1);
        append_str(out, ")");
        let ghost parts = pairs_dbgs(sub);
        assert(parts.drop_last() =~= pairs_dbgs(xv.subrange(0, i as int)));
        proof {
            lemma_pairs_dbgs_len(sub);
        }
        assert(out@ =~= start + "["@ + join_text(pairs_dbgs(sub), ", "@));
        i = i + 1;
    }
    assert(xv.subrange(0, xs.len() as int) =~= xv);
    append_str(out, "]");
    assert(out@ =~= start + list_text(pairs_dbgs(xv)));
}

/// Appends the debug text of formal arguments.
fn append_params_dbg(out: &mut String, xs: &Vec<FormalArgument>)
    ensures
        final(out)@ == old(out)@ + list_text(params_dbgs(params_view(xs@))),
    decreases xs@, 1int,
{
    let ghost xv = params_view(xs@);
    proof {
        lemma_params_view(xs@);
    }
    let ghost start = out@;
    append_str(out, "[");
    let mut i: usize = 0;
    assert(xv.subrange(0, 0) =~= Seq::<(Seq<char>, TypeV)>::empty());
    while i < xs.len()
        invariant
            i <= xs.len(),
            xv == params_view(xs@),
            xv.len() == xs.len(),
            forall|j: int| 0 <= j < xs.len() ==> #[trigger] xv[j] == (xs@[j].argument_name@, xs@[j].argument_type@),
            out@ == start + "["@ + join_text(params_dbgs(xv.subrange(0, i as int)), ", "@),
        decreases xs.len() - i,
    {
        let ghost sub = xv.subrange(0, i + 1);
        assert(sub.drop_last() =~= xv.subrange(0, i as int));
        assert(sub.last() == xv[i as int]);
        if i > 0 {
            append_str(out, ", ");
        }
        append_str(out, "FormalArgument { argument_name: ");
        append_str(out, debug_string(xs[i].argument_name.as_str()).as_str());
        append_str(out, ", argument_type: ");
        append_type_dbg(out, &xs[i].argument_type);
        append_str(out, " }");
        let ghost parts = params_dbgs(sub);
        assert(parts.drop_last() =~= params_dbgs(xv.subrange(0, i as int)));
        proof {
            lemma_params_dbgs_len(sub);
        }
        assert(out@ =~= start + "["@ + join_text(params_dbgs(sub), ", "@));
        i = i + 1;
    }
    assert(xv.subrange(0, xs.len() as int) =~= xv);
    append_str(out, "]");
    assert(out@ =~= start + list_text(params_dbgs(xv)));
}

/// Appends the debug text of an expression.
#[verifier::rlimit(40)]
fn append_expr_dbg(out: &mut String, e: &Expression)
    ensures
        final(out)@ == old(out)@ + expr_dbg(e@),
    decreases e, 2int,
{
    let ghost start = out@;
    match e {
        Expression::CTrue => append_str(out, "CTrue"),
        Expression::CFalse => append_str(out, "CFalse"),
        Expression::CInt(i) => {
            append_str(out, "CInt(");
            append_int(out, *i);
            append_str(out, ")");
        },
        Expression::CReal(x) => {
            append_str(out, "CReal(");
            append_str(out, debug_string(x.as_str()).as_str());
            append_str(out, ")");
        },
        Expression::CString(x) => {
            append_str(out, "CString(");
            append_str(out, debug_string(x.as_str()).as_str());
            append_str(out, ")");
        },
        Expression::CVoid => append_str(out, "CVoid"),
        Expression::Var(n) => {
            append_str(out, "Var(");
            append_str(out, debug_string(n.as_str()).as_str());
            append_str(out, ")");
        },
        Expression::FuncCall(n, args) => {
            append_str(out, "FuncCall(");
            append_str(out, debug_string(n.as_str()).as_str());
            append_str(out, ", ");
            append_exprs_dbg(out, args);
            append_str(out, ")");
        },
        Expression::Add(l, r) => append_two(out, "Add(", expr_string(l).as_str(), expr_string(r).as_str()),
        Expression::Sub(l, r) => append_two(out, "Sub(", expr_string(l).as_str(), expr_string(r).as_str()),
        Expression::Mul(l, r) => append_two(out, "Mul(", expr_string(l).as_str(), expr_string(r).as_str()),
        Expression::Div(l, r) => append_two(out, "Div(", expr_string(l).as_str(), expr_string(r).as_str()),
        Expression::And(l, r) => append_two(out, "And(", expr_string(l).as_str(), expr_string(r).as_str()),
        Expression::Or(l, r) => append_two(out, "Or(", expr_string(l).as_str(), expr_string(r).as_str()),
        Expression::Not(x) => append_one(out, "Not(", expr_string(x).as_str()),
        Expression::EQ(l, r) => append_two(out, "EQ(", expr_string(l).as_str(), expr_string(r).as_str()),
        Expression::NEQ(l, r) => append_two(out, "NEQ(", expr_string(l).as_str(), expr_string(r).as_str()),
        Expression::GT(l, r) => append_two(out, "GT(", expr_string(l).as_str(), expr_string(r).as_str()),
        Expression::LT(l, r) => append_two(out, "LT(", expr_string(l).as_str(), expr_string(r).as_str()),
        Expression::GTE(l, r) => append_two(out, "GTE(", expr_string(l).as_str(), expr_string(r).as_str()),
        Expression::LTE(l, r) => append_two(out, "LTE(", expr_string(l).as_str(), expr_string(r).as_str()),
        Expression::COk(x) => append_one(out, "COk(", expr_string(x).as_str()),
        Expression::CErr(x) => append_one(out, "CErr(", expr_string(x).as_str()),
        Expression::CJust(x) => append_one(out, "CJust(", expr_string(x).as_str()),
        Expression::CNothing => append_str(out, "CNothing"),
        Expression::Unwrap(x) => append_one(out, "Unwrap(", expr_string(x).as_str()),
        Expression::IsError(x) => append_one(out, "IsError(", expr_string(x).as_str()),
        Expression::IsNothing(x) => append_one(out, "IsNothing(", expr_string(x).as_str()),
        Expression::Propagate(x) => append_one(out, "Propagate(", expr_string(x).as_str()),
        Expression::Lambda(f) => {
            append_str(out, "Lambda(");
            append_function_dbg(out, f);
            append_str(out, ")");
        },
        Expression::ListValue(es) => {
            append_str(out, "ListValue(");
            append_exprs_dbg(out, es);
            append_str(out, ")");
        },
        Expression::Tuple(es) => {
            append_str(out, "Tuple(");
            append_exprs_dbg(out, es);
            append_str(out, ")");
        },
        Expression::Constructor(n, es) => {
            append_str(out, "Constructor(");
            append_str(out, debug_string(n.as_str()).as_str());
            append_str(out, ", ");
            append_boxed_exprs_dbg(out, es);
            append_str(out, ")");
        },
    }
}

/// The debug text of an expression, as a new string.
fn expr_string(e: &Expression) -> (r: String)
    ensures
        r@ == expr_dbg(e@),
    decreases e, 3int,
{
    let mut s = String::new();
    append_expr_dbg(&mut s, e);
    assert(s@ =~= expr_dbg(e@));
    s
}

/// Appends `head`, a text, and `)`.
fn append_one(out: &mut String, head: &str, x: &str)
    ensures
        final(out)@ == old(out)@ + head@ + x@ + ")"@,
{
    append_str(out, head);
    append_str(out, x);
    append_str(out, ")");
    assert(final(out)@ =~= old(out)@ + head@ + x@ + ")"@);
}

/// Appends `head`, two texts separated by `, `, and `)`.
fn append_two(out: &mut String, head: &str, a: &str, b: &str)
    ensures
        final(out)@ == old(out)@ + head@ + a@ + ", "@ + b@ + ")"@,
{
    append_str(out, head);
    append_str(out, a);
    append_str(out, ", ");
    append_str(out, b);
    append_str(out, ")");
    assert(final(out)@ =~= old(out)@ + head@ + a@ + ", "@ + b@ + ")"@);
}

/// Appends `head`, three texts separated by `, `, and `)`.
fn append_three(out: &mut String, head: &str, a: &str, b: &str, c: &str)
    ensures
        final(out)@ == old(out)@ + head@ + a@ + ", "@ + b@ + ", "@ + c@ + ")"@,
{
    append_str(out, head);
    append_str(out, a);
    append_str(out, ", ");
    append_str(out, b);
    append_str(out, ", ");
    append_str(out, c);
    append_str(out, ")");
    assert(final(out)@ =~= old(out)@ + head@ + a@ + ", "@ + b@ + ", "@ + c@ + ")"@);
}

/// The debug text of a statement, as a new string.
fn stmt_string(s: &Statement) -> (r: String)
    ensures
        r@ == stmt_dbg(s@),
    decreases s, 3int,
{
    let mut out = String::new();
    append_stmt_dbg(&mut out, s);
    assert(out@ =~= stmt_dbg(s@));
    out
}

/// The debug text of an optional statement, as a new string.
fn opt_stmt_string(o: &Option<Box<Statement>>) -> (r: String)
    ensures
        r@ == opt_stmt_dbg(crate::ast::opt_stmt_view(*o)),
    decreases o, 3int,
{
    let mut out = String::new();
    append_opt_stmt_dbg(&mut out, o);
    assert(out@ =~= opt_stmt_dbg(crate::ast::opt_stmt_view(*o)));
    out
}

/// Appends the debug text of an optional statement.
fn append_opt_stmt_dbg(out: &mut String, o: &Option<Box<Statement>>)
    ensures
        final(out)@ == old(out)@ + opt_stmt_dbg(crate::ast::opt_stmt_view(*o)),
    decreases o, 1int,
{
    match o {
        Some(b) => {
            append_str(out, "Some(");
            append_stmt_dbg(out, b);
            append_str(out, ")");
        },
        None => append_str(out, "None"),
    }
    assert(final(out)@ =~= old(out)@ + opt_stmt_dbg(crate::ast::opt_stmt_view(*o)));
}

/// Appends the debug text of a function.
fn append_function_dbg(out: &mut String, f: &Function)
    ensures
        final(out)@ == old(out)@ + function_dbg(f@),
    decreases f, 2int,
{
    append_str(out, "Function { name: ");
    append_str(out, debug_string(f.name.as_str()).as_str());
    append_str(out, ", kind: ");
    append_type_dbg(out, &f.kind);
    append_str(out, ", params: ");
    append_params_dbg(out, &f.params);
    append_str(out, ", body: ");
    append_opt_stmt_dbg(out, &f.body);
    append_str(out, " }");
    assert(final(out)@ =~= old(out)@ + function_dbg(f@));
}

/// Appends the debug text of a statement.
#[verifier::rlimit(100)]
#[verifier::spinoff_prover]
fn append_stmt_dbg(out: &mut String, s: &Statement)
    ensures
        final(out)@ == old(out)@ + stmt_dbg(s@),
    decreases s, 2int,
{
    let ghost start = out@;
    match s {
        Statement::VarDeclaration(n, e) => append_two(out, "VarDeclaration(", debug_string(n.as_str()).as_str(), expr_string(e).as_str()),
        Statement::ValDeclaration(n, e) => append_two(out, "ValDeclaration(", debug_string(n.as_str()).as_str(), expr_string(e).as_str()),
        Statement::Assignment(n, e) => append_two(out, "Assignment(", debug_string(n.as_str()).as_str(), expr_string(e).as_str()),
        Statement::IfThenElse(c, t, el) => append_three(
            out,
            "IfThenElse(",
            expr_string(c).as_str(),
            stmt_string(t).as_str(),
            opt_stmt_string(el).as_str(),
        ),
        Statement::IfChain { branches, else_branch } => {
            append_str(out, "IfChain { branches: ");
            append_branches_dbg(out, branches);
            append_str(out, ", else_branch: ");
            append_opt_stmt_dbg(out, else_branch);
            append_str(out, " }");
        },
        Statement::While(c, b) => append_two(out, "While(", expr_string(c).as_str(), stmt_string(b).as_str()),
        Statement::For(n, e, b) => append_three(
            out,
            "For(",
            debug_string(n.as_str()).as_str(),
            expr_string(e).as_str(),
            stmt_string(b).as_str(),
        ),
        Statement::Block(ss) => {
            append_str(out, "Block(");
            append_stmts_dbg(out, ss);
            append_str(out, ")");
        },
        Statement::Sequence(a, b) => append_two(out, "Sequence(", stmt_string(a).as_str(), stmt_string(b).as_str()),
        Statement::Assert(a, m) => append_two(out, "Assert(", expr_string(a).as_str(), expr_string(m).as_str()),
        Statement::AssertTrue(a, m) => append_two(out, "AssertTrue(", expr_string(a).as_str(), expr_string(m).as_str()),
        Statement::AssertFalse(a, m) => append_two(out, "AssertFalse(", expr_string(a).as_str(), expr_string(m).as_str()),
        Statement::AssertEQ(a, b, m) => append_three(
            out,
            "AssertEQ(",
            expr_string(a).as_str(),
            expr_string(b).as_str(),
            expr_string(m).as_str(),
        ),
        Statement::AssertNEQ(a, b, m) => append_three(
            out,
            "AssertNEQ(",
            expr_string(a).as_str(),
            expr_string(b).as_str(),
            expr_string(m).as_str(),
        ),
        Statement::TestDef(f) => {
            append_str(out, "TestDef(");
            append_function_dbg(out, f);
            append_str(out, ")");
        },
        Statement::ModTestDef(n, b) => append_two(
            out,
            "ModTestDef(",
            debug_string(n.as_str()).as_str(),
            stmt_string(b).as_str(),
        ),
        Statement::AssertFails(m) => append_one(out, "AssertFails(", debug_string(m.as_str()).as_str()),
        Statement::FuncDef(f) => {
            append_str(out, "FuncDef(");
            append_function_dbg(out, f);
            append_str(out, ")");
        },
        Statement::Return(e) => append_one(out, "Return(", expr_string(e).as_str()),
        Statement::TypeDeclaration(n, cs) => {
            append_str(out, "TypeDeclaration(");
            append_str(out, debug_string(n.as_str()).as_str());
            append_str(out, ", ");
            append_ctors_dbg(out, cs);
            append_str(out, ")");
        },
        Statement::Match(e, arms) => {
            append_str(out, "Match(");
            append_expr_dbg(out, e);
            append_str(out, ", ");
            append_arms_dbg(out, arms);
            append_str(out, ")");
        },
    }
}

impl Expression {
    /// The debug text of the expression, as its derived `Debug` prints it.
    pub fn debug_text(&self) -> (r: String)
        ensures
            r@ == expr_dbg(self@),
    {
        expr_string(self)
    }
}

impl Statement {
    /// The debug text of the statement, as its derived `Debug` prints it.
    pub fn debug_text(&self) -> (r: String)
        ensures
            r@ == stmt_dbg(self@),
    {
        stmt_string(self)
    }
}

} // verus!
