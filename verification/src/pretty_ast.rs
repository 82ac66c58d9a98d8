//! Documents for the syntax tree: types in source syntax, expressions with no
//! more parentheses than their precedence needs, statements laid out in
//! indented blocks.
use vstd::prelude::*;
use crate::ast::{
    arms_view, boxed_exprs_view, branches_view, ctors_view, exprs_view, lemma_arms_view,
    lemma_boxed_exprs_view, lemma_branches_view, lemma_ctors_view, lemma_exprs_view,
    lemma_params_view, lemma_stmts_view, lemma_types_view, opt_stmt_view, stmts_view, types_view, Expression,
    ExprV, FormalArgument, Function, FunctionV, Name, Statement, StmtV, Type, TypeV,
};
use crate::pretty::{
    concat, docs_view, group, hardline, join_docs, line, nest, nil, punctuate, text, text_str,
    Doc, DocV,
};
use crate::parser::{binary_of, group_ops, keyword_at, lemma_op_index_finds, op_index_at, skip_ws, text_at};
use crate::tac::join_text;
use crate::text::{append_int, append_str, int_text, push_char};
use crate::type_ops::{append_type_text, order_by_name, order_ctors_by_name, type_text};

verus! {

/// No operator around.
pub const PREC_NONE: usize = 0;
/// `or`.
pub const PREC_OR: usize = 1;
/// `and`.
pub const PREC_AND: usize = 2;
/// `==`, `!=`, `<`, `>`, `<=`, `>=`.
pub const PREC_RELATIONAL: usize = 3;
/// `+`, `-`.
pub const PREC_ADD_SUB: usize = 4;
/// `*`, `/`.
pub const PREC_MUL_DIV: usize = 5;
/// `not`.
pub const PREC_UNARY: usize = 6;
/// Calls, constructors and postfix operators.
pub const PREC_CALL: usize = 7;

/// The source syntax of a type: `Int`, `Real`, `Boolean`, `String`, `Unit`,
/// `Any`, `[T]`, `(A, B)`, `Maybe[T]`, `Result[T, E]`, `(A, B) -> R`, the
/// members of a union separated by ` | `, and the name of a data type.
pub open spec fn type_source(t: TypeV) -> Seq<char>
    decreases t, 0int,
{
    match t {
        TypeV::TInteger => "Int"@,
        TypeV::TBool => "Boolean"@,
        TypeV::TReal => "Real"@,
        TypeV::TString => "String"@,
        TypeV::TVoid => "Unit"@,
        TypeV::TFunction(r, ps) => "("@ + join_text(types_source(ps), ", "@) + ") -> "@ + type_source(*r),
        TypeV::TList(x) => "["@ + type_source(*x) + "]"@,
        TypeV::TTuple(es) => "("@ + join_text(types_source(es), ", "@) + ")"@,
        TypeV::TMaybe(x) => "Maybe["@ + type_source(*x) + "]"@,
        TypeV::TResult(o, e) => "Result["@ + type_source(*o) + ", "@ + type_source(*e) + "]"@,
        TypeV::TUnion(ts) => join_text(types_source(ts), " | "@),
        TypeV::TAny => "Any"@,
        TypeV::TAlgebraicData(n, _) => n,
    }
}

/// The source syntax of a list of types.
pub open spec fn types_source(ts: Seq<TypeV>) -> Seq<Seq<char>>
    decreases ts, 0int,
{
    if ts.len() == 0 {
        seq![]
    } else {
        types_source(ts.drop_last()).push(type_source(ts.last()))
    }
}

/// The source syntax of a list of types, element by element.
pub proof fn lemma_types_source(ts: Seq<TypeV>)
    ensures
        types_source(ts).len() == ts.len(),
        forall|i: int| 0 <= i < ts.len() ==> #[trigger] types_source(ts)[i] == type_source(ts[i]),
    decreases ts.len(),
{
    if ts.len() > 0 {
        lemma_types_source(ts.drop_last());
    }
}

/// Appends the source syntax of a type.
fn append_type_source(out: &mut String, t: &Type)
    ensures
        final(out)@ == old(out)@ + type_source(t@),
    decreases t, 1int,
{
    match t {
        Type::TInteger => append_str(out, "Int"),
        Type::TBool => append_str(out, "Boolean"),
        Type::TReal => append_str(out, "Real"),
        Type::TString => append_str(out, "String"),
        Type::TVoid => append_str(out, "Unit"),
        Type::TFunction(r, ps) => {
            append_str(out, "(");
            append_types_source(out, ps, ", ");
            append_str(out, ") -> ");
            append_type_source(out, r);
        },
        Type::TList(x) => {
            append_str(out, "[");
            append_type_source(out, x);
            append_str(out, "]");
        },
        Type::TTuple(es) => {
            append_str(out, "(");
            append_types_source(out, es, ", ");
            append_str(out, ")");
        },
        Type::TMaybe(x) => {
            append_str(out, "Maybe[");
            append_type_source(out, x);
            append_str(out, "]");
        },
        Type::TResult(o, e) => {
            append_str(out, "Result[");
            append_type_source(out, o);
            append_str(out, ", ");
            append_type_source(out, e);
            append_str(out, "]");
        },
        Type::TUnion(ts) => append_types_source(out, ts, " | "),
        Type::TAny => append_str(out, "Any"),
        Type::TAlgebraicData(n, _) => append_str(out, n.as_str()),
    }
    assert(final(out)@ =~= old(out)@ + type_source(t@));
}

/// Appends the source syntax of a list of types, separated by `sep`.
fn append_types_source(out: &mut String, ts: &Vec<Type>, sep: &str)
    ensures
        final(out)@ == old(out)@ + join_text(types_source(types_view(ts@)), sep@),
    decreases ts@, 0int,
{
    let ghost tv = types_view(ts@);
    proof {
        lemma_types_view(ts@);
        lemma_types_source(tv);
    }
    let mut i: usize = 0;
    while i < ts.len()
        invariant
            i <= ts.len(),
            tv == types_view(ts@),
            tv.len() == ts.len(),
            forall|j: int| 0 <= j < ts.len() ==> #[trigger] tv[j] == ts@[j]@,
            types_source(tv).len() == tv.len(),
            forall|j: int| 0 <= j < tv.len() ==> #[trigger] types_source(tv)[j] == type_source(tv[j]),
            out@ == old(out)@ + join_text(types_source(tv).subrange(0, i as int), sep@),
        decreases ts.len() - i,
    {
        let ghost next = types_source(tv).subrange(0, i + 1);
        assert(next.drop_last() =~= types_source(tv).subrange(0, i as int));
        assert(next.last() == type_source(ts@[i as int]@));
        if i > 0 {
            append_str(out, sep);
        }
        append_type_source(out, &ts[i]);
        assert(out@ =~= old(out)@ + join_text(next, sep@));
        i = i + 1;
    }
    assert(types_source(tv).subrange(0, ts.len() as int) =~= types_source(tv));
}

impl Type {
    /// The document of a type: its source syntax.
    pub fn to_doc(&self) -> (r: Doc)
        ensures
            r@ == DocV::Text(type_source(self@)),
    {
        let mut s = String::new();
        append_type_source(&mut s, self);
        text(s)
    }
}

impl FormalArgument {
    /// The document of a formal argument: `<name>: <type>`.
    pub fn to_doc(&self) -> (r: Doc)
        ensures
            r@ == param_doc((self.argument_name@, self.argument_type@)),
    {
        concat(text(self.argument_name.clone()), concat(text_str(": "), self.argument_type.to_doc()))
    }
}

/// The document of a formal argument.
pub open spec fn param_doc(p: (Seq<char>, TypeV)) -> DocV {
    cat(DocV::Text(p.0), cat(DocV::Text(": "@), DocV::Text(type_source(p.1))))
}

/// One document after another.
pub open spec fn cat(a: DocV, b: DocV) -> DocV {
    DocV::Concat(Box::new(a), Box::new(b))
}

/// A document in parentheses when its operator binds less tightly than the
/// operator around it.
pub open spec fn paren(cur: nat, parent: nat, d: DocV) -> DocV {
    if cur < parent {
        cat(DocV::Text("("@), cat(d, DocV::Text(")"@)))
    } else {
        d
    }
}

/// A binary operation: left operand, operator, right operand, in
/// parentheses when the operator around binds more tightly.
pub open spec fn bin_doc(op: Seq<char>, cur: nat, parent: nat, l: DocV, r: DocV) -> DocV {
    paren(cur, parent, cat(l, cat(DocV::Text(op), r)))
}

/// A comma followed by a line.
pub open spec fn comma_line() -> DocV {
    cat(DocV::Text(","@), DocV::Line)
}

/// Items between brackets: on one line with a space inside each bracket when
/// they fit, otherwise one per line, indented.
pub open spec fn bracketed(open: Seq<char>, items: Seq<DocV>, close: Seq<char>) -> DocV {
    DocV::Group(
        Box::new(
            cat(
                DocV::Text(open),
                cat(
                    DocV::Nest(4, Box::new(cat(DocV::Line, join_docs(items, comma_line())))),
                    cat(DocV::Line, DocV::Text(close)),
                ),
            ),
        ),
    )
}

/// The text of the parameters of a lambda: `<name>: <type>` for each.
pub open spec fn lambda_params_text(ps: Seq<(Seq<char>, TypeV)>) -> Seq<Seq<char>>
    decreases ps.len(),
{
    if ps.len() == 0 {
        seq![]
    } else {
        lambda_params_text(ps.drop_last()).push(ps.last().0 + ": "@ + type_text(ps.last().1))
    }
}

/// The text of a lambda: `lambda (<params>) -> <return type>`.
pub open spec fn lambda_text(f: FunctionV) -> Seq<char> {
    "lambda ("@ + join_text(lambda_params_text(f.params), ", "@) + ") -> "@ + type_text(f.kind)
}

/// The document of an expression inside an operator of precedence `p`.
#[verifier::opaque]
pub open spec fn expr_doc(e: ExprV, p: nat) -> DocV
    decreases e, 0int,
{
    match e {
        ExprV::CTrue => DocV::Text("True"@),
        ExprV::CFalse => DocV::Text("False"@),
        ExprV::CInt(i) => DocV::Text(int_text(i as int)),
        ExprV::CReal(s) => DocV::Text(s),
        ExprV::CString(s) => DocV::Text(seq!['"'] + s + seq!['"']),
        ExprV::CVoid => DocV::Text("()"@),
        ExprV::Var(n) => DocV::Text(n),
        ExprV::Or(l, r) => bin_doc(" or "@, 1, p, expr_doc(*l, 1), expr_doc(*r, 1)),
        ExprV::And(l, r) => bin_doc(" and "@, 2, p, expr_doc(*l, 2), expr_doc(*r, 2)),
        ExprV::EQ(l, r) => bin_doc(" == "@, 3, p, expr_doc(*l, 3), expr_doc(*r, 4)),
        ExprV::NEQ(l, r) => bin_doc(" != "@, 3, p, expr_doc(*l, 3), expr_doc(*r, 4)),
        ExprV::GT(l, r) => bin_doc(" > "@, 3, p, expr_doc(*l, 3), expr_doc(*r, 4)),
        ExprV::LT(l, r) => bin_doc(" < "@, 3, p, expr_doc(*l, 3), expr_doc(*r, 4)),
        ExprV::GTE(l, r) => bin_doc(" >= "@, 3, p, expr_doc(*l, 3), expr_doc(*r, 4)),
        ExprV::LTE(l, r) => bin_doc(" <= "@, 3, p, expr_doc(*l, 3), expr_doc(*r, 4)),
        ExprV::Add(l, r) => bin_doc(" + "@, 4, p, expr_doc(*l, 4), expr_doc(*r, 4)),
        ExprV::Sub(l, r) => bin_doc(" - "@, 4, p, expr_doc(*l, 4), expr_doc(*r, 5)),
        ExprV::Mul(l, r) => bin_doc(" * "@, 5, p, expr_doc(*l, 5), expr_doc(*r, 5)),
        ExprV::Div(l, r) => bin_doc(" / "@, 5, p, expr_doc(*l, 5), expr_doc(*r, 6)),
        ExprV::Not(x) => paren(6, p, cat(DocV::Text("not "@), expr_doc(*x, 6))),
        ExprV::Unwrap(x) => cat(expr_doc(*x, 7), DocV::Text("!"@)),
        ExprV::FuncCall(n, args) => cat(
            DocV::Text(n),
            DocV::Group(
                Box::new(
                    cat(
                        DocV::Text("("@),
                        cat(
                            DocV::Nest(4, Box::new(join_docs(exprs_doc(args), comma_line()))),
                            DocV::Text(")"@),
                        ),
                    ),
                ),
            ),
        ),
        ExprV::Lambda(f) => DocV::Text(lambda_text(f)),
        ExprV::ListValue(es) => bracketed("["@, exprs_doc(es), "]"@),
        ExprV::Constructor(n, args) => if args.len() == 0 {
            DocV::Text(n)
        } else {
            paren(
                7,
                p,
                cat(DocV::Text(n), cat(DocV::Text(" "@), join_docs(exprs_doc(args), DocV::Text(" "@)))),
            )
        },
        ExprV::COk(x) => cat(DocV::Text("Ok("@), cat(expr_doc(*x, 0), DocV::Text(")"@))),
        ExprV::CErr(x) => cat(DocV::Text("Err("@), cat(expr_doc(*x, 0), DocV::Text(")"@))),
        ExprV::CJust(x) => cat(DocV::Text("Just("@), cat(expr_doc(*x, 0), DocV::Text(")"@))),
        ExprV::CNothing => DocV::Text("Nothing"@),
        ExprV::IsError(x) => cat(DocV::Text("is_error("@), cat(expr_doc(*x, 0), DocV::Text(")"@))),
        ExprV::IsNothing(x) => cat(
            DocV::Text("is_nothing("@),
            cat(expr_doc(*x, 0), DocV::Text(")"@)),
        ),
        ExprV::Propagate(x) => cat(expr_doc(*x, 7), DocV::Text("?"@)),
        ExprV::Tuple(es) => if es.len() == 0 {
            DocV::Text("()"@)
        } else {
            bracketed("("@, exprs_doc(es), ")"@)
        },
    }
}

/// The documents of a list of expressions, each outside any operator.
#[verifier::opaque]
pub open spec fn exprs_doc(es: Seq<ExprV>) -> Seq<DocV>
    decreases es, 0int,
{
    if es.len() == 0 {
        seq![]
    } else {
        exprs_doc(es.drop_last()).push(expr_doc(es.last(), 0))
    }
}

/// The documents of a list of expressions, element by element.
pub proof fn lemma_exprs_doc(es: Seq<ExprV>)
    ensures
        exprs_doc(es).len() == es.len(),
        forall|i: int| 0 <= i < es.len() ==> #[trigger] exprs_doc(es)[i] == expr_doc(es[i], 0),
    decreases es.len(),
{
    reveal(expr_doc);
    reveal(exprs_doc);
    if es.len() > 0 {
        lemma_exprs_doc(es.drop_last());
    }
}

/// The text of the parameters of a lambda, element by element.
pub proof fn lemma_lambda_params_text(ps: Seq<(Seq<char>, TypeV)>)
    ensures
        lambda_params_text(ps).len() == ps.len(),
        forall|i: int|
            0 <= i < ps.len() ==> #[trigger] lambda_params_text(ps)[i] == ps[i].0 + ": "@
                + type_text(ps[i].1),
    decreases ps.len(),
{
    if ps.len() > 0 {
        lemma_lambda_params_text(ps.drop_last());
    }
}

/// A document in parentheses when `cur < parent`.
fn maybe_paren(cur: usize, parent: usize, d: Doc) -> (r: Doc)
    ensures
        r@ == paren(cur as nat, parent as nat, d@),
{
    if cur < parent {
        concat(text_str("("), concat(d, text_str(")")))
    } else {
        d
    }
}

/// A binary operation between two documents.
fn binary(op: &str, cur: usize, parent: usize, l: Doc, r: Doc) -> (d: Doc)
    ensures
        d@ == bin_doc(op@, cur as nat, parent as nat, l@, r@),
{
    maybe_paren(cur, parent, concat(l, concat(text_str(op), r)))
}

/// Items between brackets, as in [`bracketed`].
fn bracket_items(open: &str, items: &Vec<Doc>, close: &str) -> (d: Doc)
    ensures
        d@ == bracketed(open@, docs_view(items@), close@),
{
    let sep = concat(text_str(","), line());
    let joined = punctuate(&sep, items);
    group(
        concat(
            text_str(open),
            concat(nest(4, concat(line(), joined)), concat(line(), text_str(close))),
        ),
    )
}

/// The text of a lambda.
fn lambda_string(f: &crate::ast::Function) -> (r: String)
    ensures
        r@ == lambda_text(f@),
{
    let ghost pv = f@.params;
    proof {
        crate::ast::lemma_params_view(f.params@);
        lemma_lambda_params_text(pv);
    }
    let mut out = String::new();
    append_str(&mut out, "lambda (");
    let ghost start = out@;
    let mut i: usize = 0;
    while i < f.params.len()
        invariant
            i <= f.params.len(),
            pv == f@.params,
            pv.len() == f.params.len(),
            forall|j: int|
                0 <= j < f.params.len() ==> #[trigger] pv[j] == (
                    f.params@[j].argument_name@,
                    f.params@[j].argument_type@,
                ),
            lambda_params_text(pv).len() == pv.len(),
            forall|j: int|
                0 <= j < pv.len() ==> #[trigger] lambda_params_text(pv)[j] == pv[j].0 + ": "@
                    + type_text(pv[j].1),
            out@ == start + join_text(lambda_params_text(pv).subrange(0, i as int), ", "@),
        decreases f.params.len() - i,
    {
        let ghost next = lambda_params_text(pv).subrange(0, i + 1);
        assert(next.drop_last() =~= lambda_params_text(pv).subrange(0, i as int));
        if i > 0 {
            append_str(&mut out, ", ");
        }
        let ghost before = out@;
        append_str(&mut out, f.params[i].argument_name.as_str());
        append_str(&mut out, ": ");
        append_type_text(&mut out, &f.params[i].argument_type);
        assert(out@ =~= before + lambda_params_text(pv)[i as int]);
        assert(out@ =~= start + join_text(next, ", "@));
        i = i + 1;
    }
    assert(lambda_params_text(pv).subrange(0, f.params.len() as int) =~= lambda_params_text(pv));
    append_str(&mut out, ") -> ");
    append_type_text(&mut out, &f.kind);
    assert(out@ =~= lambda_text(f@));
    out
}

/// The documents of a list of expressions.
fn exprs_docs(es: &Vec<Expression>) -> (r: Vec<Doc>)
    ensures
        docs_view(r@) == exprs_doc(exprs_view(es@)),
    decreases es@, 1int,
{
    let ghost ev = exprs_view(es@);
    proof {
        lemma_exprs_view(es@);
        lemma_exprs_doc(ev);
    }
    let mut r: Vec<Doc> = Vec::new();
    let mut i: usize = 0;
    while i < es.len()
        invariant
            i <= es.len(),
            ev == exprs_view(es@),
            ev.len() == es.len(),
            forall|j: int| 0 <= j < es.len() ==> #[trigger] ev[j] == es@[j]@,
            exprs_doc(ev).len() == ev.len(),
            forall|j: int| 0 <= j < ev.len() ==> #[trigger] exprs_doc(ev)[j] == expr_doc(ev[j], 0),
            docs_view(r@) == exprs_doc(ev).subrange(0, i as int),
        decreases es.len() - i,
    {
        let d = es[i].to_doc_inner(PREC_NONE);
        let ghost old_r = r@;
        assert(d@ == exprs_doc(ev)[i as int]);
        r.push(d);
        assert(r@ == old_r.push(d));
        assert(docs_view(r@) =~= docs_view(old_r).push(exprs_doc(ev)[i as int]));
        assert(docs_view(r@) =~= exprs_doc(ev).subrange(0, i + 1));
        i = i + 1;
    }
    assert(exprs_doc(ev).subrange(0, es.len() as int) =~= exprs_doc(ev));
    r
}

/// The documents of a list of boxed expressions.
fn boxed_exprs_docs(es: &Vec<Box<Expression>>) -> (r: Vec<Doc>)
    ensures
        docs_view(r@) == exprs_doc(boxed_exprs_view(es@)),
    decreases es@, 1int,
{
    let ghost ev = boxed_exprs_view(es@);
    proof {
        lemma_boxed_exprs_view(es@);
        lemma_exprs_doc(ev);
    }
    let mut r: Vec<Doc> = Vec::new();
    let mut i: usize = 0;
    while i < es.len()
        invariant
            i <= es.len(),
            ev == boxed_exprs_view(es@),
            ev.len() == es.len(),
            forall|j: int| 0 <= j < es.len() ==> #[trigger] ev[j] == (*es@[j])@,
            exprs_doc(ev).len() == ev.len(),
            forall|j: int| 0 <= j < ev.len() ==> #[trigger] exprs_doc(ev)[j] == expr_doc(ev[j], 0),
            docs_view(r@) == exprs_doc(ev).subrange(0, i as int),
        decreases es.len() - i,
    {
        let d = es[i].to_doc_inner(PREC_NONE);
        let ghost old_r = r@;
        assert(d@ == exprs_doc(ev)[i as int]);
        r.push(d);
        assert(r@ == old_r.push(d));
        assert(docs_view(r@) =~= docs_view(old_r).push(exprs_doc(ev)[i as int]));
        assert(docs_view(r@) =~= exprs_doc(ev).subrange(0, i + 1));
        i = i + 1;
    }
    assert(exprs_doc(ev).subrange(0, es.len() as int) =~= exprs_doc(ev));
    r
}

impl Expression {
    /// The document of an expression at the top level.
    pub fn to_doc(&self) -> (r: Doc)
        ensures
            r@ == expr_doc(self@, 0),
    {
        self.to_doc_inner(PREC_NONE)
    }

    /// The document of an expression that stands inside an operator of
    /// precedence `parent`: in parentheses when its own operator binds less
    /// tightly. The right operand of `-`, `/` and the comparisons is taken
    /// one level tighter, so that `a - (b - c)` keeps its parentheses.
    pub fn to_doc_inner(&self, parent: usize) -> (r: Doc)
        ensures
            r@ == expr_doc(self@, parent as nat),
        decreases self, 0int,
    {
        proof {
            reveal(expr_doc);
            reveal(exprs_doc);
        }
        match self {
            Expression::CTrue => text_str("True"),
            Expression::CFalse => text_str("False"),
            Expression::CInt(i) => {
                let mut s = String::new();
                append_int(&mut s, *i);
                assert(s@ =~= int_text(*i as int));
                text(s)
            },
            Expression::CReal(s) => text(s.clone()),
            Expression::CString(s) => {
                let mut t = String::new();
                push_char(&mut t, '"');
                append_str(&mut t, s.as_str());
                push_char(&mut t, '"');
                assert(t@ =~= seq!['"'] + s@ + seq!['"']);
                text(t)
            },
            Expression::CVoid => text_str("()"),
            Expression::Var(n) => text(n.clone()),
            Expression::Or(l, r) => binary(
                " or ",
                PREC_OR,
                parent,
                l.to_doc_inner(PREC_OR),
                r.to_doc_inner(PREC_OR),
            ),
            Expression::And(l, r) => binary(
                " and ",
                PREC_AND,
                parent,
                l.to_doc_inner(PREC_AND),
                r.to_doc_inner(PREC_AND),
            ),
            Expression::EQ(l, r) => binary(
                " == ",
                PREC_RELATIONAL,
                parent,
                l.to_doc_inner(PREC_RELATIONAL),
                r.to_doc_inner(PREC_RELATIONAL + 1),
            ),
            Expression::NEQ(l, r) => binary(
                " != ",
                PREC_RELATIONAL,
                parent,
                l.to_doc_inner(PREC_RELATIONAL),
                r.to_doc_inner(PREC_RELATIONAL + 1),
            ),
            Expression::GT(l, r) => binary(
                " > ",
                PREC_RELATIONAL,
                parent,
                l.to_doc_inner(PREC_RELATIONAL),
                r.to_doc_inner(PREC_RELATIONAL + 1),
            ),
            Expression::LT(l, r) => binary(
                " < ",
                PREC_RELATIONAL,
                parent,
                l.to_doc_inner(PREC_RELATIONAL),
                r.to_doc_inner(PREC_RELATIONAL + 1),
            ),
            Expression::GTE(l, r) => binary(
                " >= ",
                PREC_RELATIONAL,
                parent,
                l.to_doc_inner(PREC_RELATIONAL),
                r.to_doc_inner(PREC_RELATIONAL + 1),
            ),
            Expression::LTE(l, r) => binary(
                " <= ",
                PREC_RELATIONAL,
                parent,
                l.to_doc_inner(PREC_RELATIONAL),
                r.to_doc_inner(PREC_RELATIONAL + 1),
            ),
            Expression::Add(l, r) => binary(
                " + ",
                PREC_ADD_SUB,
                parent,
                l.to_doc_inner(PREC_ADD_SUB),
                r.to_doc_inner(PREC_ADD_SUB),
            ),
            Expression::Sub(l, r) => binary(
                " - ",
                PREC_ADD_SUB,
                parent,
                l.to_doc_inner(PREC_ADD_SUB),
                r.to_doc_inner(PREC_ADD_SUB + 1),
            ),
            Expression::Mul(l, r) => binary(
                " * ",
                PREC_MUL_DIV,
                parent,
                l.to_doc_inner(PREC_MUL_DIV),
                r.to_doc_inner(PREC_MUL_DIV),
            ),
            Expression::Div(l, r) => binary(
                " / ",
                PREC_MUL_DIV,
                parent,
                l.to_doc_inner(PREC_MUL_DIV),
                r.to_doc_inner(PREC_MUL_DIV + 1),
            ),
            Expression::Not(x) => maybe_paren(
                PREC_UNARY,
                parent,
                concat(text_str("not "), x.to_doc_inner(PREC_UNARY)),
            ),
            Expression::Unwrap(x) => concat(x.to_doc_inner(PREC_CALL), text_str("!")),
            Expression::FuncCall(name, args) => {
                let docs = exprs_docs(args);
                let sep = concat(text_str(","), line());
                let joined = punctuate(&sep, &docs);
                concat(
                    text(name.clone()),
                    group(concat(text_str("("), concat(nest(4, joined), text_str(")")))),
                )
            },
            Expression::Lambda(f) => text(lambda_string(f)),
            Expression::ListValue(es) => {
                let docs = exprs_docs(es);
                bracket_items("[", &docs, "]")
            },
            Expression::Constructor(name, args) => {
                proof {
                    lemma_boxed_exprs_view(args@);
                }
                if args.len() == 0 {
                    return text(name.clone());
                }
                let docs = boxed_exprs_docs(args);
                let spaced = punctuate(&text_str(" "), &docs);
                maybe_paren(
                    PREC_CALL,
                    parent,
                    concat(text(name.clone()), concat(text_str(" "), spaced)),
                )
            },
            Expression::COk(x) => concat(text_str("Ok("), concat(x.to_doc_inner(PREC_NONE), text_str(")"))),
            Expression::CErr(x) => concat(text_str("Err("), concat(x.to_doc_inner(PREC_NONE), text_str(")"))),
            Expression::CJust(x) => concat(text_str("Just("), concat(x.to_doc_inner(PREC_NONE), text_str(")"))),
            Expression::CNothing => text_str("Nothing"),
            Expression::IsError(x) => concat(
                text_str("is_error("),
                concat(x.to_doc_inner(PREC_NONE), text_str(")")),
            ),
            Expression::IsNothing(x) => concat(
                text_str("is_nothing("),
                concat(x.to_doc_inner(PREC_NONE), text_str(")")),
            ),
            Expression::Propagate(x) => concat(x.to_doc_inner(PREC_CALL), text_str("?")),
            Expression::Tuple(es) => {
                proof {
                    lemma_exprs_view(es@);
                }
                if es.len() == 0 {
                    return text_str("()");
                }
                let docs = exprs_docs(es);
                bracket_items("(", &docs, ")")
            },
        }
    }
}

/// Items one per line, indented, between an opening text and a closing
/// line.
pub open spec fn indented(open: Seq<char>, items: Seq<DocV>, close: Seq<char>) -> DocV {
    cat(
        DocV::Text(open),
        cat(
            DocV::Nest(4, Box::new(cat(DocV::HardLine, join_docs(items, DocV::HardLine)))),
            cat(DocV::HardLine, DocV::Text(close)),
        ),
    )
}

/// The document of a constructor of a data type: `| <name> <field types>`.
pub open spec fn ctor_doc(c: (Seq<char>, Seq<TypeV>)) -> DocV {
    cat(
        DocV::Text("| "@),
        cat(
            DocV::Text(c.0),
            if c.1.len() == 0 {
                DocV::Nil
            } else {
                cat(DocV::Text(" "@), join_docs(type_docs(c.1), DocV::Text(" "@)))
            },
        ),
    )
}

/// The documents of a list of types.
pub open spec fn type_docs(ts: Seq<TypeV>) -> Seq<DocV> {
    ts.map_values(|t: TypeV| DocV::Text(type_source(t)))
}

/// The documents of the constructors taken in the given order.
pub open spec fn ctors_doc(cs: Seq<(Seq<char>, Seq<TypeV>)>, order: Seq<int>) -> Seq<DocV> {
    order.map_values(|k: int| ctor_doc(cs[k]))
}

/// The document of a statement.
#[verifier::opaque]
pub open spec fn stmt_doc(s: StmtV) -> DocV
    decreases s, 0int,
{
    match s {
        StmtV::VarDeclaration(n, e) => cat(
            DocV::Text("var "@),
            cat(DocV::Text(n), cat(DocV::Text(" = "@), cat(expr_doc(e, 0), DocV::Text(";"@)))),
        ),
        StmtV::ValDeclaration(n, e) => cat(
            DocV::Text("val "@),
            cat(DocV::Text(n), cat(DocV::Text(" = "@), cat(expr_doc(e, 0), DocV::Text(";"@)))),
        ),
        StmtV::Assignment(n, e) => cat(
            DocV::Text(n),
            cat(DocV::Text(" = "@), cat(expr_doc(e, 0), DocV::Text(";"@))),
        ),
        StmtV::Return(e) => cat(DocV::Text("return "@), cat(expr_doc(e, 0), DocV::Text(";"@))),
        StmtV::Assert(c, m) => call2_doc("assert("@, expr_doc(c, 0), expr_doc(m, 0)),
        StmtV::Block(ss) => indented(":"@, stmts_doc(ss), "end"@),
        StmtV::IfThenElse(c, t, e) => {
            let d = cat(DocV::Text("if "@), cat(expr_doc(c, 0), cat(DocV::Text(" "@), stmt_doc(*t))));
            match e {
                Some(b) => cat(d, cat(DocV::Text(" else "@), stmt_doc(*b))),
                None => d,
            }
        },
        StmtV::IfChain { branches, else_branch } => if branches.len() == 0 {
            DocV::Text(""@)
        } else {
            match else_branch {
                Some(b) => cat(chain_doc(branches), cat(DocV::Text(" else "@), stmt_doc(*b))),
                None => chain_doc(branches),
            }
        },
        StmtV::While(c, b) => cat(
            DocV::Text("while "@),
            cat(expr_doc(c, 0), cat(DocV::Text(" "@), stmt_doc(*b))),
        ),
        StmtV::For(v, it, b) => cat(
            DocV::Text("for "@),
            cat(
                DocV::Text(v),
                cat(DocV::Text(" in "@), cat(expr_doc(it, 0), cat(DocV::Text(" "@), stmt_doc(*b)))),
            ),
        ),
        StmtV::FuncDef(f) => function_doc(f),
        StmtV::Sequence(a, b) => cat(stmt_doc(*a), cat(DocV::HardLine, stmt_doc(*b))),
        StmtV::AssertTrue(e, m) => call2_doc("assert_true("@, expr_doc(e, 0), expr_doc(m, 0)),
        StmtV::AssertFalse(e, m) => call2_doc("assert_false("@, expr_doc(e, 0), expr_doc(m, 0)),
        StmtV::AssertEQ(a, b, m) => call3_doc(
            "assert_eq("@,
            expr_doc(a, 0),
            expr_doc(b, 0),
            expr_doc(m, 0),
        ),
        StmtV::AssertNEQ(a, b, m) => call3_doc(
            "assert_neq("@,
            expr_doc(a, 0),
            expr_doc(b, 0),
            expr_doc(m, 0),
        ),
        StmtV::AssertFails(m) => cat(
            DocV::Text("assert_fails(\""@),
            cat(DocV::Text(m), DocV::Text("\");"@)),
        ),
        StmtV::TypeDeclaration(n, cs) => cat(
            DocV::Text("type "@),
            cat(DocV::Text(n), indented(":"@, ctors_doc(cs, order_by_name(cs, cs.len())), "end"@)),
        ),
        StmtV::TestDef(f) => cat(DocV::Text("test "@), function_doc(f)),
        StmtV::ModTestDef(m, b) => cat(
            DocV::Text("modtest "@),
            cat(DocV::Text(m), cat(DocV::Text(" "@), stmt_doc(*b))),
        ),
        StmtV::Match(e, arms) => cat(
            DocV::Text("match "@),
            cat(expr_doc(e, 0), indented(" {"@, arms_doc(arms), "}"@)),
        ),
    }
}

/// `<head><a>, <b>);`
pub open spec fn call2_doc(head: Seq<char>, a: DocV, b: DocV) -> DocV {
    cat(DocV::Text(head), cat(a, cat(DocV::Text(", "@), cat(b, DocV::Text(");"@)))))
}

/// `<head><a>, <b>, <c>);`
pub open spec fn call3_doc(head: Seq<char>, a: DocV, b: DocV, c: DocV) -> DocV {
    cat(
        DocV::Text(head),
        cat(a, cat(DocV::Text(", "@), cat(b, cat(DocV::Text(", "@), cat(c, DocV::Text(");"@)))))),
    )
}

/// The documents of a list of statements.
#[verifier::opaque]
pub open spec fn stmts_doc(ss: Seq<StmtV>) -> Seq<DocV>
    decreases ss, 0int,
{
    if ss.len() == 0 {
        seq![]
    } else {
        stmts_doc(ss.drop_last()).push(stmt_doc(ss.last()))
    }
}

/// A chain of conditionals: `if <c> <b>`, then ` elif <c> <b>` for each
/// further branch.
#[verifier::opaque]
pub open spec fn chain_doc(bs: Seq<(ExprV, StmtV)>) -> DocV
    decreases bs, 0int,
{
    if bs.len() == 0 {
        DocV::Nil
    } else if bs.len() == 1 {
        cat(DocV::Text("if "@), cat(expr_doc(bs[0].0, 0), cat(DocV::Text(" "@), stmt_doc(bs[0].1))))
    } else {
        cat(
            chain_doc(bs.drop_last()),
            cat(
                DocV::Text(" elif "@),
                cat(expr_doc(bs.last().0, 0), cat(DocV::Text(" "@), stmt_doc(bs.last().1))),
            ),
        )
    }
}

/// The documents of the arms of a match: `<pattern> => <statement>`.
#[verifier::opaque]
pub open spec fn arms_doc(arms: Seq<(ExprV, StmtV)>) -> Seq<DocV>
    decreases arms, 0int,
{
    if arms.len() == 0 {
        seq![]
    } else {
        arms_doc(arms.drop_last()).push(
            cat(expr_doc(arms.last().0, 0), cat(DocV::Text(" => "@), stmt_doc(arms.last().1))),
        )
    }
}

/// The document of a function definition:
/// `def <name>(<params>) -> <type> <body>`, with `: end` for a function
/// without a body.
#[verifier::opaque]
pub open spec fn function_doc(f: FunctionV) -> DocV
    decreases f, 0int,
{
    cat(
        DocV::Text("def "@),
        cat(
            DocV::Text(f.name),
            cat(
                bracketed("("@, f.params.map_values(|p: (Seq<char>, TypeV)| param_doc(p)), ")"@),
                cat(
                    DocV::Text(" -> "@),
                    cat(
                        DocV::Text(type_source(f.kind)),
                        cat(
                            DocV::Text(" "@),
                            match f.body {
                                Some(b) => stmt_doc(*b),
                                None => cat(DocV::Text(":"@), DocV::Text(" end"@)),
                            },
                        ),
                    ),
                ),
            ),
        ),
    )
}

/// The documents of a list of statements, element by element.
#[verifier::spinoff_prover]
#[verifier::rlimit(40)]
pub proof fn lemma_stmts_doc(ss: Seq<StmtV>)
    ensures
        stmts_doc(ss).len() == ss.len(),
        forall|i: int| 0 <= i < ss.len() ==> #[trigger] stmts_doc(ss)[i] == stmt_doc(ss[i]),
    decreases ss.len(),
{
    reveal(stmt_doc);
    reveal(stmts_doc);
    reveal(chain_doc);
    reveal(arms_doc);
    reveal(function_doc);
    if ss.len() > 0 {
        lemma_stmts_doc(ss.drop_last());
    }
}

/// The documents of the arms of a match, element by element.
#[verifier::spinoff_prover]
#[verifier::rlimit(40)]
pub proof fn lemma_arms_doc(arms: Seq<(ExprV, StmtV)>)
    ensures
        arms_doc(arms).len() == arms.len(),
        forall|i: int|
            0 <= i < arms.len() ==> #[trigger] arms_doc(arms)[i] == cat(
                expr_doc(arms[i].0, 0),
                cat(DocV::Text(" => "@), stmt_doc(arms[i].1)),
            ),
    decreases arms.len(),
{
    reveal(stmt_doc);
    reveal(stmts_doc);
    reveal(chain_doc);
    reveal(arms_doc);
    reveal(function_doc);
    if arms.len() > 0 {
        lemma_arms_doc(arms.drop_last());
    }
}

/// Documents joined by a separator: the first, then the separator and the
/// next, and so on; nothing for no documents.
pub fn join(sep: Doc, docs: Vec<Doc>) -> (r: Doc)
    ensures
        r@ == join_docs(docs_view(docs@), sep@),
{
    punctuate(&sep, &docs)
}

/// Items one per line, as in [`indented`].
fn indent_items(open: &str, items: &Vec<Doc>, close: &str) -> (d: Doc)
    ensures
        d@ == indented(open@, docs_view(items@), close@),
{
    let joined = punctuate(&hardline(), items);
    concat(
        text_str(open),
        concat(nest(4, concat(hardline(), joined)), concat(hardline(), text_str(close))),
    )
}

/// `<head><a>, <b>);`
fn call2(head: &str, a: Doc, b: Doc) -> (d: Doc)
    ensures
        d@ == call2_doc(head@, a@, b@),
{
    concat(text_str(head), concat(a, concat(text_str(", "), concat(b, text_str(");")))))
}

/// `<head><a>, <b>, <c>);`
fn call3(head: &str, a: Doc, b: Doc, c: Doc) -> (d: Doc)
    ensures
        d@ == call3_doc(head@, a@, b@, c@),
{
    concat(
        text_str(head),
        concat(a, concat(text_str(", "), concat(b, concat(text_str(", "), concat(c, text_str(");")))))),
    )
}

/// The document of a constructor of a data type.
fn ctor_to_doc(c: &(Name, Vec<Type>)) -> (d: Doc)
    ensures
        d@ == ctor_doc((c.0@, types_view(c.1@))),
{
    let ghost tv = types_view(c.1@);
    proof {
        lemma_types_view(c.1@);
    }
    let tail = if c.1.len() == 0 {
        nil()
    } else {
        let mut docs: Vec<Doc> = Vec::new();
        let mut i: usize = 0;
        while i < c.1.len()
            invariant
                i <= c.1.len(),
                tv == types_view(c.1@),
                tv.len() == c.1.len(),
                forall|j: int| 0 <= j < c.1.len() ==> #[trigger] tv[j] == c.1@[j]@,
                docs_view(docs@) == type_docs(tv).subrange(0, i as int),
            decreases c.1.len() - i,
        {
            let d = c.1[i].to_doc();
            let ghost old_docs = docs@;
            docs.push(d);
            assert(docs@ == old_docs.push(d));
            assert(docs_view(docs@) =~= docs_view(old_docs).push(type_docs(tv)[i as int]));
            assert(docs_view(docs@) =~= type_docs(tv).subrange(0, i + 1));
            i = i + 1;
        }
        assert(type_docs(tv).subrange(0, c.1.len() as int) =~= type_docs(tv));
        concat(text_str(" "), punctuate(&text_str(" "), &docs))
    };
    concat(text_str("| "), concat(text(c.0.clone()), tail))
}

/// The documents of the constructors of a data type, sorted by name.
fn ctors_to_docs(cs: &Vec<(Name, Vec<Type>)>) -> (r: Vec<Doc>)
    ensures
        docs_view(r@) == ctors_doc(ctors_view(cs@), order_by_name(ctors_view(cs@), cs.len() as nat)),
{
    let ghost cv = ctors_view(cs@);
    proof {
        lemma_ctors_view(cs@);
    }
    let order = order_ctors_by_name(cs);
    let ghost ord = order@.map_values(|x: usize| x as int);
    let mut r: Vec<Doc> = Vec::new();
    let mut k: usize = 0;
    while k < order.len()
        invariant
            k <= order.len(),
            cv == ctors_view(cs@),
            cv.len() == cs.len(),
            forall|j: int|
                0 <= j < cs.len() ==> #[trigger] cv[j] == (cs@[j].0@, types_view(cs@[j].1@)),
            ord == order@.map_values(|x: usize| x as int),
            forall|j: int| 0 <= j < order@.len() ==> #[trigger] order@[j] < cs.len(),
            docs_view(r@) == ctors_doc(cv, ord).subrange(0, k as int),
        decreases order.len() - k,
    {
        let p = order[k];
        let d = ctor_to_doc(&cs[p]);
        let ghost old_r = r@;
        assert(d@ == ctors_doc(cv, ord)[k as int]);
        r.push(d);
        assert(r@ == old_r.push(d));
        assert(docs_view(r@) =~= docs_view(old_r).push(ctors_doc(cv, ord)[k as int]));
        assert(docs_view(r@) =~= ctors_doc(cv, ord).subrange(0, k + 1));
        k = k + 1;
    }
    assert(ctors_doc(cv, ord).subrange(0, order.len() as int) =~= ctors_doc(cv, ord));
    r
}

/// The documents of a list of statements.
fn stmts_docs(ss: &Vec<Statement>) -> (r: Vec<Doc>)
    ensures
        docs_view(r@) == stmts_doc(stmts_view(ss@)),
    decreases ss@, 1int,
{
    let ghost sv = stmts_view(ss@);
    proof {
        lemma_stmts_view(ss@);
        lemma_stmts_doc(sv);
    }
    let mut r: Vec<Doc> = Vec::new();
    let mut i: usize = 0;
    while i < ss.len()
        invariant
            i <= ss.len(),
            sv == stmts_view(ss@),
            sv.len() == ss.len(),
            forall|j: int| 0 <= j < ss.len() ==> #[trigger] sv[j] == ss@[j]@,
            stmts_doc(sv).len() == sv.len(),
            forall|j: int| 0 <= j < sv.len() ==> #[trigger] stmts_doc(sv)[j] == stmt_doc(sv[j]),
            docs_view(r@) == stmts_doc(sv).subrange(0, i as int),
        decreases ss.len() - i,
    {
        let d = ss[i].to_doc();
        let ghost old_r = r@;
        assert(d@ == stmts_doc(sv)[i as int]);
        r.push(d);
        assert(r@ == old_r.push(d));
        assert(docs_view(r@) =~= docs_view(old_r).push(stmts_doc(sv)[i as int]));
        assert(docs_view(r@) =~= stmts_doc(sv).subrange(0, i + 1));
        i = i + 1;
    }
    assert(stmts_doc(sv).subrange(0, ss.len() as int) =~= stmts_doc(sv));
    r
}

/// The documents of the arms of a match.
fn arms_docs(arms: &Vec<(Expression, Statement)>) -> (r: Vec<Doc>)
    ensures
        docs_view(r@) == arms_doc(arms_view(arms@)),
    decreases arms@, 1int,
{
    let ghost av = arms_view(arms@);
    proof {
        lemma_arms_view(arms@);
        lemma_arms_doc(av);
    }
    let mut r: Vec<Doc> = Vec::new();
    let mut i: usize = 0;
    while i < arms.len()
        invariant
            i <= arms.len(),
            av == arms_view(arms@),
            av.len() == arms.len(),
            forall|j: int| 0 <= j < arms.len() ==> #[trigger] av[j] == (arms@[j].0@, arms@[j].1@),
            arms_doc(av).len() == av.len(),
            forall|j: int|
                0 <= j < av.len() ==> #[trigger] arms_doc(av)[j] == cat(
                    expr_doc(av[j].0, 0),
                    cat(DocV::Text(" => "@), stmt_doc(av[j].1)),
                ),
            docs_view(r@) == arms_doc(av).subrange(0, i as int),
        decreases arms.len() - i,
    {
        let d = concat(arms[i].0.to_doc(), concat(text_str(" => "), arms[i].1.to_doc()));
        let ghost old_r = r@;
        assert(d@ == arms_doc(av)[i as int]);
        r.push(d);
        assert(r@ == old_r.push(d));
        assert(docs_view(r@) =~= docs_view(old_r).push(arms_doc(av)[i as int]));
        assert(docs_view(r@) =~= arms_doc(av).subrange(0, i + 1));
        i = i + 1;
    }
    assert(arms_doc(av).subrange(0, arms.len() as int) =~= arms_doc(av));
    r
}

/// The document of a chain of conditionals with at least one branch.
fn chain_to_doc(bs: &Vec<(Box<Expression>, Box<Statement>)>) -> (r: Doc)
    requires
        bs.len() > 0,
    ensures
        r@ == chain_doc(branches_view(bs@)),
    decreases bs@, 1int,
{
    let ghost bv = branches_view(bs@);
    proof {
        lemma_branches_view(bs@);
        reveal(stmt_doc);
        reveal(stmts_doc);
        reveal(chain_doc);
        reveal(arms_doc);
        reveal(function_doc);
    }
    let mut acc = concat(
        text_str("if "),
        concat(bs[0].0.to_doc(), concat(text_str(" "), bs[0].1.to_doc())),
    );
    assert(acc@ == chain_doc(bv.subrange(0, 1)));
    let mut i: usize = 1;
    while i < bs.len()
        invariant
            1 <= i <= bs.len(),
            bv == branches_view(bs@),
            bv.len() == bs.len(),
            forall|j: int| 0 <= j < bs.len() ==> #[trigger] bv[j] == ((*bs@[j].0)@, (*bs@[j].1)@),
            acc@ == chain_doc(bv.subrange(0, i as int)),
        decreases bs.len() - i,
    {
        let ghost next = bv.subrange(0, i + 1);
        proof {
            reveal(stmt_doc);
            reveal(stmts_doc);
            reveal(chain_doc);
            reveal(arms_doc);
            reveal(function_doc);
        }
        assert(next.drop_last() =~= bv.subrange(0, i as int));
        assert(next.last() == bv[i as int]);
        let branch = concat(
            text_str(" elif "),
            concat(bs[i].0.to_doc(), concat(text_str(" "), bs[i].1.to_doc())),
        );
        acc = concat(acc, branch);
        assert(acc@ == chain_doc(next));
        i = i + 1;
    }
    assert(bv.subrange(0, bs.len() as int) =~= bv);
    acc
}

impl Statement {
    /// The document of a statement: declarations, assignments, returns and
    /// assertions on one line ending in `;`, blocks as `:`, their
    /// statements indented one per line, and `end`.
    pub fn to_doc(&self) -> (r: Doc)
        ensures
            r@ == stmt_doc(self@),
        decreases self, 1int,
    {
        match self {
            Statement::VarDeclaration(..) | Statement::ValDeclaration(..) | Statement::Assignment(..)
            | Statement::Return(..) | Statement::Assert(..) | Statement::AssertTrue(..)
            | Statement::AssertFalse(..) | Statement::AssertEQ(..) | Statement::AssertNEQ(..)
            | Statement::AssertFails(..) => self.line_to_doc(),
            Statement::Block(..) | Statement::IfThenElse(..) => self.block_to_doc(),
            Statement::IfChain { .. } => self.chain_stmt_to_doc(),
            Statement::While(..) | Statement::For(..) | Statement::Sequence(..) => self.loop_to_doc(),
            _ => self.definition_to_doc(),
        }
    }

    /// The document of a statement that takes one line.
    fn line_to_doc(&self) -> (r: Doc)
        requires
            self is VarDeclaration ||
                self is ValDeclaration ||
                self is Assignment ||
                self is Return ||
                self is Assert ||
                self is AssertTrue ||
                self is AssertFalse ||
                self is AssertEQ ||
                self is AssertNEQ ||
                self is AssertFails,
        ensures
            r@ == stmt_doc(self@),
        decreases self, 0int,
    {
        proof {
            reveal(stmt_doc);
            reveal(stmts_doc);
            reveal(chain_doc);
            reveal(arms_doc);
            reveal(function_doc);
        }
        match self {
            Statement::VarDeclaration(n, e) => concat(
                text_str("var "),
                concat(text(n.clone()), concat(text_str(" = "), concat(e.to_doc(), text_str(";")))),
            ),
            Statement::ValDeclaration(n, e) => concat(
                text_str("val "),
                concat(text(n.clone()), concat(text_str(" = "), concat(e.to_doc(), text_str(";")))),
            ),
            Statement::Assignment(n, e) => concat(
                text(n.clone()),
                concat(text_str(" = "), concat(e.to_doc(), text_str(";"))),
            ),
            Statement::Return(e) => concat(text_str("return "), concat(e.to_doc(), text_str(";"))),
            Statement::Assert(c, m) => call2("assert(", c.to_doc(), m.to_doc()),
            Statement::AssertTrue(e, m) => call2("assert_true(", e.to_doc(), m.to_doc()),
            Statement::AssertFalse(e, m) => call2("assert_false(", e.to_doc(), m.to_doc()),
            Statement::AssertEQ(a, b, m) => call3("assert_eq(", a.to_doc(), b.to_doc(), m.to_doc()),
            Statement::AssertNEQ(a, b, m) => call3(
                "assert_neq(",
                a.to_doc(),
                b.to_doc(),
                m.to_doc(),
            ),
            Statement::AssertFails(m) => concat(
                text_str("assert_fails(\""),
                concat(text(m.clone()), text_str("\");")),
            ),
            _ => nil(),
        }
    }

    /// The document of a block or of a conditional.
    fn block_to_doc(&self) -> (r: Doc)
        requires
            self is Block ||
                self is IfThenElse,
        ensures
            r@ == stmt_doc(self@),
        decreases self, 0int,
    {
        proof {
            reveal(stmt_doc);
            reveal(stmts_doc);
            reveal(chain_doc);
            reveal(arms_doc);
            reveal(function_doc);
        }
        match self {
            Statement::Block(ss) => {
                let docs = stmts_docs(ss);
                assert(self@ == StmtV::Block(stmts_view(ss@)));
                assert(stmt_doc(StmtV::Block(stmts_view(ss@))) == indented(":"@, stmts_doc(stmts_view(ss@)), "end"@));
                indent_items(":", &docs, "end")
            },
            Statement::IfThenElse(c, t, e) => {
                let d = concat(text_str("if "), concat(c.to_doc(), concat(text_str(" "), t.to_doc())));
                assert(self@ == StmtV::IfThenElse(c@, Box::new(t@), opt_stmt_view(*e)));
                match e {
                    Some(b) => {
                        assert(opt_stmt_view(*e) == Some(Box::new((**b)@)));
                        let r = concat(d, concat(text_str(" else "), b.to_doc()));
                        assert(r@ == stmt_doc(self@));
                        r
                    },
                    None => {
                        assert(d@ == stmt_doc(self@));
                        d
                    },
                }
            },
            _ => nil(),
        }
    }

    /// The document of a chain of conditionals.
    fn chain_stmt_to_doc(&self) -> (r: Doc)
        requires
            self is IfChain,
        ensures
            r@ == stmt_doc(self@),
        decreases self, 0int,
    {
        proof {
            reveal(stmt_doc);
            reveal(stmts_doc);
            reveal(chain_doc);
            reveal(arms_doc);
            reveal(function_doc);
        }
        match self {
            Statement::IfChain { branches, else_branch } => {
                proof {
                    lemma_branches_view(branches@);
                }
                if branches.len() == 0 {
                    return text_str("");
                }
                let acc = chain_to_doc(branches);
                assert(self@ == StmtV::IfChain { branches: branches_view(branches@), else_branch: opt_stmt_view(*else_branch) });
                assert(acc@ == chain_doc(branches_view(branches@)));
                let d = match else_branch {
                    Some(b) => concat(acc, concat(text_str(" else "), b.to_doc())),
                    None => acc,
                };
                assert(d@ == stmt_doc(self@));
                d
            },
            _ => nil(),
        }
    }

    /// The document of a loop or of a sequence.
    fn loop_to_doc(&self) -> (r: Doc)
        requires
            self is While ||
                self is For ||
                self is Sequence,
        ensures
            r@ == stmt_doc(self@),
        decreases self, 0int,
    {
        proof {
            reveal(stmt_doc);
            reveal(stmts_doc);
            reveal(chain_doc);
            reveal(arms_doc);
            reveal(function_doc);
        }
        match self {
            Statement::While(c, b) => concat(
                text_str("while "),
                concat(c.to_doc(), concat(text_str(" "), b.to_doc())),
            ),
            Statement::For(v, it, b) => concat(
                text_str("for "),
                concat(
                    text(v.clone()),
                    concat(text_str(" in "), concat(it.to_doc(), concat(text_str(" "), b.to_doc()))),
                ),
            ),
            Statement::Sequence(a, b) => {
                let d = concat(a.to_doc(), concat(hardline(), b.to_doc()));
                assert(d@ == stmt_doc(self@));
                d
            },
            _ => nil(),
        }
    }

    /// The document of a definition or a match.
    fn definition_to_doc(&self) -> (r: Doc)
        requires
            self is FuncDef ||
                self is TypeDeclaration ||
                self is TestDef ||
                self is ModTestDef ||
                self is Match,
        ensures
            r@ == stmt_doc(self@),
        decreases self, 0int,
    {
        proof {
            reveal(stmt_doc);
            reveal(stmts_doc);
            reveal(chain_doc);
            reveal(arms_doc);
            reveal(function_doc);
        }
        match self {
            Statement::FuncDef(f) => {
                let d = f.to_doc();
                assert(self@ == StmtV::FuncDef(f@));
                assert(stmt_doc(StmtV::FuncDef(f@)) == function_doc(f@));
                d
            },
            Statement::TypeDeclaration(n, cs) => {
                proof {
                    lemma_ctors_view(cs@);
                }
                let docs = ctors_to_docs(cs);
                let d = concat(text_str("type "), concat(text(n.clone()), indent_items(":", &docs, "end")));
                assert(d@ == stmt_doc(self@));
                d
            },
            Statement::TestDef(f) => {
                let d = concat(text_str("test "), f.to_doc());
                assert(d@ == stmt_doc(self@));
                d
            },
            Statement::ModTestDef(m, b) => concat(
                text_str("modtest "),
                concat(text(m.clone()), concat(text_str(" "), b.to_doc())),
            ),
            Statement::Match(e, arms) => {
                let docs = arms_docs(arms);
                let d = concat(text_str("match "), concat(e.to_doc(), indent_items(" {", &docs, "}")));
                assert(d@ == stmt_doc(self@));
                d
            },
            _ => nil(),
        }
    }
}

impl Function {
    /// The document of a function definition:
    /// `def <name>(<params>) -> <type> <body>`; the parameters stay on one
    /// line when they fit.
    pub fn to_doc(&self) -> (r: Doc)
        ensures
            r@ == function_doc(self@),
        decreases self, 0int,
    {
        proof {
            reveal(stmt_doc);
            reveal(stmts_doc);
            reveal(chain_doc);
            reveal(arms_doc);
            reveal(function_doc);
        }
        let ghost pv = self@.params;
        proof {
            lemma_params_view(self.params@);
        }
        let mut docs: Vec<Doc> = Vec::new();
        let mut i: usize = 0;
        while i < self.params.len()
            invariant
                i <= self.params.len(),
                pv == self@.params,
                pv.len() == self.params.len(),
                forall|j: int|
                    0 <= j < self.params.len() ==> #[trigger] pv[j] == (
                        self.params@[j].argument_name@,
                        self.params@[j].argument_type@,
                    ),
                docs_view(docs@) == pv.map_values(|p: (Seq<char>, TypeV)| param_doc(p)).subrange(
                    0,
                    i as int,
                ),
            decreases self.params.len() - i,
        {
            let d = self.params[i].to_doc();
            let ghost old_docs = docs@;
            assert(d@ == param_doc(pv[i as int]));
            docs.push(d);
            assert(docs@ == old_docs.push(d));
            assert(docs_view(docs@) =~= docs_view(old_docs).push(param_doc(pv[i as int])));
            assert(docs_view(docs@) =~= pv.map_values(|p: (Seq<char>, TypeV)| param_doc(p)).subrange(
                0,
                i + 1,
            ));
            i = i + 1;
        }
        assert(pv.map_values(|p: (Seq<char>, TypeV)| param_doc(p)).subrange(0, self.params.len() as int)
            =~= pv.map_values(|p: (Seq<char>, TypeV)| param_doc(p)));
        let params = bracket_items("(", &docs, ")");
        let body = match &self.body {
            Some(b) => b.to_doc(),
            None => concat(text_str(":"), text_str(" end")),
        };
        concat(
            text_str("def "),
            concat(
                text(self.name.clone()),
                concat(
                    params,
                    concat(text_str(" -> "), concat(self.kind.to_doc(), concat(text_str(" "), body))),
                ),
            ),
        )
    }
}

/// The document of the binary expression `e` of operands `l` and `r`, at
/// the outermost level, is the left operand's document, the operator's text
/// and the right operand's document, in that order; and the parser, reading
/// that operator's text followed by anything, finds an operator that builds
/// `e` from `l` and `r`.
pub open spec fn operator_reads_back(e: ExprV, l: ExprV, r: ExprV, rest: Seq<char>) -> bool {
    match expr_doc(e, 0) {
        DocV::Concat(a, t) => match *t {
            DocV::Concat(o, b) => match *o {
                DocV::Text(op) => {
                    &&& exists|pl: nat, pr: nat| *a == expr_doc(l, pl) && *b == expr_doc(r, pr)
                    &&& exists|g: int|
                        0 <= g <= 2 && match #[trigger] op_index_at(op + rest, 0, group_ops(g), 0) {
                            Some((k, _)) => binary_of(g, k, l, r) == e,
                            None => false,
                        }
                },
                _ => false,
            },
            _ => false,
        },
        _ => false,
    }
}

/// The parser reads the operator ` sym ` (between spaces), followed by
/// anything, as the `k`-th operator of group `g`, when no operator listed
/// before it starts the text.
proof fn lemma_reads_operator(sym: Seq<char>, rest: Seq<char>, g: int, k: int)
    requires
        0 <= g <= 2,
        0 <= k < group_ops(g).len(),
        group_ops(g)[k] == sym,
        1 <= sym.len() <= 2,
        sym[0] != ' ' && sym[0] != '\t' && sym[0] != '\n' && sym[0] != '\r',
        forall|a: int|
            0 <= a < k ==> 1 <= (#[trigger] group_ops(g)[a]).len() <= 2 && (group_ops(g)[a][0] != sym[0] || (
            group_ops(g)[a].len() == 2 && group_ops(g)[a][1] != (sym + " "@)[1])),
    ensures
        op_index_at(" "@ + sym + " "@ + rest, 0, group_ops(g), 0) matches Some((kk, _)) && kk == k,
{
    reveal_strlit(" ");
    let s = " "@ + sym + " "@ + rest;
    let ops = group_ops(g);
    assert(s[0] == ' ');
    assert(s[1] == sym[0]);
    assert(s[2] == (sym + " "@)[1]);
    assert(skip_ws(s, 1) == 1);
    assert(skip_ws(s, 0) == 1);
    assert(s.subrange(1, 1 + sym.len() as int) =~= sym);
    assert forall|a: int| 0 <= a < k implies !text_at(s, skip_ws(s, 0), #[trigger] ops[a]) by {
        if text_at(s, 1, ops[a]) {
            assert(s.subrange(1, 1 + ops[a].len() as int)[0] == s[1]);
            if ops[a].len() == 2 {
                assert(s.subrange(1, 1 + ops[a].len() as int)[1] == s[2]);
            }
        }
    }
    lemma_op_index_finds(s, 0, ops, 0, k);
}

/// Printing a binary operator and parsing it back gives the same operator
/// on the same operands, in the same order: for every comparison and every
/// arithmetic operator, the document puts the left operand first, then the
/// operator's text, then the right operand, and that text reads back as the
/// operator that built the expression.
pub proof fn law_printed_operator_reads_back(l: ExprV, r: ExprV, rest: Seq<char>)
    ensures
        operator_reads_back(ExprV::EQ(Box::new(l), Box::new(r)), l, r, rest),
        operator_reads_back(ExprV::NEQ(Box::new(l), Box::new(r)), l, r, rest),
        operator_reads_back(ExprV::LT(Box::new(l), Box::new(r)), l, r, rest),
        operator_reads_back(ExprV::GT(Box::new(l), Box::new(r)), l, r, rest),
        operator_reads_back(ExprV::LTE(Box::new(l), Box::new(r)), l, r, rest),
        operator_reads_back(ExprV::GTE(Box::new(l), Box::new(r)), l, r, rest),
        operator_reads_back(ExprV::Add(Box::new(l), Box::new(r)), l, r, rest),
        operator_reads_back(ExprV::Sub(Box::new(l), Box::new(r)), l, r, rest),
        operator_reads_back(ExprV::Mul(Box::new(l), Box::new(r)), l, r, rest),
        operator_reads_back(ExprV::Div(Box::new(l), Box::new(r)), l, r, rest),
{
    reveal(expr_doc);
    reveal_strlit("<=");
    reveal_strlit("<");
    reveal_strlit(">=");
    reveal_strlit(">");
    reveal_strlit("==");
    reveal_strlit("!=");
    reveal_strlit("+");
    reveal_strlit("-");
    reveal_strlit("*");
    reveal_strlit("/");
    reveal_strlit(" ");
    reveal_strlit(" <= ");
    reveal_strlit(" < ");
    reveal_strlit(" >= ");
    reveal_strlit(" > ");
    reveal_strlit(" == ");
    reveal_strlit(" != ");
    reveal_strlit(" + ");
    reveal_strlit(" - ");
    reveal_strlit(" * ");
    reveal_strlit(" / ");
    assert(" <= "@ =~= " "@ + "<="@ + " "@);
    assert(" < "@ =~= " "@ + "<"@ + " "@);
    assert(" >= "@ =~= " "@ + ">="@ + " "@);
    assert(" > "@ =~= " "@ + ">"@ + " "@);
    assert(" == "@ =~= " "@ + "=="@ + " "@);
    assert(" != "@ =~= " "@ + "!="@ + " "@);
    assert(" + "@ =~= " "@ + "+"@ + " "@);
    assert(" - "@ =~= " "@ + "-"@ + " "@);
    assert(" * "@ =~= " "@ + "*"@ + " "@);
    assert(" / "@ =~= " "@ + "/"@ + " "@);
    lemma_reads_operator("=="@, rest, 0, 4);
    assert(operator_reads_back(ExprV::EQ(Box::new(l), Box::new(r)), l, r, rest)) by {
        let e = ExprV::EQ(Box::new(l), Box::new(r));
        assert(expr_doc(e, 0) == cat(expr_doc(l, 3), cat(DocV::Text(" == "@), expr_doc(r, 4))));
        assert(" == "@ + rest == " "@ + "=="@ + " "@ + rest);
        assert(op_index_at(" == "@ + rest, 0, group_ops(0), 0) matches Some((kk, _)) && kk == 4);
        assert(binary_of(0, 4, l, r) == e);
        assert(0 <= 0int <= 2 && match op_index_at(" == "@ + rest, 0, group_ops(0), 0) {
            Some((k, _)) => binary_of(0, k, l, r) == e,
            None => false,
        });
        assert(expr_doc(l, 3) == expr_doc(l, 3) && expr_doc(r, 4) == expr_doc(r, 4));
    }
    lemma_reads_operator("!="@, rest, 0, 5);
    assert(operator_reads_back(ExprV::NEQ(Box::new(l), Box::new(r)), l, r, rest)) by {
        let e = ExprV::NEQ(Box::new(l), Box::new(r));
        assert(expr_doc(e, 0) == cat(expr_doc(l, 3), cat(DocV::Text(" != "@), expr_doc(r, 4))));
        assert(" != "@ + rest == " "@ + "!="@ + " "@ + rest);
        assert(op_index_at(" != "@ + rest, 0, group_ops(0), 0) matches Some((kk, _)) && kk == 5);
        assert(binary_of(0, 5, l, r) == e);
        assert(0 <= 0int <= 2 && match op_index_at(" != "@ + rest, 0, group_ops(0), 0) {
            Some((k, _)) => binary_of(0, k, l, r) == e,
            None => false,
        });
        assert(expr_doc(l, 3) == expr_doc(l, 3) && expr_doc(r, 4) == expr_doc(r, 4));
    }
    lemma_reads_operator("<"@, rest, 0, 1);
    assert(operator_reads_back(ExprV::LT(Box::new(l), Box::new(r)), l, r, rest)) by {
        let e = ExprV::LT(Box::new(l), Box::new(r));
        assert(expr_doc(e, 0) == cat(expr_doc(l, 3), cat(DocV::Text(" < "@), expr_doc(r, 4))));
        assert(" < "@ + rest == " "@ + "<"@ + " "@ + rest);
        assert(op_index_at(" < "@ + rest, 0, group_ops(0), 0) matches Some((kk, _)) && kk == 1);
        assert(binary_of(0, 1, l, r) == e);
        assert(0 <= 0int <= 2 && match op_index_at(" < "@ + rest, 0, group_ops(0), 0) {
            Some((k, _)) => binary_of(0, k, l, r) == e,
            None => false,
        });
        assert(expr_doc(l, 3) == expr_doc(l, 3) && expr_doc(r, 4) == expr_doc(r, 4));
    }
    lemma_reads_operator(">"@, rest, 0, 3);
    assert(operator_reads_back(ExprV::GT(Box::new(l), Box::new(r)), l, r, rest)) by {
        let e = ExprV::GT(Box::new(l), Box::new(r));
        assert(expr_doc(e, 0) == cat(expr_doc(l, 3), cat(DocV::Text(" > "@), expr_doc(r, 4))));
        assert(" > "@ + rest == " "@ + ">"@ + " "@ + rest);
        assert(op_index_at(" > "@ + rest, 0, group_ops(0), 0) matches Some((kk, _)) && kk == 3);
        assert(binary_of(0, 3, l, r) == e);
        assert(0 <= 0int <= 2 && match op_index_at(" > "@ + rest, 0, group_ops(0), 0) {
            Some((k, _)) => binary_of(0, k, l, r) == e,
            None => false,
        });
        assert(expr_doc(l, 3) == expr_doc(l, 3) && expr_doc(r, 4) == expr_doc(r, 4));
    }
    lemma_reads_operator("<="@, rest, 0, 0);
    assert(operator_reads_back(ExprV::LTE(Box::new(l), Box::new(r)), l, r, rest)) by {
        let e = ExprV::LTE(Box::new(l), Box::new(r));
        assert(expr_doc(e, 0) == cat(expr_doc(l, 3), cat(DocV::Text(" <= "@), expr_doc(r, 4))));
        assert(" <= "@ + rest == " "@ + "<="@ + " "@ + rest);
        assert(op_index_at(" <= "@ + rest, 0, group_ops(0), 0) matches Some((kk, _)) && kk == 0);
        assert(binary_of(0, 0, l, r) == e);
        assert(0 <= 0int <= 2 && match op_index_at(" <= "@ + rest, 0, group_ops(0), 0) {
            Some((k, _)) => binary_of(0, k, l, r) == e,
            None => false,
        });
        assert(expr_doc(l, 3) == expr_doc(l, 3) && expr_doc(r, 4) == expr_doc(r, 4));
    }
    lemma_reads_operator(">="@, rest, 0, 2);
    assert(operator_reads_back(ExprV::GTE(Box::new(l), Box::new(r)), l, r, rest)) by {
        let e = ExprV::GTE(Box::new(l), Box::new(r));
        assert(expr_doc(e, 0) == cat(expr_doc(l, 3), cat(DocV::Text(" >= "@), expr_doc(r, 4))));
        assert(" >= "@ + rest == " "@ + ">="@ + " "@ + rest);
        assert(op_index_at(" >= "@ + rest, 0, group_ops(0), 0) matches Some((kk, _)) && kk == 2);
        assert(binary_of(0, 2, l, r) == e);
        assert(0 <= 0int <= 2 && match op_index_at(" >= "@ + rest, 0, group_ops(0), 0) {
            Some((k, _)) => binary_of(0, k, l, r) == e,
            None => false,
        });
        assert(expr_doc(l, 3) == expr_doc(l, 3) && expr_doc(r, 4) == expr_doc(r, 4));
    }
    lemma_reads_operator("+"@, rest, 1, 0);
    assert(operator_reads_back(ExprV::Add(Box::new(l), Box::new(r)), l, r, rest)) by {
        let e = ExprV::Add(Box::new(l), Box::new(r));
        assert(expr_doc(e, 0) == cat(expr_doc(l, 4), cat(DocV::Text(" + "@), expr_doc(r, 4))));
        assert(" + "@ + rest == " "@ + "+"@ + " "@ + rest);
        assert(op_index_at(" + "@ + rest, 0, group_ops(1), 0) matches Some((kk, _)) && kk == 0);
        assert(binary_of(1, 0, l, r) == e);
        assert(0 <= 1int <= 2 && match op_index_at(" + "@ + rest, 0, group_ops(1), 0) {
            Some((k, _)) => binary_of(1, k, l, r) == e,
            None => false,
        });
        assert(expr_doc(l, 4) == expr_doc(l, 4) && expr_doc(r, 4) == expr_doc(r, 4));
    }
    lemma_reads_operator("-"@, rest, 1, 1);
    assert(operator_reads_back(ExprV::Sub(Box::new(l), Box::new(r)), l, r, rest)) by {
        let e = ExprV::Sub(Box::new(l), Box::new(r));
        assert(expr_doc(e, 0) == cat(expr_doc(l, 4), cat(DocV::Text(" - "@), expr_doc(r, 5))));
        assert(" - "@ + rest == " "@ + "-"@ + " "@ + rest);
        assert(op_index_at(" - "@ + rest, 0, group_ops(1), 0) matches Some((kk, _)) && kk == 1);
        assert(binary_of(1, 1, l, r) == e);
        assert(0 <= 1int <= 2 && match op_index_at(" - "@ + rest, 0, group_ops(1), 0) {
            Some((k, _)) => binary_of(1, k, l, r) == e,
            None => false,
        });
        assert(expr_doc(l, 4) == expr_doc(l, 4) && expr_doc(r, 5) == expr_doc(r, 5));
    }
    lemma_reads_operator("*"@, rest, 2, 0);
    assert(operator_reads_back(ExprV::Mul(Box::new(l), Box::new(r)), l, r, rest)) by {
        let e = ExprV::Mul(Box::new(l), Box::new(r));
        assert(expr_doc(e, 0) == cat(expr_doc(l, 5), cat(DocV::Text(" * "@), expr_doc(r, 5))));
        assert(" * "@ + rest == " "@ + "*"@ + " "@ + rest);
        assert(op_index_at(" * "@ + rest, 0, group_ops(2), 0) matches Some((kk, _)) && kk == 0);
        assert(binary_of(2, 0, l, r) == e);
        assert(0 <= 2int <= 2 && match op_index_at(" * "@ + rest, 0, group_ops(2), 0) {
            Some((k, _)) => binary_of(2, k, l, r) == e,
            None => false,
        });
        assert(expr_doc(l, 5) == expr_doc(l, 5) && expr_doc(r, 5) == expr_doc(r, 5));
    }
    lemma_reads_operator("/"@, rest, 2, 1);
    assert(operator_reads_back(ExprV::Div(Box::new(l), Box::new(r)), l, r, rest)) by {
        let e = ExprV::Div(Box::new(l), Box::new(r));
        assert(expr_doc(e, 0) == cat(expr_doc(l, 5), cat(DocV::Text(" / "@), expr_doc(r, 6))));
        assert(" / "@ + rest == " "@ + "/"@ + " "@ + rest);
        assert(op_index_at(" / "@ + rest, 0, group_ops(2), 0) matches Some((kk, _)) && kk == 1);
        assert(binary_of(2, 1, l, r) == e);
        assert(0 <= 2int <= 2 && match op_index_at(" / "@ + rest, 0, group_ops(2), 0) {
            Some((k, _)) => binary_of(2, k, l, r) == e,
            None => false,
        });
        assert(expr_doc(l, 5) == expr_doc(l, 5) && expr_doc(r, 6) == expr_doc(r, 6));
    }
}

/// The document of `l and r` or `l or r`, at the outermost level, is the
/// left operand's document, a text that the parser reads as the keyword
/// `kw`, and the right operand's document, in that order.
pub open spec fn connective_reads_back(e: ExprV, l: ExprV, r: ExprV, kw: Seq<char>, rest: Seq<char>) -> bool {
    match expr_doc(e, 0) {
        DocV::Concat(a, t) => match *t {
            DocV::Concat(o, b) => match *o {
                DocV::Text(op) => {
                    &&& exists|pl: nat, pr: nat| *a == expr_doc(l, pl) && *b == expr_doc(r, pr)
                    &&& keyword_at(op + rest, 0, kw) is Some
                },
                _ => false,
            },
            _ => false,
        },
        _ => false,
    }
}

/// The document of `not x`, at the outermost level, is a text that the
/// parser reads as the keyword `not`, then the operand's document.
pub open spec fn not_reads_back(x: ExprV, rest: Seq<char>) -> bool {
    match expr_doc(ExprV::Not(Box::new(x)), 0) {
        DocV::Concat(o, d) => match *o {
            DocV::Text(op) => *d == expr_doc(x, 6) && keyword_at(op + rest, 0, "not"@) is Some,
            _ => false,
        },
        _ => false,
    }
}

/// Printing `and`, `or` and `not` and parsing them back gives the same
/// connective: `l and r` prints the left operand, a text read as `and`, then
/// the right operand (likewise `or`), and `not x` prints a text read as `not`
/// before its operand.
pub proof fn law_printed_connective_reads_back(l: ExprV, r: ExprV, rest: Seq<char>)
    ensures
        connective_reads_back(ExprV::And(Box::new(l), Box::new(r)), l, r, "and"@, rest),
        connective_reads_back(ExprV::Or(Box::new(l), Box::new(r)), l, r, "or"@, rest),
        not_reads_back(l, rest),
{
    reveal(expr_doc);
    reveal_strlit(" and ");
    reveal_strlit(" or ");
    reveal_strlit("not ");
    reveal_strlit("and");
    reveal_strlit("or");
    reveal_strlit("not");
    let s1 = " and "@ + rest;
    assert(s1[0] == ' ' && s1[1] == 'a' && s1[4] == ' ');
    assert(skip_ws(s1, 1) == 1);
    assert(s1.subrange(1, 4) =~= "and"@);
    assert(keyword_at(s1, 0, "and"@) is Some);
    let s2 = " or "@ + rest;
    assert(s2[0] == ' ' && s2[1] == 'o' && s2[3] == ' ');
    assert(skip_ws(s2, 1) == 1);
    assert(s2.subrange(1, 3) =~= "or"@);
    assert(keyword_at(s2, 0, "or"@) is Some);
    let s3 = "not "@ + rest;
    assert(s3[0] == 'n' && s3[3] == ' ');
    assert(skip_ws(s3, 0) == 0);
    assert(s3.subrange(0, 3) =~= "not"@);
    assert(keyword_at(s3, 0, "not"@) is Some);
    assert(connective_reads_back(ExprV::And(Box::new(l), Box::new(r)), l, r, "and"@, rest)) by {
        assert(expr_doc(ExprV::And(Box::new(l), Box::new(r)), 0) == cat(
            expr_doc(l, 2),
            cat(DocV::Text(" and "@), expr_doc(r, 2)),
        ));
        assert(expr_doc(l, 2) == expr_doc(l, 2) && expr_doc(r, 2) == expr_doc(r, 2));
    }
    assert(connective_reads_back(ExprV::Or(Box::new(l), Box::new(r)), l, r, "or"@, rest)) by {
        assert(expr_doc(ExprV::Or(Box::new(l), Box::new(r)), 0) == cat(
            expr_doc(l, 1),
            cat(DocV::Text(" or "@), expr_doc(r, 1)),
        ));
        assert(expr_doc(l, 1) == expr_doc(l, 1) && expr_doc(r, 1) == expr_doc(r, 1));
    }
}

} // verus!
