//! Fresh temporaries and labels: every temporary that the translation
//! writes is written by one instruction only, and every label is placed by
//! one instruction only, in one program and across the programs that one
//! generator translates one after another.
use vstd::prelude::*;
use vstd::multiset::Multiset;
use crate::ast::{ExprV, FunctionV, StmtV};
use crate::tac::{
    chain_code, closing_labels, expr_code, exprs_code, function_code, lemma_chain_code_mono,
    lemma_expr_code_mono, lemma_exprs_code_mono, lemma_function_code_mono, lemma_stmt_code_mono,
    lemma_stmts_code_mono, label_name, program_code, stmt_code, stmts_code, temp_name, with_final_return, StmtCode,
    TacFunctionV, TacInstrV,
};
use crate::text::{decimal, digit_char};

verus! {

broadcast use vstd::multiset::group_multiset_axioms;

/// The temporary an instruction writes, if any.
pub open spec fn target_of(i: TacInstrV) -> Option<Seq<char>> {
    match i {
        TacInstrV::Binary { target, .. } => Some(target),
        TacInstrV::Unary { target, .. } => Some(target),
        TacInstrV::Construct { target, .. } => Some(target),
        TacInstrV::Call { target, .. } => target,
        _ => None,
    }
}

/// The temporaries written by a list of instructions, each as often as it
/// is written.
pub open spec fn written(s: Seq<TacInstrV>) -> Multiset<Seq<char>>
    decreases s.len(),
{
    if s.len() == 0 {
        Multiset::empty()
    } else {
        match target_of(s.last()) {
            Some(x) => written(s.drop_last()).insert(x),
            None => written(s.drop_last()),
        }
    }
}

/// The temporaries written by the instructions of a list of functions.
pub open spec fn written_in(fs: Seq<TacFunctionV>) -> Multiset<Seq<char>>
    decreases fs.len(),
{
    if fs.len() == 0 {
        Multiset::empty()
    } else {
        written_in(fs.drop_last()).add(written(fs.last().instructions))
    }
}

/// Each temporary written at most once, and each numbered from `lo` up to
/// (not including) `hi`.
pub open spec fn fresh(m: Multiset<Seq<char>>, lo: nat, hi: nat) -> bool {
    &&& forall|x: Seq<char>| #[trigger] m.count(x) <= 1
    &&& forall|x: Seq<char>|
        #[trigger] m.count(x) > 0 ==> exists|k: nat| lo <= k < hi && x == temp_name(k)
}

/// Different numbers have different numerals.
proof fn lemma_decimal_injective(a: nat, b: nat)
    requires
        decimal(a) == decimal(b),
    ensures
        a == b,
    decreases a,
{
    lemma_decimal_len(a);
    lemma_decimal_len(b);
    if a < 10 && b < 10 {
        assert(decimal(a)[0] == digit_char(a));
        assert(decimal(b)[0] == digit_char(b));
    } else if a >= 10 && b >= 10 {
        let da = decimal(a / 10);
        let db = decimal(b / 10);
        assert(decimal(a) == da.push(digit_char(a % 10)));
        assert(decimal(b) == db.push(digit_char(b % 10)));
        assert(decimal(a).last() == digit_char(a % 10));
        assert(decimal(b).last() == digit_char(b % 10));
        assert(decimal(a).drop_last() =~= da);
        assert(decimal(b).drop_last() =~= db);
        lemma_decimal_injective(a / 10, b / 10);
    } else if a < 10 {
        lemma_decimal_len(b / 10);
        assert(decimal(b) == decimal(b / 10).push(digit_char(b % 10)));
    } else {
        lemma_decimal_len(a / 10);
        assert(decimal(a) == decimal(a / 10).push(digit_char(a % 10)));
    }
}

/// A numeral has at least one digit.
proof fn lemma_decimal_len(n: nat)
    ensures
        decimal(n).len() >= 1,
    decreases n,
{
    if n >= 10 {
        lemma_decimal_len(n / 10);
    }
}

/// Different numbers name different temporaries.
proof fn lemma_temp_name_injective(a: nat, b: nat)
    requires
        temp_name(a) == temp_name(b),
    ensures
        a == b,
{
    assert(temp_name(a).drop_first() =~= decimal(a));
    assert(temp_name(b).drop_first() =~= decimal(b));
    lemma_decimal_injective(a, b);
}

/// Two fresh groups from ranges one after the other are fresh together.
proof fn lemma_fresh_add(m1: Multiset<Seq<char>>, m2: Multiset<Seq<char>>, a: nat, b: nat, c: nat)
    requires
        fresh(m1, a, b),
        fresh(m2, b, c),
        a <= b <= c,
    ensures
        fresh(m1.add(m2), a, c),
{
    assert forall|x: Seq<char>| #[trigger] m1.add(m2).count(x) <= 1 by {
        if m1.count(x) > 0 && m2.count(x) > 0 {
            let k1 = choose|k: nat| a <= k < b && x == temp_name(k);
            let k2 = choose|k: nat| b <= k < c && x == temp_name(k);
            lemma_temp_name_injective(k1, k2);
        }
    }
    assert forall|x: Seq<char>| #[trigger] m1.add(m2).count(x) > 0 implies exists|k: nat|
        a <= k < c && x == temp_name(k) by {
        if m1.count(x) > 0 {
            let k1 = choose|k: nat| a <= k < b && x == temp_name(k);
            assert(a <= k1 < c && x == temp_name(k1));
        } else {
            let k2 = choose|k: nat| b <= k < c && x == temp_name(k);
            assert(a <= k2 < c && x == temp_name(k2));
        }
    }
}

/// Nothing written is fresh in any range.
proof fn lemma_fresh_empty(a: nat, b: nat)
    ensures
        fresh(Multiset::<Seq<char>>::empty(), a, b),
{
}

/// The temporaries written by two lists of instructions one after the other.
proof fn lemma_written_append(a: Seq<TacInstrV>, b: Seq<TacInstrV>)
    ensures
        written(a + b) == written(a).add(written(b)),
    decreases b.len(),
{
    if b.len() == 0 {
        assert(a + b =~= a);
        assert(written(a).add(written(b)) =~= written(a));
    } else {
        lemma_written_append(a, b.drop_last());
        assert((a + b).drop_last() =~= a + b.drop_last());
        assert((a + b).last() == b.last());
        assert(written(a + b) =~= written(a).add(written(b)));
    }
}

/// The temporaries written by the functions of two lists.
proof fn lemma_written_in_append(a: Seq<TacFunctionV>, b: Seq<TacFunctionV>)
    ensures
        written_in(a + b) == written_in(a).add(written_in(b)),
    decreases b.len(),
{
    if b.len() == 0 {
        assert(a + b =~= a);
        assert(written_in(a).add(written_in(b)) =~= written_in(a));
    } else {
        lemma_written_in_append(a, b.drop_last());
        assert((a + b).drop_last() =~= a + b.drop_last());
        assert((a + b).last() == b.last());
        assert(written_in(a + b) =~= written_in(a).add(written_in(b)));
    }
}

/// Instructions that write no temporary.
proof fn lemma_written_none(s: Seq<TacInstrV>)
    requires
        forall|i: int| 0 <= i < s.len() ==> target_of(#[trigger] s[i]) is None,
    ensures
        written(s) == Multiset::<Seq<char>>::empty(),
    decreases s.len(),
{
    if s.len() > 0 {
        assert(target_of(s[s.len() - 1]) is None);
        lemma_written_none(s.drop_last());
    }
}

/// Writing one more temporary, numbered `n`, after instructions fresh up to
/// `n`.
proof fn lemma_fresh_push(instrs: Seq<TacInstrV>, x: TacInstrV, lo: nat, n: nat)
    requires
        fresh(written(instrs), lo, n),
        lo <= n,
        target_of(x) == Some(temp_name(n)),
    ensures
        fresh(written(instrs.push(x)), lo, n + 1),
{
    let one = Multiset::<Seq<char>>::singleton(temp_name(n));
    assert(instrs.push(x).drop_last() =~= instrs);
    assert(written(instrs.push(x)) == written(instrs).insert(temp_name(n)));
    assert(fresh(one, n, n + 1)) by {
        assert forall|y: Seq<char>| #[trigger] one.count(y) > 0 implies exists|k: nat| n <= k < n + 1 && y == temp_name(k) by {
            assert(n <= n < n + 1 && y == temp_name(n));
        }
    }
    lemma_fresh_add(written(instrs), one, lo, n, n + 1);
    assert(written(instrs).insert(temp_name(n)) =~= written(instrs).add(one));
}

/// The temporaries written by an expression's code are fresh, numbered from
/// where its translation starts to where it ends.
pub proof fn lemma_expr_fresh(e: ExprV, t: nat)
    ensures
        fresh(written(expr_code(e, t).instrs), t, expr_code(e, t).temps),
        t <= expr_code(e, t).temps,
    decreases e,
{
    lemma_expr_code_mono(e, t);
    match e {
        ExprV::Add(l, r) | ExprV::Sub(l, r) | ExprV::Mul(l, r) | ExprV::Div(l, r) | ExprV::EQ(l, r)
        | ExprV::NEQ(l, r) | ExprV::GT(l, r) | ExprV::LT(l, r) | ExprV::GTE(l, r) | ExprV::LTE(l, r)
        | ExprV::And(l, r) | ExprV::Or(l, r) => {
            let lc = expr_code(*l, t);
            let rc = expr_code(*r, lc.temps);
            lemma_expr_fresh(*l, t);
            lemma_expr_fresh(*r, lc.temps);
            lemma_written_append(lc.instrs, rc.instrs);
            lemma_fresh_add(written(lc.instrs), written(rc.instrs), t, lc.temps, rc.temps);
            let c = expr_code(e, t);
            lemma_fresh_push(lc.instrs + rc.instrs, c.instrs.last(), t, rc.temps);
            assert(c.instrs == (lc.instrs + rc.instrs).push(c.instrs.last()));
        },
        ExprV::Not(x) => {
            let xc = expr_code(*x, t);
            lemma_expr_fresh(*x, t);
            let c = expr_code(e, t);
            lemma_fresh_push(xc.instrs, c.instrs.last(), t, xc.temps);
            assert(c.instrs == xc.instrs.push(c.instrs.last()));
        },
        ExprV::COk(x) | ExprV::CErr(x) | ExprV::CJust(x) | ExprV::Unwrap(x) | ExprV::IsError(x)
        | ExprV::IsNothing(x) | ExprV::Propagate(x) => {
            let xc = expr_code(*x, t);
            lemma_expr_fresh(*x, t);
            let c = expr_code(e, t);
            lemma_fresh_push(xc.instrs, c.instrs.last(), t, xc.temps);
            assert(c.instrs == xc.instrs.push(c.instrs.last()));
        },
        ExprV::FuncCall(_, items) | ExprV::ListValue(items) | ExprV::Tuple(items) | ExprV::Constructor(_, items) => {
            let ac = exprs_code(items, t);
            lemma_exprs_fresh(items, t);
            let c = expr_code(e, t);
            lemma_fresh_push(ac.instrs, c.instrs.last(), t, ac.temps);
            assert(c.instrs == ac.instrs.push(c.instrs.last()));
        },
        ExprV::CNothing => {
            let c = expr_code(e, t);
            lemma_fresh_push(Seq::<TacInstrV>::empty(), c.instrs.last(), t, t);
            assert(c.instrs == Seq::<TacInstrV>::empty().push(c.instrs.last()));
        },
        ExprV::Lambda(_) => {
            let c = expr_code(e, t);
            lemma_written_none(c.instrs);
        },
        _ => {},
    }
}

/// The temporaries written by the code of a list of expressions are fresh.
pub proof fn lemma_exprs_fresh(es: Seq<ExprV>, t: nat)
    ensures
        fresh(written(exprs_code(es, t).instrs), t, exprs_code(es, t).temps),
        t <= exprs_code(es, t).temps,
    decreases es,
{
    lemma_exprs_code_mono(es, t);
    if es.len() > 0 {
        let init = exprs_code(es.drop_last(), t);
        let last = expr_code(es.last(), init.temps);
        lemma_exprs_fresh(es.drop_last(), t);
        lemma_expr_fresh(es.last(), init.temps);
        lemma_written_append(init.instrs, last.instrs);
        lemma_fresh_add(written(init.instrs), written(last.instrs), t, init.temps, last.temps);
    }
}

/// The temporaries written by a piece of code: by its instructions and by
/// the functions completed with it.
pub open spec fn code_written(c: StmtCode) -> Multiset<Seq<char>> {
    written(c.instrs).add(written_in(c.funcs))
}

/// Closing labels write no temporary.
proof fn lemma_closing_written(ends: Seq<Seq<char>>)
    ensures
        written(closing_labels(ends)) == Multiset::<Seq<char>>::empty(),
    decreases ends.len(),
{
    if ends.len() > 0 {
        lemma_closing_written(ends.drop_first());
        let c = closing_labels(ends);
        assert(c.drop_last() =~= closing_labels(ends.drop_first()));
    }
}

/// The final return writes no temporary.
proof fn lemma_final_return_written(instrs: Seq<TacInstrV>)
    ensures
        written(with_final_return(instrs)) == written(instrs),
{
    if !(instrs.len() > 0 && instrs.last() is Return) {
        assert(instrs.push(TacInstrV::Return(None)).drop_last() =~= instrs);
    }
}

/// Instructions followed by one that writes no temporary.
proof fn lemma_written_push_none(instrs: Seq<TacInstrV>, x: TacInstrV)
    requires
        target_of(x) is None,
    ensures
        written(instrs.push(x)) == written(instrs),
{
    assert(instrs.push(x).drop_last() =~= instrs);
}

/// The temporaries written by a statement's code, and by the functions it
/// defines, are fresh, numbered from where its translation starts to where
/// it ends.
#[verifier::spinoff_prover]
#[verifier::rlimit(80)]
pub proof fn lemma_stmt_fresh(s: StmtV, t: nat, l: nat)
    ensures
        fresh(code_written(stmt_code(s, t, l)), t, stmt_code(s, t, l).temps),
    decreases s,
{
    reveal(stmt_code);
    reveal(stmts_code);
    reveal(chain_code);
    reveal(function_code);
    lemma_stmt_code_mono(s, t, l);
    let c = stmt_code(s, t, l);
    let none = Multiset::<Seq<char>>::empty();
    match s {
        StmtV::VarDeclaration(_, e) | StmtV::ValDeclaration(_, e) | StmtV::Assignment(_, e) | StmtV::Return(e) => {
            let ec = expr_code(e, t);
            lemma_expr_fresh(e, t);
            lemma_written_push_none(ec.instrs, c.instrs.last());
            assert(c.instrs == ec.instrs.push(c.instrs.last()));
            assert(code_written(c) =~= written(ec.instrs));
        },
        StmtV::Block(ss) => {
            lemma_stmts_fresh(ss, t, l);
        },
        StmtV::Sequence(a, b) => {
            let ca = stmt_code(*a, t, l);
            let cb = stmt_code(*b, ca.temps, ca.labels);
            lemma_stmt_fresh(*a, t, l);
            lemma_stmt_fresh(*b, ca.temps, ca.labels);
            lemma_stmt_code_mono(*a, t, l);
            lemma_stmt_code_mono(*b, ca.temps, ca.labels);
            lemma_then_fresh(ca, cb, t);
        },
        StmtV::IfThenElse(cond, th, el) => {
            let l1: nat = if el is Some { l + 3 } else { l + 2 };
            let cc = expr_code(cond, t);
            let tc = stmt_code(*th, cc.temps, l1);
            lemma_stmt_fresh(*th, cc.temps, l1);
            if let Some(e) = el {
                lemma_stmt_fresh(*e, tc.temps, tc.labels);
            }
            lemma_if_fresh(cond, *th, el, t, l);
        },
        StmtV::IfChain { branches, else_branch } => {
            let ch = chain_code(branches, else_branch is Some, t, l);
            lemma_chain_fresh(branches, else_branch is Some, t, l);
            if let Some(e) = else_branch {
                lemma_stmt_fresh(*e, ch.temps, ch.labels);
            }
            lemma_if_chain_fresh(branches, else_branch, t, l);
        },
        StmtV::While(cond, b) => {
            lemma_stmt_fresh(*b, expr_code(cond, t).temps, l + 3);
            lemma_while_fresh(cond, *b, t, l);
        },
        StmtV::For(n, e, b) => {
            lemma_stmt_fresh(*b, expr_code(e, t).temps, l);
            lemma_for_fresh(n, e, *b, t, l);
        },
        StmtV::FuncDef(f) => {
            lemma_function_fresh(f, t, l);
        },
        _ => {
            lemma_written_none(c.instrs);
            assert(code_written(c) =~= none);
            lemma_fresh_empty(t, c.temps);
        },
    }
}

/// A conditional: its condition's temporaries, then its branches'.
#[verifier::spinoff_prover]
proof fn lemma_if_fresh(cond: ExprV, th: StmtV, el: Option<Box<StmtV>>, t: nat, l: nat)
    requires
        ({
            let l1: nat = if el is Some { l + 3 } else { l + 2 };
            let cc = expr_code(cond, t);
            let tc = stmt_code(th, cc.temps, l1);
            &&& fresh(code_written(tc), cc.temps, tc.temps)
            &&& (el matches Some(e) ==> fresh(code_written(stmt_code(*e, tc.temps, tc.labels)), tc.temps, stmt_code(*e, tc.temps, tc.labels).temps))
        }),
    ensures
        fresh(
            code_written(stmt_code(StmtV::IfThenElse(cond, Box::new(th), el), t, l)),
            t,
            stmt_code(StmtV::IfThenElse(cond, Box::new(th), el), t, l).temps,
        ),
{
    reveal(stmt_code);
    let s = StmtV::IfThenElse(cond, Box::new(th), el);
    let c = stmt_code(s, t, l);
    let l1: nat = if el is Some { l + 3 } else { l + 2 };
    let cc = expr_code(cond, t);
    let tc = stmt_code(th, cc.temps, l1);
    lemma_expr_fresh(cond, t);
    lemma_stmt_code_mono(th, cc.temps, l1);
    let k0: int = cc.instrs.len() as int;
    let three = c.instrs.subrange(k0, k0 + 3);
    let head = cc.instrs + three;
    lemma_written_none(three);
    lemma_written_append(cc.instrs, three);
    lemma_written_append(head, tc.instrs);
    let body0 = head + tc.instrs;
    let body = body0.push(TacInstrV::Goto(crate::tac::label_name("end_if"@, l + 1)));
    lemma_written_push_none(body0, body.last());
    lemma_fresh_add(written(cc.instrs), code_written(tc), t, cc.temps, tc.temps);
    match el {
        Some(e) => {
            let ec = stmt_code(*e, tc.temps, tc.labels);
            lemma_stmt_code_mono(*e, tc.temps, tc.labels);
            let el_l = crate::tac::label_name("else"@, l + 2);
            let b1 = body + seq![TacInstrV::Label(el_l)];
            lemma_written_none(seq![TacInstrV::Label(el_l)]);
            lemma_written_append(body, seq![TacInstrV::Label(el_l)]);
            lemma_written_append(b1, ec.instrs);
            let b2 = b1 + ec.instrs;
            let end_l = crate::tac::label_name("end_if"@, l + 1);
            lemma_written_none(seq![TacInstrV::Label(end_l)]);
            lemma_written_append(b2, seq![TacInstrV::Label(end_l)]);
            assert(c.instrs == b2 + seq![TacInstrV::Label(end_l)]);
            lemma_written_in_append(tc.funcs, ec.funcs);
            lemma_fresh_add(written(cc.instrs).add(code_written(tc)), code_written(ec), t, tc.temps, ec.temps);
            assert(code_written(c) =~= written(cc.instrs).add(code_written(tc)).add(code_written(ec)));
        },
        None => {
            lemma_written_push_none(body, c.instrs.last());
            assert(c.instrs == body.push(c.instrs.last()));
            assert(code_written(c) =~= written(cc.instrs).add(code_written(tc)));
        },
    }
}

/// A chain of conditionals: its branches' temporaries, then its `else`'s.
#[verifier::spinoff_prover]
proof fn lemma_if_chain_fresh(branches: Seq<(ExprV, StmtV)>, else_branch: Option<Box<StmtV>>, t: nat, l: nat)
    requires
        ({
            let ch = chain_code(branches, else_branch is Some, t, l);
            &&& fresh(written(ch.instrs).add(written_in(ch.funcs)), t, ch.temps)
            &&& (else_branch matches Some(e) ==> fresh(code_written(stmt_code(*e, ch.temps, ch.labels)), ch.temps, stmt_code(*e, ch.temps, ch.labels).temps))
        }),
    ensures
        fresh(
            code_written(stmt_code(StmtV::IfChain { branches, else_branch }, t, l)),
            t,
            stmt_code(StmtV::IfChain { branches, else_branch }, t, l).temps,
        ),
{
    reveal(stmt_code);
    let s = StmtV::IfChain { branches, else_branch };
    let c = stmt_code(s, t, l);
    let none = Multiset::<Seq<char>>::empty();
    let ch = chain_code(branches, else_branch is Some, t, l);
    lemma_chain_code_mono(branches, else_branch is Some, t, l);
    let ec = match else_branch {
        Some(e) => stmt_code(*e, ch.temps, ch.labels),
        None => crate::tac::plain_code(seq![], ch.temps, ch.labels),
    };
    match else_branch {
        Some(e) => {
            lemma_stmt_code_mono(*e, ch.temps, ch.labels);
        },
        None => {
            assert(written(ec.instrs) =~= none);
            assert(written_in(ec.funcs) =~= none);
            assert(code_written(ec) =~= none);
            lemma_fresh_empty(ch.temps, ch.temps);
        },
    }
    lemma_closing_written(ch.ends);
    lemma_written_append(ch.instrs, ec.instrs);
    lemma_written_append(ch.instrs + ec.instrs, closing_labels(ch.ends));
    lemma_written_in_append(ch.funcs, ec.funcs);
    let chw = written(ch.instrs).add(written_in(ch.funcs));
    lemma_fresh_add(chw, code_written(ec), t, ch.temps, ec.temps);
    assert(code_written(c) =~= chw.add(code_written(ec)));
}

/// A `while` loop: its condition's temporaries, then its body's.
#[verifier::spinoff_prover]
proof fn lemma_while_fresh(cond: ExprV, b: StmtV, t: nat, l: nat)
    requires
        fresh(code_written(stmt_code(b, expr_code(cond, t).temps, l + 3)), expr_code(cond, t).temps, stmt_code(b, expr_code(cond, t).temps, l + 3).temps),
    ensures
        fresh(
            code_written(stmt_code(StmtV::While(cond, Box::new(b)), t, l)),
            t,
            stmt_code(StmtV::While(cond, Box::new(b)), t, l).temps,
        ),
{
    reveal(stmt_code);
    let s = StmtV::While(cond, Box::new(b));
    let c = stmt_code(s, t, l);
    let start_l = crate::tac::label_name("loop_start"@, l);
    let body_l = crate::tac::label_name("loop_body"@, l + 1);
    let end_l = crate::tac::label_name("loop_end"@, l + 2);
    let cc = expr_code(cond, t);
    let bc = stmt_code(b, cc.temps, l + 3);
    lemma_expr_fresh(cond, t);
    lemma_stmt_code_mono(b, cc.temps, l + 3);
    let p0 = seq![TacInstrV::Label(start_l)];
    let p1 = seq![
        TacInstrV::IfGoto { condition: cc.operand, label: body_l },
        TacInstrV::Goto(end_l),
        TacInstrV::Label(body_l),
    ];
    let p2 = seq![TacInstrV::Goto(start_l), TacInstrV::Label(end_l)];
    assert(c.instrs == p0 + cc.instrs + p1 + bc.instrs + p2);
    assert(c.funcs == bc.funcs);
    lemma_written_none(p0);
    lemma_written_none(p1);
    lemma_written_none(p2);
    lemma_written_append(p0, cc.instrs);
    lemma_written_append(p0 + cc.instrs, p1);
    lemma_written_append(p0 + cc.instrs + p1, bc.instrs);
    lemma_written_append(p0 + cc.instrs + p1 + bc.instrs, p2);
    lemma_fresh_add(written(cc.instrs), code_written(bc), t, cc.temps, bc.temps);
    assert(code_written(c) =~= written(cc.instrs).add(code_written(bc)));
}

/// A `for` loop: its collection's temporaries, then its body's.
#[verifier::spinoff_prover]
proof fn lemma_for_fresh(n: Seq<char>, e: ExprV, b: StmtV, t: nat, l: nat)
    requires
        fresh(code_written(stmt_code(b, expr_code(e, t).temps, l)), expr_code(e, t).temps, stmt_code(b, expr_code(e, t).temps, l).temps),
    ensures
        fresh(
            code_written(stmt_code(StmtV::For(n, e, Box::new(b)), t, l)),
            t,
            stmt_code(StmtV::For(n, e, Box::new(b)), t, l).temps,
        ),
{
    reveal(stmt_code);
    let s = StmtV::For(n, e, Box::new(b));
    let c = stmt_code(s, t, l);
    let cc = expr_code(e, t);
    let bc = stmt_code(b, cc.temps, l);
    lemma_expr_fresh(e, t);
    lemma_stmt_code_mono(b, cc.temps, l);
    let n0: int = cc.instrs.len() as int;
    let head = c.instrs.subrange(0, n0 + 1);
    assert(head =~= cc.instrs.push(c.instrs[n0]));
    assert(c.instrs =~= head + bc.instrs);
    lemma_written_push_none(cc.instrs, c.instrs[n0]);
    lemma_written_append(head, bc.instrs);
    lemma_fresh_add(written(cc.instrs), code_written(bc), t, cc.temps, bc.temps);
    assert(code_written(c) =~= written(cc.instrs).add(code_written(bc)));
}

/// One piece of code after another: their temporaries together are fresh.
proof fn lemma_then_fresh(a: StmtCode, b: StmtCode, t: nat)
    requires
        fresh(code_written(a), t, a.temps),
        fresh(code_written(b), a.temps, b.temps),
        t <= a.temps <= b.temps,
    ensures
        fresh(code_written(crate::tac::then_code(a, b)), t, b.temps),
{
    lemma_written_append(a.instrs, b.instrs);
    lemma_written_in_append(a.funcs, b.funcs);
    lemma_fresh_add(code_written(a), code_written(b), t, a.temps, b.temps);
    assert(code_written(crate::tac::then_code(a, b)) =~= code_written(a).add(code_written(b)));
}

/// The temporaries written by the code of a list of statements are fresh.
pub proof fn lemma_stmts_fresh(ss: Seq<StmtV>, t: nat, l: nat)
    ensures
        fresh(code_written(stmts_code(ss, t, l)), t, stmts_code(ss, t, l).temps),
    decreases ss,
{
    reveal(stmt_code);
    reveal(stmts_code);
    reveal(chain_code);
    reveal(function_code);
    lemma_stmts_code_mono(ss, t, l);
    if ss.len() == 0 {
        let c = stmts_code(ss, t, l);
        assert(written(c.instrs) =~= Multiset::<Seq<char>>::empty());
        assert(written_in(c.funcs) =~= Multiset::<Seq<char>>::empty());
        assert(code_written(c) =~= Multiset::<Seq<char>>::empty());
        lemma_fresh_empty(t, t);
    } else {
        let init = stmts_code(ss.drop_last(), t, l);
        lemma_stmts_fresh(ss.drop_last(), t, l);
        lemma_stmts_code_mono(ss.drop_last(), t, l);
        lemma_stmt_fresh(ss.last(), init.temps, init.labels);
        lemma_stmt_code_mono(ss.last(), init.temps, init.labels);
        lemma_then_fresh(init, stmt_code(ss.last(), init.temps, init.labels), t);
    }
}

/// The temporaries written by a function definition's code are fresh.
pub proof fn lemma_function_fresh(f: FunctionV, t: nat, l: nat)
    ensures
        fresh(code_written(function_code(f, t, l)), t, function_code(f, t, l).temps),
    decreases f,
{
    reveal(stmt_code);
    reveal(stmts_code);
    reveal(chain_code);
    reveal(function_code);
    let c = function_code(f, t, l);
    match f.body {
        Some(b) => {
            let bc = stmt_code(*b, t, l);
            lemma_stmt_fresh(*b, t, l);
            let last = c.funcs.last();
            assert(c.funcs.drop_last() =~= bc.funcs);
            lemma_final_return_written(bc.instrs);
            assert(written(c.instrs) =~= Multiset::<Seq<char>>::empty());
            assert(code_written(c) =~= code_written(bc));
        },
        None => {
            let inner = seq![TacInstrV::Comment("empty function body"@)];
            lemma_written_none(inner);
            lemma_final_return_written(inner);
            assert(c.funcs.drop_last() =~= Seq::<TacFunctionV>::empty());
            assert(c.funcs.last().instructions == with_final_return(inner));
            assert(written_in(c.funcs.drop_last()) =~= Multiset::<Seq<char>>::empty());
            assert(written_in(c.funcs) == written_in(c.funcs.drop_last()).add(written(c.funcs.last().instructions)));
            assert(written_in(c.funcs) =~= Multiset::<Seq<char>>::empty());
            assert(written(c.instrs) =~= Multiset::<Seq<char>>::empty());
            assert(code_written(c) =~= Multiset::<Seq<char>>::empty());
            lemma_fresh_empty(t, t);
        },
    }
}

/// The temporaries written by the branches of a chain, and by the functions
/// they define, are fresh.
#[verifier::spinoff_prover]
#[verifier::rlimit(80)]
pub proof fn lemma_chain_fresh(branches: Seq<(ExprV, StmtV)>, has_else: bool, t: nat, l: nat)
    ensures
        fresh(
            written(chain_code(branches, has_else, t, l).instrs).add(written_in(chain_code(branches, has_else, t, l).funcs)),
            t,
            chain_code(branches, has_else, t, l).temps,
        ),
    decreases branches,
{
    reveal(stmt_code);
    reveal(stmts_code);
    reveal(chain_code);
    reveal(function_code);
    lemma_chain_code_mono(branches, has_else, t, l);
    let ch = chain_code(branches, has_else, t, l);
    if branches.len() == 0 {
        assert(written(ch.instrs) =~= Multiset::<Seq<char>>::empty());
        assert(written_in(ch.funcs) =~= Multiset::<Seq<char>>::empty());
        assert(written(ch.instrs).add(written_in(ch.funcs)) =~= Multiset::<Seq<char>>::empty());
        lemma_fresh_empty(t, t);
    } else {
        let has_rest = branches.len() > 1 || has_else;
        let l1: nat = if has_rest { l + 3 } else { l + 2 };
        let cc = expr_code(branches[0].0, t);
        let tc = stmt_code(branches[0].1, cc.temps, l1);
        lemma_expr_fresh(branches[0].0, t);
        lemma_stmt_fresh(branches[0].1, cc.temps, l1);
        lemma_stmt_code_mono(branches[0].1, cc.temps, l1);
        let rest = chain_code(branches.drop_first(), has_else, tc.temps, tc.labels);
        lemma_chain_fresh(branches.drop_first(), has_else, tc.temps, tc.labels);
        lemma_chain_code_mono(branches.drop_first(), has_else, tc.temps, tc.labels);
        let n0: int = cc.instrs.len() as int;
        let p1 = ch.instrs.subrange(n0, n0 + 3);
        let n1: int = n0 + 3 + (tc.instrs.len() as int);
        let hl: int = if has_rest { 2 } else { 1 };
        let p2 = ch.instrs.subrange(n1, n1 + hl);
        assert(ch.instrs =~= cc.instrs + p1 + tc.instrs + p2 + rest.instrs);
        lemma_written_none(p1);
        lemma_written_none(p2);
        lemma_written_append(cc.instrs, p1);
        lemma_written_append(cc.instrs + p1, tc.instrs);
        lemma_written_append(cc.instrs + p1 + tc.instrs, p2);
        lemma_written_append(cc.instrs + p1 + tc.instrs + p2, rest.instrs);
        lemma_written_in_append(tc.funcs, rest.funcs);
        let rw = written(rest.instrs).add(written_in(rest.funcs));
        lemma_fresh_add(written(cc.instrs), code_written(tc), t, cc.temps, tc.temps);
        lemma_fresh_add(written(cc.instrs).add(code_written(tc)), rw, t, tc.temps, rest.temps);
        assert(written(ch.instrs).add(written_in(ch.funcs)) =~= written(cc.instrs).add(code_written(tc)).add(rw));
    }
}

/// The temporaries written by a translated program are fresh: each written
/// by one instruction of one of its functions, numbered from the
/// generator's counter before to its counter after.
pub proof fn lemma_program_fresh(ss: Seq<StmtV>, t: nat, l: nat)
    ensures
        fresh(written_in(program_code(ss, t, l)), t, stmts_code(ss, t, l).temps),
{
    let c = stmts_code(ss, t, l);
    lemma_stmts_fresh(ss, t, l);
    let p = program_code(ss, t, l);
    assert(p.drop_last() =~= c.funcs);
    lemma_final_return_written(c.instrs);
    assert(written_in(p) =~= code_written(c));
}

/// Temporaries are never written twice: in one translated program every
/// temporary is written by one instruction only, and a generator that
/// translates one program after another never writes again a temporary of
/// an earlier program.
pub proof fn law_temporaries_written_once(s1: Seq<StmtV>, s2: Seq<StmtV>, t: nat, l: nat)
    ensures
        ({
            let c1 = stmts_code(s1, t, l);
            let c2 = stmts_code(s2, c1.temps, c1.labels);
            fresh(written_in(program_code(s1, t, l)).add(written_in(program_code(s2, c1.temps, c1.labels))), t, c2.temps)
        }),
{
    let c1 = stmts_code(s1, t, l);
    lemma_stmts_code_mono(s1, t, l);
    lemma_stmts_code_mono(s2, c1.temps, c1.labels);
    lemma_program_fresh(s1, t, l);
    lemma_program_fresh(s2, c1.temps, c1.labels);
    lemma_fresh_add(
        written_in(program_code(s1, t, l)),
        written_in(program_code(s2, c1.temps, c1.labels)),
        t,
        c1.temps,
        stmts_code(s2, c1.temps, c1.labels).temps,
    );
}

// ---------------------------------------------------------------------------
// Labels
// ---------------------------------------------------------------------------

/// The label an instruction places, if any.
pub open spec fn label_of(i: TacInstrV) -> Option<Seq<char>> {
    match i {
        TacInstrV::Label(x) => Some(x),
        _ => None,
    }
}

/// The labels placed by a list of instructions, each as often as it is
/// placed.
pub open spec fn placed(s: Seq<TacInstrV>) -> Multiset<Seq<char>>
    decreases s.len(),
{
    if s.len() == 0 {
        Multiset::empty()
    } else {
        match label_of(s.last()) {
            Some(x) => placed(s.drop_last()).insert(x),
            None => placed(s.drop_last()),
        }
    }
}

/// The labels placed by the instructions of a list of functions.
pub open spec fn placed_in(fs: Seq<TacFunctionV>) -> Multiset<Seq<char>>
    decreases fs.len(),
{
    if fs.len() == 0 {
        Multiset::empty()
    } else {
        placed_in(fs.drop_last()).add(placed(fs.last().instructions))
    }
}

/// The labels placed by a piece of code and by the functions completed with
/// it.
pub open spec fn code_placed(c: StmtCode) -> Multiset<Seq<char>> {
    placed(c.instrs).add(placed_in(c.funcs))
}

/// Each label placed at most once, and each numbered from `lo` up to (not
/// including) `hi`, whatever its prefix.
pub open spec fn fresh_labels(m: Multiset<Seq<char>>, lo: nat, hi: nat) -> bool {
    &&& forall|x: Seq<char>| #[trigger] m.count(x) <= 1
    &&& forall|x: Seq<char>|
        #[trigger] m.count(x) > 0 ==> exists|k: nat, p: Seq<char>| lo <= k < hi && x == label_name(p, k)
}

/// The part of a text after its last `_`.
pub open spec fn after_last_underscore(x: Seq<char>) -> Seq<char>
    decreases x.len(),
{
    if x.len() == 0 || x.last() == '_' {
        seq![]
    } else {
        after_last_underscore(x.drop_last()).push(x.last())
    }
}

/// A numeral has no `_`.
proof fn lemma_decimal_no_underscore(n: nat)
    ensures
        forall|i: int| 0 <= i < decimal(n).len() ==> #[trigger] decimal(n)[i] != '_',
    decreases n,
{
    if n >= 10 {
        lemma_decimal_no_underscore(n / 10);
        let d = decimal(n / 10);
        assert(decimal(n) == d.push(digit_char(n % 10)));
        assert forall|i: int| 0 <= i < decimal(n).len() implies #[trigger] decimal(n)[i] != '_' by {
            if i < d.len() {
                assert(decimal(n)[i] == d[i]);
            }
        }
    }
}

/// After the last `_` of `p_n` stands the numeral of `n`.
proof fn lemma_after_last_underscore(p: Seq<char>, d: Seq<char>)
    requires
        forall|i: int| 0 <= i < d.len() ==> #[trigger] d[i] != '_',
    ensures
        after_last_underscore(p + seq!['_'] + d) == d,
    decreases d.len(),
{
    let x = p + seq!['_'] + d;
    if d.len() == 0 {
        assert(x.last() == '_');
    } else {
        assert(x.last() == d.last());
        assert(x.drop_last() =~= p + seq!['_'] + d.drop_last());
        lemma_after_last_underscore(p, d.drop_last());
        assert(d.last() == d[d.len() - 1]);
        assert(d.drop_last().push(d.last()) =~= d);
    }
}

/// Labels with different numbers differ, whatever their prefixes.
proof fn lemma_label_name_injective(p: Seq<char>, a: nat, q: Seq<char>, b: nat)
    requires
        label_name(p, a) == label_name(q, b),
    ensures
        a == b,
{
    lemma_decimal_no_underscore(a);
    lemma_decimal_no_underscore(b);
    lemma_after_last_underscore(p, decimal(a));
    lemma_after_last_underscore(q, decimal(b));
    lemma_decimal_injective(a, b);
}

/// Two groups of labels from ranges one after the other are fresh together.
proof fn lemma_labels_add(m1: Multiset<Seq<char>>, m2: Multiset<Seq<char>>, a: nat, b: nat, c: nat)
    requires
        fresh_labels(m1, a, b),
        fresh_labels(m2, b, c),
        a <= b <= c,
    ensures
        fresh_labels(m1.add(m2), a, c),
{
    assert forall|x: Seq<char>| #[trigger] m1.add(m2).count(x) <= 1 by {
        if m1.count(x) > 0 && m2.count(x) > 0 {
            let (k1, p1) = choose|k: nat, p: Seq<char>| a <= k < b && x == label_name(p, k);
            let (k2, p2) = choose|k: nat, p: Seq<char>| b <= k < c && x == label_name(p, k);
            lemma_label_name_injective(p1, k1, p2, k2);
        }
    }
    assert forall|x: Seq<char>| #[trigger] m1.add(m2).count(x) > 0 implies exists|k: nat, p: Seq<char>|
        a <= k < c && x == label_name(p, k) by {
        if m1.count(x) > 0 {
            let (k1, p1) = choose|k: nat, p: Seq<char>| a <= k < b && x == label_name(p, k);
            assert(a <= k1 < c && x == label_name(p1, k1));
        } else {
            let (k2, p2) = choose|k: nat, p: Seq<char>| b <= k < c && x == label_name(p, k);
            assert(a <= k2 < c && x == label_name(p2, k2));
        }
    }
}

/// One label, numbered `k`.
proof fn lemma_label_one(p: Seq<char>, k: nat)
    ensures
        fresh_labels(Multiset::singleton(label_name(p, k)), k, k + 1),
{
    let m = Multiset::<Seq<char>>::singleton(label_name(p, k));
    assert forall|x: Seq<char>| #[trigger] m.count(x) > 0 implies exists|j: nat, q: Seq<char>|
        k <= j < k + 1 && x == label_name(q, j) by {
        assert(k <= k < k + 1 && x == label_name(p, k));
    }
}

/// No label is fresh in any range.
proof fn lemma_labels_empty(a: nat, b: nat)
    ensures
        fresh_labels(Multiset::<Seq<char>>::empty(), a, b),
{
}

/// The labels placed by two lists of instructions one after the other.
proof fn lemma_placed_append(a: Seq<TacInstrV>, b: Seq<TacInstrV>)
    ensures
        placed(a + b) == placed(a).add(placed(b)),
    decreases b.len(),
{
    if b.len() == 0 {
        assert(a + b =~= a);
        assert(placed(a).add(placed(b)) =~= placed(a));
    } else {
        lemma_placed_append(a, b.drop_last());
        assert((a + b).drop_last() =~= a + b.drop_last());
        assert((a + b).last() == b.last());
        assert(placed(a + b) =~= placed(a).add(placed(b)));
    }
}

/// The labels placed by the functions of two lists.
proof fn lemma_placed_in_append(a: Seq<TacFunctionV>, b: Seq<TacFunctionV>)
    ensures
        placed_in(a + b) == placed_in(a).add(placed_in(b)),
    decreases b.len(),
{
    if b.len() == 0 {
        assert(a + b =~= a);
        assert(placed_in(a).add(placed_in(b)) =~= placed_in(a));
    } else {
        lemma_placed_in_append(a, b.drop_last());
        assert((a + b).drop_last() =~= a + b.drop_last());
        assert((a + b).last() == b.last());
        assert(placed_in(a + b) =~= placed_in(a).add(placed_in(b)));
    }
}

/// Instructions that place no label.
proof fn lemma_placed_none(s: Seq<TacInstrV>)
    requires
        forall|i: int| 0 <= i < s.len() ==> label_of(#[trigger] s[i]) is None,
    ensures
        placed(s) == Multiset::<Seq<char>>::empty(),
    decreases s.len(),
{
    if s.len() > 0 {
        assert(label_of(s[s.len() - 1]) is None);
        lemma_placed_none(s.drop_last());
    }
}

/// The code of an expression places no label.
proof fn lemma_expr_no_labels(e: ExprV, t: nat)
    ensures
        forall|i: int| 0 <= i < expr_code(e, t).instrs.len() ==> label_of(#[trigger] expr_code(e, t).instrs[i]) is None,
    decreases e,
{
    match e {
        ExprV::Add(l, r) | ExprV::Sub(l, r) | ExprV::Mul(l, r) | ExprV::Div(l, r) | ExprV::EQ(l, r)
        | ExprV::NEQ(l, r) | ExprV::GT(l, r) | ExprV::LT(l, r) | ExprV::GTE(l, r) | ExprV::LTE(l, r)
        | ExprV::And(l, r) | ExprV::Or(l, r) => {
            let lc = expr_code(*l, t);
            let rc = expr_code(*r, lc.temps);
            lemma_expr_no_labels(*l, t);
            lemma_expr_no_labels(*r, lc.temps);
            let c = expr_code(e, t);
            assert forall|i: int| 0 <= i < c.instrs.len() implies label_of(#[trigger] c.instrs[i]) is None by {
                if i < lc.instrs.len() {
                    assert(c.instrs[i] == lc.instrs[i]);
                } else if i < lc.instrs.len() + rc.instrs.len() {
                    assert(c.instrs[i] == rc.instrs[i - lc.instrs.len()]);
                }
            }
        },
        ExprV::Not(x) | ExprV::COk(x) | ExprV::CErr(x) | ExprV::CJust(x) | ExprV::Unwrap(x)
        | ExprV::IsError(x) | ExprV::IsNothing(x) | ExprV::Propagate(x) => {
            let xc = expr_code(*x, t);
            lemma_expr_no_labels(*x, t);
            let c = expr_code(e, t);
            assert forall|i: int| 0 <= i < c.instrs.len() implies label_of(#[trigger] c.instrs[i]) is None by {
                if i < xc.instrs.len() {
                    assert(c.instrs[i] == xc.instrs[i]);
                }
            }
        },
        ExprV::FuncCall(_, items) | ExprV::ListValue(items) | ExprV::Tuple(items) | ExprV::Constructor(_, items) => {
            let ac = exprs_code(items, t);
            lemma_exprs_no_labels(items, t);
            let c = expr_code(e, t);
            assert forall|i: int| 0 <= i < c.instrs.len() implies label_of(#[trigger] c.instrs[i]) is None by {
                if i < ac.instrs.len() {
                    assert(c.instrs[i] == ac.instrs[i]);
                }
            }
        },
        _ => {},
    }
}

/// The code of a list of expressions places no label.
proof fn lemma_exprs_no_labels(es: Seq<ExprV>, t: nat)
    ensures
        forall|i: int| 0 <= i < exprs_code(es, t).instrs.len() ==> label_of(#[trigger] exprs_code(es, t).instrs[i]) is None,
    decreases es,
{
    if es.len() > 0 {
        let init = exprs_code(es.drop_last(), t);
        let last = expr_code(es.last(), init.temps);
        lemma_exprs_no_labels(es.drop_last(), t);
        lemma_expr_no_labels(es.last(), init.temps);
        let c = exprs_code(es, t);
        assert forall|i: int| 0 <= i < c.instrs.len() implies label_of(#[trigger] c.instrs[i]) is None by {
            if i < init.instrs.len() {
                assert(c.instrs[i] == init.instrs[i]);
            } else {
                assert(c.instrs[i] == last.instrs[i - init.instrs.len()]);
            }
        }
    }
}

/// The labels placed by an expression's code: none.
proof fn lemma_expr_placed(e: ExprV, t: nat)
    ensures
        placed(expr_code(e, t).instrs) == Multiset::<Seq<char>>::empty(),
{
    lemma_expr_no_labels(e, t);
    lemma_placed_none(expr_code(e, t).instrs);
}

/// The labels of a list, each as often as it occurs.
pub open spec fn label_set(ends: Seq<Seq<char>>) -> Multiset<Seq<char>>
    decreases ends.len(),
{
    if ends.len() == 0 {
        Multiset::empty()
    } else {
        label_set(ends.drop_first()).insert(ends[0])
    }
}

/// The closing labels of a chain place its end labels.
proof fn lemma_closing_placed(ends: Seq<Seq<char>>)
    ensures
        placed(closing_labels(ends)) == label_set(ends),
    decreases ends.len(),
{
    if ends.len() > 0 {
        lemma_closing_placed(ends.drop_first());
        let c = closing_labels(ends);
        assert(c.drop_last() =~= closing_labels(ends.drop_first()));
    }
}

/// Two or three labels numbered one after the other are fresh together.
proof fn lemma_labels_own(p1: Seq<char>, p2: Seq<char>, p3: Seq<char>, k: nat, three: bool)
    ensures
        fresh_labels(
            Multiset::singleton(label_name(p1, k)).add(Multiset::singleton(label_name(p2, k + 1))).add(
                if three { Multiset::singleton(label_name(p3, k + 2)) } else { Multiset::empty() },
            ),
            k,
            if three { k + 3 } else { k + 2 },
        ),
{
    lemma_label_one(p1, k);
    lemma_label_one(p2, k + 1);
    lemma_labels_add(Multiset::singleton(label_name(p1, k)), Multiset::singleton(label_name(p2, k + 1)), k, k + 1, k + 2);
    if three {
        lemma_label_one(p3, k + 2);
        lemma_labels_add(
            Multiset::singleton(label_name(p1, k)).add(Multiset::singleton(label_name(p2, k + 1))),
            Multiset::singleton(label_name(p3, k + 2)),
            k,
            k + 2,
            k + 3,
        );
    } else {
        lemma_labels_empty(k + 2, k + 2);
        lemma_labels_add(
            Multiset::singleton(label_name(p1, k)).add(Multiset::singleton(label_name(p2, k + 1))),
            Multiset::empty(),
            k,
            k + 2,
            k + 2,
        );
    }
}

/// The labels placed by a statement's code, and by the functions it
/// defines, are fresh, numbered from where its translation starts to where
/// it ends.
#[verifier::spinoff_prover]
#[verifier::rlimit(80)]
pub proof fn lemma_stmt_labels(s: StmtV, t: nat, l: nat)
    ensures
        fresh_labels(code_placed(stmt_code(s, t, l)), l, stmt_code(s, t, l).labels),
    decreases s,
{
    reveal(stmt_code);
    reveal(stmts_code);
    reveal(chain_code);
    reveal(function_code);
    lemma_stmt_code_mono(s, t, l);
    let c = stmt_code(s, t, l);
    match s {
        StmtV::VarDeclaration(_, e) | StmtV::ValDeclaration(_, e) | StmtV::Assignment(_, e) | StmtV::Return(e) => {
            let ec = expr_code(e, t);
            lemma_expr_placed(e, t);
            assert(c.instrs == ec.instrs.push(c.instrs.last()));
            assert(c.instrs.drop_last() =~= ec.instrs);
            assert(code_placed(c) =~= Multiset::<Seq<char>>::empty());
            lemma_labels_empty(l, l);
        },
        StmtV::Block(ss) => {
            lemma_stmts_labels(ss, t, l);
        },
        StmtV::Sequence(a, b) => {
            let ca = stmt_code(*a, t, l);
            let cb = stmt_code(*b, ca.temps, ca.labels);
            lemma_stmt_labels(*a, t, l);
            lemma_stmt_labels(*b, ca.temps, ca.labels);
            lemma_stmt_code_mono(*a, t, l);
            lemma_stmt_code_mono(*b, ca.temps, ca.labels);
            lemma_then_labels(ca, cb, l);
        },
        StmtV::IfThenElse(cond, th, el) => {
            let l1: nat = if el is Some { l + 3 } else { l + 2 };
            let cc = expr_code(cond, t);
            let tc = stmt_code(*th, cc.temps, l1);
            lemma_stmt_labels(*th, cc.temps, l1);
            if let Some(e) = el {
                lemma_stmt_labels(*e, tc.temps, tc.labels);
            }
            lemma_if_labels(cond, *th, el, t, l);
        },
        StmtV::IfChain { branches, else_branch } => {
            let ch = chain_code(branches, else_branch is Some, t, l);
            lemma_chain_labels(branches, else_branch is Some, t, l);
            if let Some(e) = else_branch {
                lemma_stmt_labels(*e, ch.temps, ch.labels);
            }
            lemma_if_chain_labels(branches, else_branch, t, l);
        },
        StmtV::While(cond, b) => {
            lemma_stmt_labels(*b, expr_code(cond, t).temps, l + 3);
            lemma_while_labels(cond, *b, t, l);
        },
        StmtV::For(n, e, b) => {
            let cc = expr_code(e, t);
            let bc = stmt_code(*b, cc.temps, l);
            lemma_stmt_labels(*b, cc.temps, l);
            lemma_expr_placed(e, t);
            let head = cc.instrs.push(c.instrs[cc.instrs.len() as int]);
            assert(c.instrs =~= head + bc.instrs);
            assert(head.drop_last() =~= cc.instrs);
            lemma_placed_append(head, bc.instrs);
            assert(code_placed(c) =~= code_placed(bc));
        },
        StmtV::FuncDef(f) => {
            lemma_function_labels(f, t, l);
        },
        _ => {
            lemma_placed_none(c.instrs);
            assert(code_placed(c) =~= Multiset::<Seq<char>>::empty());
            lemma_labels_empty(l, c.labels);
        },
    }
}

/// One piece of code after another: their labels together are fresh.
proof fn lemma_then_labels(a: StmtCode, b: StmtCode, l: nat)
    requires
        fresh_labels(code_placed(a), l, a.labels),
        fresh_labels(code_placed(b), a.labels, b.labels),
        l <= a.labels <= b.labels,
    ensures
        fresh_labels(code_placed(crate::tac::then_code(a, b)), l, b.labels),
{
    lemma_placed_append(a.instrs, b.instrs);
    lemma_placed_in_append(a.funcs, b.funcs);
    lemma_labels_add(code_placed(a), code_placed(b), l, a.labels, b.labels);
    assert(code_placed(crate::tac::then_code(a, b)) =~= code_placed(a).add(code_placed(b)));
}

/// A conditional: its own labels, then its branches'.
#[verifier::spinoff_prover]
#[verifier::rlimit(80)]
proof fn lemma_if_labels(cond: ExprV, th: StmtV, el: Option<Box<StmtV>>, t: nat, l: nat)
    requires
        ({
            let l1: nat = if el is Some { l + 3 } else { l + 2 };
            let cc = expr_code(cond, t);
            let tc = stmt_code(th, cc.temps, l1);
            &&& fresh_labels(code_placed(tc), l1, tc.labels)
            &&& (el matches Some(e) ==> fresh_labels(code_placed(stmt_code(*e, tc.temps, tc.labels)), tc.labels, stmt_code(*e, tc.temps, tc.labels).labels))
        }),
    ensures
        fresh_labels(
            code_placed(stmt_code(StmtV::IfThenElse(cond, Box::new(th), el), t, l)),
            l,
            stmt_code(StmtV::IfThenElse(cond, Box::new(th), el), t, l).labels,
        ),
{
    reveal(stmt_code);
    let s = StmtV::IfThenElse(cond, Box::new(th), el);
    let c = stmt_code(s, t, l);
    let l1: nat = if el is Some { l + 3 } else { l + 2 };
    let then_l = label_name("then"@, l);
    let end_l = label_name("end_if"@, l + 1);
    let else_l = if el is Some { label_name("else"@, l + 2) } else { end_l };
    let cc = expr_code(cond, t);
    let tc = stmt_code(th, cc.temps, l1);
    lemma_expr_placed(cond, t);
    lemma_stmt_code_mono(th, cc.temps, l1);
    let p1 = seq![
        TacInstrV::IfGoto { condition: cc.operand, label: then_l },
        TacInstrV::Goto(else_l),
        TacInstrV::Label(then_l),
    ];
    let g = seq![TacInstrV::Goto(end_l)];
    let body = cc.instrs + p1 + tc.instrs + g;
    let own = Multiset::singleton(then_l).add(Multiset::singleton(end_l)).add(
        if el is Some { Multiset::singleton(label_name("else"@, l + 2)) } else { Multiset::empty() },
    );
    lemma_labels_own("then"@, "end_if"@, "else"@, l, el is Some);
    lemma_placed_none(p1.drop_last());
    assert(placed(p1) =~= Multiset::singleton(then_l));
    lemma_placed_none(g);
    lemma_placed_append(cc.instrs, p1);
    lemma_placed_append(cc.instrs + p1, tc.instrs);
    lemma_placed_append(cc.instrs + p1 + tc.instrs, g);
    let lend = seq![TacInstrV::Label(end_l)];
    assert(lend.drop_last() =~= Seq::<TacInstrV>::empty());
    assert(placed(lend.drop_last()) == Multiset::<Seq<char>>::empty());
    assert(placed(lend) =~= Multiset::singleton(end_l));
    assert(placed(body) =~= Multiset::singleton(then_l).add(placed(tc.instrs)));
    lemma_labels_add(own, code_placed(tc), l, l1, tc.labels);
    match el {
        Some(e) => {
            let ec = stmt_code(*e, tc.temps, tc.labels);
            lemma_stmt_code_mono(*e, tc.temps, tc.labels);
            let le = seq![TacInstrV::Label(else_l)];
            assert(le.drop_last() =~= Seq::<TacInstrV>::empty());
            assert(placed(le.drop_last()) == Multiset::<Seq<char>>::empty());
            assert(placed(le) =~= Multiset::singleton(else_l));
            lemma_placed_append(body, le);
            lemma_placed_append(body + le, ec.instrs);
            lemma_placed_append(body + le + ec.instrs, lend);
            assert(c.instrs == body + le + ec.instrs + lend);
            lemma_placed_in_append(tc.funcs, ec.funcs);
            lemma_labels_add(own.add(code_placed(tc)), code_placed(ec), l, tc.labels, ec.labels);
            assert(code_placed(c) =~= own.add(code_placed(tc)).add(code_placed(ec)));
        },
        None => {
            assert(c.instrs == body + lend);
            lemma_placed_append(body, lend);
            assert(code_placed(c) =~= own.add(code_placed(tc)));
        },
    }
}

/// A chain of conditionals: its branches' labels, then its `else`'s and the
/// closing labels.
#[verifier::spinoff_prover]
proof fn lemma_if_chain_labels(branches: Seq<(ExprV, StmtV)>, else_branch: Option<Box<StmtV>>, t: nat, l: nat)
    requires
        ({
            let ch = chain_code(branches, else_branch is Some, t, l);
            &&& fresh_labels(placed(ch.instrs).add(placed_in(ch.funcs)).add(label_set(ch.ends)), l, ch.labels)
            &&& (else_branch matches Some(e) ==> fresh_labels(code_placed(stmt_code(*e, ch.temps, ch.labels)), ch.labels, stmt_code(*e, ch.temps, ch.labels).labels))
        }),
    ensures
        fresh_labels(
            code_placed(stmt_code(StmtV::IfChain { branches, else_branch }, t, l)),
            l,
            stmt_code(StmtV::IfChain { branches, else_branch }, t, l).labels,
        ),
{
    reveal(stmt_code);
    let s = StmtV::IfChain { branches, else_branch };
    let c = stmt_code(s, t, l);
    let ch = chain_code(branches, else_branch is Some, t, l);
    lemma_chain_code_mono(branches, else_branch is Some, t, l);
    let ec = match else_branch {
        Some(e) => stmt_code(*e, ch.temps, ch.labels),
        None => crate::tac::plain_code(seq![], ch.temps, ch.labels),
    };
    match else_branch {
        Some(e) => {
            lemma_stmt_code_mono(*e, ch.temps, ch.labels);
        },
        None => {
            assert(code_placed(ec) =~= Multiset::<Seq<char>>::empty());
            lemma_labels_empty(ch.labels, ch.labels);
        },
    }
    lemma_closing_placed(ch.ends);
    lemma_placed_append(ch.instrs, ec.instrs);
    lemma_placed_append(ch.instrs + ec.instrs, closing_labels(ch.ends));
    lemma_placed_in_append(ch.funcs, ec.funcs);
    let chp = placed(ch.instrs).add(placed_in(ch.funcs)).add(label_set(ch.ends));
    lemma_labels_add(chp, code_placed(ec), l, ch.labels, ec.labels);
    assert(code_placed(c) =~= chp.add(code_placed(ec)));
}

/// A `while` loop: its own labels, then its body's.
#[verifier::spinoff_prover]
proof fn lemma_while_labels(cond: ExprV, b: StmtV, t: nat, l: nat)
    requires
        fresh_labels(code_placed(stmt_code(b, expr_code(cond, t).temps, l + 3)), l + 3, stmt_code(b, expr_code(cond, t).temps, l + 3).labels),
    ensures
        fresh_labels(
            code_placed(stmt_code(StmtV::While(cond, Box::new(b)), t, l)),
            l,
            stmt_code(StmtV::While(cond, Box::new(b)), t, l).labels,
        ),
{
    reveal(stmt_code);
    let s = StmtV::While(cond, Box::new(b));
    let c = stmt_code(s, t, l);
    let start_l = label_name("loop_start"@, l);
    let body_l = label_name("loop_body"@, l + 1);
    let end_l = label_name("loop_end"@, l + 2);
    let cc = expr_code(cond, t);
    let bc = stmt_code(b, cc.temps, l + 3);
    lemma_expr_placed(cond, t);
    lemma_stmt_code_mono(b, cc.temps, l + 3);
    let p0 = seq![TacInstrV::Label(start_l)];
    let p1 = seq![
        TacInstrV::IfGoto { condition: cc.operand, label: body_l },
        TacInstrV::Goto(end_l),
        TacInstrV::Label(body_l),
    ];
    let p2 = seq![TacInstrV::Goto(start_l), TacInstrV::Label(end_l)];
    assert(c.instrs == p0 + cc.instrs + p1 + bc.instrs + p2);
    assert(p0.drop_last() =~= Seq::<TacInstrV>::empty());
    assert(p0.last() == TacInstrV::Label(start_l));
    assert(placed(p0.drop_last()) == Multiset::<Seq<char>>::empty());
    assert(placed(p0) == Multiset::<Seq<char>>::empty().insert(start_l));
    lemma_placed_none(p1.drop_last());
    assert(placed(p1) == placed(p1.drop_last()).insert(body_l));
    lemma_placed_none(p2.drop_last());
    assert(placed(p2) == placed(p2.drop_last()).insert(end_l));
    lemma_placed_append(p0, cc.instrs);
    lemma_placed_append(p0 + cc.instrs, p1);
    lemma_placed_append(p0 + cc.instrs + p1, bc.instrs);
    lemma_placed_append(p0 + cc.instrs + p1 + bc.instrs, p2);
    lemma_labels_own("loop_start"@, "loop_body"@, "loop_end"@, l, true);
    let own = Multiset::singleton(start_l).add(Multiset::singleton(body_l)).add(Multiset::singleton(end_l));
    lemma_labels_add(own, code_placed(bc), l, l + 3, bc.labels);
    assert(code_placed(c) =~= own.add(code_placed(bc)));
}

/// The labels placed by the code of a list of statements are fresh.
pub proof fn lemma_stmts_labels(ss: Seq<StmtV>, t: nat, l: nat)
    ensures
        fresh_labels(code_placed(stmts_code(ss, t, l)), l, stmts_code(ss, t, l).labels),
    decreases ss,
{
    reveal(stmt_code);
    reveal(stmts_code);
    reveal(chain_code);
    reveal(function_code);
    lemma_stmts_code_mono(ss, t, l);
    if ss.len() == 0 {
        let c = stmts_code(ss, t, l);
        assert(code_placed(c) =~= Multiset::<Seq<char>>::empty());
        lemma_labels_empty(l, l);
    } else {
        let init = stmts_code(ss.drop_last(), t, l);
        lemma_stmts_labels(ss.drop_last(), t, l);
        lemma_stmts_code_mono(ss.drop_last(), t, l);
        lemma_stmt_labels(ss.last(), init.temps, init.labels);
        lemma_stmt_code_mono(ss.last(), init.temps, init.labels);
        lemma_then_labels(init, stmt_code(ss.last(), init.temps, init.labels), l);
    }
}

/// The labels placed by a function definition's code are fresh.
pub proof fn lemma_function_labels(f: FunctionV, t: nat, l: nat)
    ensures
        fresh_labels(code_placed(function_code(f, t, l)), l, function_code(f, t, l).labels),
    decreases f,
{
    reveal(stmt_code);
    reveal(stmts_code);
    reveal(chain_code);
    reveal(function_code);
    let c = function_code(f, t, l);
    match f.body {
        Some(b) => {
            let bc = stmt_code(*b, t, l);
            lemma_stmt_labels(*b, t, l);
            assert(c.funcs.drop_last() =~= bc.funcs);
            lemma_final_return_placed(bc.instrs);
            assert(code_placed(c) =~= code_placed(bc));
        },
        None => {
            let inner = seq![TacInstrV::Comment("empty function body"@)];
            lemma_placed_none(inner);
            lemma_final_return_placed(inner);
            assert(c.funcs.drop_last() =~= Seq::<TacFunctionV>::empty());
            assert(c.funcs.last().instructions == with_final_return(inner));
            assert(placed_in(c.funcs.drop_last()) =~= Multiset::<Seq<char>>::empty());
            assert(placed_in(c.funcs) == placed_in(c.funcs.drop_last()).add(placed(c.funcs.last().instructions)));
            assert(code_placed(c) =~= Multiset::<Seq<char>>::empty());
            lemma_labels_empty(l, l);
        },
    }
}

/// The final return places no label.
proof fn lemma_final_return_placed(instrs: Seq<TacInstrV>)
    ensures
        placed(with_final_return(instrs)) == placed(instrs),
{
    if !(instrs.len() > 0 && instrs.last() is Return) {
        assert(instrs.push(TacInstrV::Return(None)).drop_last() =~= instrs);
    }
}

/// The labels placed by the branches of a chain, with its end labels that
/// are placed when it closes, are fresh.
#[verifier::spinoff_prover]
#[verifier::rlimit(80)]
pub proof fn lemma_chain_labels(branches: Seq<(ExprV, StmtV)>, has_else: bool, t: nat, l: nat)
    ensures
        fresh_labels(
            placed(chain_code(branches, has_else, t, l).instrs).add(placed_in(chain_code(branches, has_else, t, l).funcs)).add(
                label_set(chain_code(branches, has_else, t, l).ends),
            ),
            l,
            chain_code(branches, has_else, t, l).labels,
        ),
    decreases branches,
{
    reveal(stmt_code);
    reveal(stmts_code);
    reveal(chain_code);
    reveal(function_code);
    lemma_chain_code_mono(branches, has_else, t, l);
    let ch = chain_code(branches, has_else, t, l);
    if branches.len() == 0 {
        assert(placed(ch.instrs).add(placed_in(ch.funcs)).add(label_set(ch.ends)) =~= Multiset::<Seq<char>>::empty());
        lemma_labels_empty(l, l);
    } else {
        let has_rest = branches.len() > 1 || has_else;
        let then_l = label_name("then"@, l);
        let end_l = label_name("end_if"@, l + 1);
        let else_l = if has_rest { label_name("else"@, l + 2) } else { end_l };
        let l1: nat = if has_rest { l + 3 } else { l + 2 };
        let cc = expr_code(branches[0].0, t);
        let tc = stmt_code(branches[0].1, cc.temps, l1);
        lemma_expr_placed(branches[0].0, t);
        lemma_stmt_labels(branches[0].1, cc.temps, l1);
        lemma_stmt_code_mono(branches[0].1, cc.temps, l1);
        let rest = chain_code(branches.drop_first(), has_else, tc.temps, tc.labels);
        lemma_chain_labels(branches.drop_first(), has_else, tc.temps, tc.labels);
        lemma_chain_code_mono(branches.drop_first(), has_else, tc.temps, tc.labels);
        let p1 = seq![
            TacInstrV::IfGoto { condition: cc.operand, label: then_l },
            TacInstrV::Goto(else_l),
            TacInstrV::Label(then_l),
        ];
        let g = seq![TacInstrV::Goto(end_l)];
        let opt: Seq<TacInstrV> = if has_rest { seq![TacInstrV::Label(else_l)] } else { seq![] };
        let head = cc.instrs + p1 + tc.instrs + g + opt;
        assert(ch.instrs == head + rest.instrs);
        assert(ch.funcs == tc.funcs + rest.funcs);
        assert(ch.ends == seq![end_l] + rest.ends);
        assert((seq![end_l] + rest.ends).drop_first() =~= rest.ends);
        assert(label_set(ch.ends) == label_set(rest.ends).insert(end_l));
        lemma_placed_none(p1.drop_last());
        assert(placed(p1) == placed(p1.drop_last()).insert(then_l));
        lemma_placed_none(g);
        if has_rest {
            assert(opt.drop_last() =~= Seq::<TacInstrV>::empty());
        }
        lemma_placed_append(cc.instrs, p1);
        lemma_placed_append(cc.instrs + p1, tc.instrs);
        lemma_placed_append(cc.instrs + p1 + tc.instrs, g);
        lemma_placed_append(cc.instrs + p1 + tc.instrs + g, opt);
        lemma_placed_append(head, rest.instrs);
        lemma_placed_in_append(tc.funcs, rest.funcs);
        assert(placed(p1) =~= Multiset::singleton(then_l));
        if has_rest {
            assert(opt.last() == TacInstrV::Label(else_l));
            assert(placed(opt.drop_last()) == Multiset::<Seq<char>>::empty());
            assert(placed(opt) =~= Multiset::singleton(else_l));
        } else {
            assert(placed(opt) =~= Multiset::<Seq<char>>::empty());
        }
        let ph = placed(head);
        assert(ph =~= Multiset::singleton(then_l).add(placed(tc.instrs)).add(placed(opt)));
        let own = Multiset::singleton(then_l).add(Multiset::singleton(end_l)).add(
            if has_rest { Multiset::singleton(label_name("else"@, l + 2)) } else { Multiset::empty() },
        );
        lemma_labels_own("then"@, "end_if"@, "else"@, l, has_rest);
        let rp = placed(rest.instrs).add(placed_in(rest.funcs)).add(label_set(rest.ends));
        lemma_labels_add(own, code_placed(tc), l, l1, tc.labels);
        lemma_labels_add(own.add(code_placed(tc)), rp, l, tc.labels, rest.labels);
        assert(placed(ch.instrs).add(placed_in(ch.funcs)).add(label_set(ch.ends)) =~= own.add(code_placed(tc)).add(rp));
    }
}

/// Labels are never placed twice: in one translated program every label is
/// placed by one instruction only, and a generator that translates one
/// program after another never places again a label of an earlier program.
pub proof fn law_labels_placed_once(s1: Seq<StmtV>, s2: Seq<StmtV>, t: nat, l: nat)
    ensures
        ({
            let c1 = stmts_code(s1, t, l);
            let c2 = stmts_code(s2, c1.temps, c1.labels);
            fresh_labels(placed_in(program_code(s1, t, l)).add(placed_in(program_code(s2, c1.temps, c1.labels))), l, c2.labels)
        }),
{
    let c1 = stmts_code(s1, t, l);
    let c2 = stmts_code(s2, c1.temps, c1.labels);
    lemma_stmts_code_mono(s1, t, l);
    lemma_stmts_code_mono(s2, c1.temps, c1.labels);
    lemma_stmts_labels(s1, t, l);
    lemma_stmts_labels(s2, c1.temps, c1.labels);
    let p1 = program_code(s1, t, l);
    let p2 = program_code(s2, c1.temps, c1.labels);
    assert(p1.drop_last() =~= c1.funcs);
    assert(p2.drop_last() =~= c2.funcs);
    lemma_final_return_placed(c1.instrs);
    lemma_final_return_placed(c2.instrs);
    assert(placed_in(p1) =~= code_placed(c1));
    assert(placed_in(p2) =~= code_placed(c2));
    lemma_labels_add(placed_in(p1), placed_in(p2), l, c1.labels, c2.labels);
}

} // verus!
