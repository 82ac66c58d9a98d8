//! The grammar of statements and programs, over the characters of the
//! source, on top of the grammar of types and expressions.
use vstd::prelude::*;
use crate::ast::{
    branches_view, exprs_view, opt_stmt_view, lemma_branches_view, lemma_exprs_view, lemma_params_view,
    lemma_stmts_view, params_view, stmts_view,
    Expression, ExprV, FormalArgument, Function, FunctionV, Statement, StmtV, Type, TypeV,
};
use crate::parser::{
    char_at, char_at_exec, chars_of, expr_at, expr_exec, exprs_at, exprs_exec, identifier_at,
    identifier_exec, is_space, keyword_at, keyword_exec, rest_of, rest_text, separator_at,
    outcome, separator_exec, skip_ws, skip_ws_exec, text_at, text_at_exec, type_at, type_exec,
    ParseError,
};

verus! {

/// `var x = e` or `val x = e`.
pub open spec fn decl_at(s: Seq<char>, i: int, mutable: bool) -> Option<(StmtV, int)> {
    match keyword_at(s, i, if mutable { "var"@ } else { "val"@ }) {
        Some(k) => match identifier_at(s, k) {
            Some((n, m)) => match separator_at(s, m, '=') {
                Some(p) => match expr_at(s, p) {
                    Some((e, q)) => Some(
                        (
                            if mutable {
                                StmtV::VarDeclaration(n, e)
                            } else {
                                StmtV::ValDeclaration(n, e)
                            },
                            q,
                        ),
                    ),
                    None => None,
                },
                None => None,
            },
            None => None,
        },
        None => None,
    }
}

/// `x = e`.
pub open spec fn assignment_at(s: Seq<char>, i: int) -> Option<(StmtV, int)> {
    match identifier_at(s, i) {
        Some((n, m)) => match separator_at(s, m, '=') {
            Some(p) => match expr_at(s, p) {
                Some((e, q)) => Some((StmtV::Assignment(n, e), q)),
                None => None,
            },
            None => None,
        },
        None => None,
    }
}

/// `return e`.
pub open spec fn return_at(s: Seq<char>, i: int) -> Option<(StmtV, int)> {
    match keyword_at(s, i, "return"@) {
        Some(k) => match expr_at(s, skip_ws(s, k)) {
            Some((e, q)) => Some((StmtV::Return(e), q)),
            None => None,
        },
        None => None,
    }
}

/// The assertion statements: 0 for `assert`, 1 for `asserteq`, 2 for
/// `assertneq`, 3 for `assertfalse`, 4 for `asserttrue`.
pub open spec fn assert_word(kind: int) -> Seq<char> {
    if kind == 0 {
        "assert"@
    } else if kind == 1 {
        "asserteq"@
    } else if kind == 2 {
        "assertneq"@
    } else if kind == 3 {
        "assertfalse"@
    } else {
        "asserttrue"@
    }
}

/// The statement an assertion builds from its arguments, when it has as
/// many as it takes: two, or three for `asserteq` and `assertneq`.
pub open spec fn assertion_of(kind: int, args: Seq<ExprV>) -> Option<StmtV> {
    if kind == 1 || kind == 2 {
        if args.len() == 3 {
            Some(
                if kind == 1 {
                    StmtV::AssertEQ(args[0], args[1], args[2])
                } else {
                    StmtV::AssertNEQ(args[0], args[1], args[2])
                },
            )
        } else {
            None
        }
    } else if args.len() == 2 {
        Some(
            if kind == 0 {
                StmtV::Assert(args[0], args[1])
            } else if kind == 3 {
                StmtV::AssertFalse(args[0], args[1])
            } else {
                StmtV::AssertTrue(args[0], args[1])
            },
        )
    } else {
        None
    }
}

/// An assertion: its word, then its arguments in parentheses, the opening
/// one right after the word and its white space.
pub open spec fn assertion_at(s: Seq<char>, i: int, kind: int) -> Option<(StmtV, int)> {
    match keyword_at(s, i, assert_word(kind)) {
        Some(k) => if char_at(s, k, '(') {
            match exprs_at(s, k + 1) {
                Some((args, m)) => if char_at(s, m, ')') && assertion_of(kind, args) is Some {
                    Some((assertion_of(kind, args).unwrap(), m + 1))
                } else {
                    None
                },
                None => None,
            }
        } else {
            None
        },
        None => None,
    }
}

/// A formal argument `x: T`.
pub open spec fn formal_arg_at(s: Seq<char>, i: int) -> Option<((Seq<char>, TypeV), int)> {
    match identifier_at(s, skip_ws(s, i)) {
        Some((n, j)) => {
            let c = skip_ws(s, j);
            if char_at(s, c, ':') {
                match type_at(s, skip_ws(s, c + 1)) {
                    Some((t, k)) => Some(((n, t), k)),
                    None => None,
                }
            } else {
                None
            }
        },
        None => None,
    }
}

/// Formal arguments separated by commas; none when the first does not
/// parse.
pub open spec fn params_at(s: Seq<char>, i: int) -> (Seq<(Seq<char>, TypeV)>, int) {
    match formal_arg_at(s, i) {
        Some((p, j)) => params_rest(s, j, seq![p]),
        None => (seq![], i),
    }
}

/// More formal arguments, each after a comma.
pub open spec fn params_rest(s: Seq<char>, j: int, acc: Seq<(Seq<char>, TypeV)>) -> (Seq<(Seq<char>, TypeV)>, int)
    decreases s.len() - j,
{
    match separator_at(s, j, ',') {
        Some(k) => match formal_arg_at(s, k) {
            Some((p, m)) => if 0 <= j < m <= s.len() {
                params_rest(s, m, acc.push(p))
            } else {
                (acc, j)
            },
            None => (acc, j),
        },
        None => (acc, j),
    }
}

/// A statement: the first of these that parses: `var` and `val`
/// declarations, a chain of conditionals, a conditional, a `while` loop, a
/// `for` loop, the assertions, a test definition, a function definition, a
/// `return`, an assignment.
pub open spec fn statement_at(s: Seq<char>, i: int) -> Option<(StmtV, int)>
    decreases s.len() - i, 3int,
{
    if !(0 <= i <= s.len()) {
        None
    } else if decl_at(s, i, true) is Some {
        decl_at(s, i, true)
    } else if decl_at(s, i, false) is Some {
        decl_at(s, i, false)
    } else if if_chain_at(s, i) is Some {
        if_chain_at(s, i)
    } else if if_else_at(s, i) is Some {
        if_else_at(s, i)
    } else if while_at(s, i) is Some {
        while_at(s, i)
    } else if for_at(s, i) is Some {
        for_at(s, i)
    } else if assertion_at(s, i, 0) is Some {
        assertion_at(s, i, 0)
    } else if assertion_at(s, i, 1) is Some {
        assertion_at(s, i, 1)
    } else if assertion_at(s, i, 2) is Some {
        assertion_at(s, i, 2)
    } else if assertion_at(s, i, 3) is Some {
        assertion_at(s, i, 3)
    } else if assertion_at(s, i, 4) is Some {
        assertion_at(s, i, 4)
    } else if test_def_at(s, i) is Some {
        test_def_at(s, i)
    } else if func_def_at(s, i) is Some {
        func_def_at(s, i)
    } else if return_at(s, i) is Some {
        return_at(s, i)
    } else {
        assignment_at(s, i)
    }
}

/// `: s; ..; end`: statements separated by `;`, an optional `;` after the
/// last, and `end`.
pub open spec fn block_at(s: Seq<char>, i: int) -> Option<(StmtV, int)>
    decreases s.len() - i, 1int,
{
    let j = skip_ws(s, i + 1);
    if !(0 <= i < s.len()) || !char_at(s, i, ':') || !(i < j <= s.len()) {
        None
    } else {
        match statements_at(s, j) {
            Some((ss, m)) => {
                let c = skip_ws(s, m);
                let m1 = if char_at(s, c, ';') {
                    c + 1
                } else {
                    m
                };
                match keyword_at(s, skip_ws(s, m1), "end"@) {
                    Some(p) => Some((StmtV::Block(ss), p)),
                    None => None,
                }
            },
            None => None,
        }
    }
}

/// Statements separated by `;`; none when the first does not parse.
pub open spec fn statements_at(s: Seq<char>, i: int) -> Option<(Seq<StmtV>, int)>
    decreases s.len() - i, 4int,
{
    if !(0 <= i <= s.len()) {
        None
    } else {
        match statement_at(s, i) {
            Some((st, j)) => if i < j <= s.len() {
                Some(statements_rest(s, j, seq![st]))
            } else {
                Some((seq![st], j))
            },
            None => Some((seq![], i)),
        }
    }
}

/// More statements, each after a `;`.
pub open spec fn statements_rest(s: Seq<char>, j: int, acc: Seq<StmtV>) -> (Seq<StmtV>, int)
    decreases s.len() - j, 5int,
{
    match separator_at(s, j, ';') {
        Some(k) => if 0 <= j < k <= s.len() {
            match statement_at(s, k) {
                Some((st, m)) => if k <= m <= s.len() {
                    statements_rest(s, m, acc.push(st))
                } else {
                    (acc, j)
                },
                None => (acc, j),
            }
        } else {
            (acc, j)
        },
        None => (acc, j),
    }
}

/// `if c: ..; end`, then `elif c: ..; end` any number of times, then
/// optionally `else: ..; end`.
pub open spec fn if_chain_at(s: Seq<char>, i: int) -> Option<(StmtV, int)>
    decreases s.len() - i, 2int,
{
    match keyword_at(s, i, "if"@) {
        Some(k) => if 0 <= i < k <= s.len() {
            match expr_at(s, k) {
                Some((c, m)) => if k < m <= s.len() {
                    match block_at(s, m) {
                        Some((b, p)) => if m < p <= s.len() {
                            Some(chain_end_at(s, p, seq![(c, b)]))
                        } else {
                            None
                        },
                        None => None,
                    }
                } else {
                    None
                },
                None => None,
            }
        } else {
            None
        },
        None => None,
    }
}

/// The `elif` branches after the first branch, and the optional `else`.
pub open spec fn chain_end_at(s: Seq<char>, p: int, first: Seq<(ExprV, StmtV)>) -> (StmtV, int)
    decreases s.len() - p, 7int,
{
    let (branches, q) = elifs_rest(s, p, first);
    match keyword_at(s, q, "else"@) {
        Some(r) => if 0 <= p <= q < r <= s.len() {
            match block_at(s, r) {
                Some((e, t)) => (StmtV::IfChain { branches, else_branch: Some(Box::new(e)) }, t),
                None => (StmtV::IfChain { branches, else_branch: None }, q),
            }
        } else {
            (StmtV::IfChain { branches, else_branch: None }, q)
        },
        None => (StmtV::IfChain { branches, else_branch: None }, q),
    }
}

/// More `elif` branches.
pub open spec fn elifs_rest(s: Seq<char>, p: int, acc: Seq<(ExprV, StmtV)>) -> (Seq<(ExprV, StmtV)>, int)
    decreases s.len() - p, 6int,
{
    match keyword_at(s, p, "elif"@) {
        Some(k) => if 0 <= p < k <= s.len() {
            match expr_at(s, k) {
                Some((c, m)) => if k < m <= s.len() {
                    match block_at(s, m) {
                        Some((b, r)) => if m < r <= s.len() {
                            elifs_rest(s, r, acc.push((c, b)))
                        } else {
                            (acc, p)
                        },
                        None => (acc, p),
                    }
                } else {
                    (acc, p)
                },
                None => (acc, p),
            }
        } else {
            (acc, p)
        },
        None => (acc, p),
    }
}

/// At least one white space character at `k`.
pub open spec fn space_at(s: Seq<char>, k: int) -> bool {
    0 <= k < s.len() && is_space(s[k])
}

/// `if c: ..; end else: ..; end` with white space required after `if`: the
/// keyword already takes all the white space, so this form never parses.
pub open spec fn if_else_at(s: Seq<char>, i: int) -> Option<(StmtV, int)>
    decreases s.len() - i, 2int,
{
    match keyword_at(s, i, "if"@) {
        Some(k) => if space_at(s, k) && 0 <= i < k {
            match expr_at(s, skip_ws(s, k)) {
                Some((c, m)) => if i < m <= s.len() {
                    match block_at(s, m) {
                        Some((b, p)) => Some((StmtV::IfThenElse(c, Box::new(b), None), p)),
                        None => None,
                    }
                } else {
                    None
                },
                None => None,
            }
        } else {
            None
        },
        None => None,
    }
}

/// `while c: ..; end` with white space required after `while`: the
/// keyword already takes all the white space, so this form never parses.
pub open spec fn while_at(s: Seq<char>, i: int) -> Option<(StmtV, int)>
    decreases s.len() - i, 2int,
{
    match keyword_at(s, i, "while"@) {
        Some(k) => if space_at(s, k) && 0 <= i < k {
            match expr_at(s, skip_ws(s, k)) {
                Some((c, m)) => if i < m <= s.len() {
                    match block_at(s, m) {
                        Some((b, p)) => Some((StmtV::While(c, Box::new(b)), p)),
                        None => None,
                    }
                } else {
                    None
                },
                None => None,
            }
        } else {
            None
        },
        None => None,
    }
}

/// `for x in e: ..; end`.
pub open spec fn for_at(s: Seq<char>, i: int) -> Option<(StmtV, int)>
    decreases s.len() - i, 2int,
{
    match keyword_at(s, i, "for"@) {
        Some(k) => match identifier_at(s, skip_ws(s, k)) {
            Some((v, m)) => match keyword_at(s, skip_ws(s, m), "in"@) {
                Some(p) => match expr_at(s, skip_ws(s, p)) {
                    Some((e, q)) => if 0 <= i < q <= s.len() {
                        match block_at(s, q) {
                            Some((b, r)) => Some((StmtV::For(v, e, Box::new(b)), r)),
                            None => None,
                        }
                    } else {
                        None
                    },
                    None => None,
                },
                None => None,
            },
            None => None,
        },
        None => None,
    }
}

/// `test name(): ..; end`: white space after `test`, no parameters and no
/// return type; the test returns nothing.
pub open spec fn test_def_at(s: Seq<char>, i: int) -> Option<(StmtV, int)>
    decreases s.len() - i, 2int,
{
    if text_at(s, i, "test"@) && space_at(s, i + 4) {
        match identifier_at(s, skip_ws(s, i + 4)) {
            Some((n, m)) => {
                let c = skip_ws(s, m + 1);
                if char_at(s, m, '(') && char_at(s, c, ')') && 0 <= i < c + 1 <= s.len() {
                    match block_at(s, c + 1) {
                        Some((b, p)) => Some(
                            (
                                StmtV::TestDef(
                                    FunctionV {
                                        name: n,
                                        kind: TypeV::TVoid,
                                        params: seq![],
                                        body: Some(Box::new(b)),
                                    },
                                ),
                                p,
                            ),
                        ),
                        None => None,
                    }
                } else {
                    None
                }
            },
            None => None,
        }
    } else {
        None
    }
}

/// `def name(x: T, ..) -> R: ..; end`.
pub open spec fn func_def_at(s: Seq<char>, i: int) -> Option<(StmtV, int)>
    decreases s.len() - i, 2int,
{
    match signature_at(s, i) {
        Some((n, ps, t, q)) => if 0 <= i < q <= s.len() {
            match block_at(s, q) {
                Some((b, r)) => Some(
                    (StmtV::FuncDef(FunctionV { name: n, kind: t, params: ps, body: Some(Box::new(b)) }), r),
                ),
                None => None,
            }
        } else {
            None
        },
        None => None,
    }
}

/// The head of a function definition: `def`, the name, the formal
/// arguments in parentheses, `->` and the result type; with the position
/// after it.
pub open spec fn signature_at(s: Seq<char>, i: int) -> Option<(Seq<char>, Seq<(Seq<char>, TypeV)>, TypeV, int)> {
    match keyword_at(s, i, "def"@) {
        Some(k) => match identifier_at(s, k) {
            Some((n, m)) => if char_at(s, m, '(') {
                let (ps, p) = params_at(s, m + 1);
                let a = skip_ws(s, p + 1);
                if char_at(s, p, ')') && text_at(s, a, "->"@) {
                    match type_at(s, skip_ws(s, a + 2)) {
                        Some((t, q)) => Some((n, ps, t, q)),
                        None => None,
                    }
                } else {
                    None
                }
            } else {
                None
            },
            None => None,
        },
        None => None,
    }
}

/// A program: optional white space, statements separated by `;`, an
/// optional `;` after the last, and optional white space.
pub open spec fn program_at(s: Seq<char>) -> Option<(Seq<StmtV>, int)> {
    match statements_at(s, skip_ws(s, 0)) {
        Some((ss, m)) => {
            let c = skip_ws(s, m);
            let m1 = if char_at(s, c, ';') {
                c + 1
            } else {
                m
            };
            Some((ss, skip_ws(s, m1)))
        },
        None => None,
    }
}

/// What a parse of a statement gives back.
pub open spec fn stmt_res(r: Option<(Statement, usize)>) -> Option<(StmtV, int)> {
    match r {
        Some((st, j)) => Some((st@, j as int)),
        None => None,
    }
}

/// A parse that succeeds moves forward, within the text.
pub open spec fn moves<T>(r: Option<(T, usize)>, i: int, n: int) -> bool {
    r matches Some((_, j)) ==> i < j <= n
}

/// `var x = e` or `val x = e`.
fn decl_exec(s: &Vec<char>, i: usize, mutable: bool) -> (r: Option<(Statement, usize)>)
    requires
        i <= s.len(),
    ensures
        stmt_res(r) == decl_at(s@, i as int, mutable),
        moves(r, i as int, s.len() as int),
{
    proof {
        reveal_strlit("var");
        reveal_strlit("val");
    }
    let k = match keyword_exec(s, i, if mutable { "var" } else { "val" }) {
        Some(k) => k,
        None => {
            return None;
        },
    };
    let (n, m) = match identifier_exec(s, k) {
        Some(x) => x,
        None => {
            return None;
        },
    };
    let p = match separator_exec(s, m, '=') {
        Some(p) => p,
        None => {
            return None;
        },
    };
    match expr_exec(s, p) {
        Some((e, q)) => Some(
            (
                if mutable {
                    Statement::VarDeclaration(n, Box::new(e))
                } else {
                    Statement::ValDeclaration(n, Box::new(e))
                },
                q,
            ),
        ),
        None => None,
    }
}

/// `x = e`.
fn assignment_exec(s: &Vec<char>, i: usize) -> (r: Option<(Statement, usize)>)
    requires
        i <= s.len(),
    ensures
        stmt_res(r) == assignment_at(s@, i as int),
        moves(r, i as int, s.len() as int),
{
    let (n, m) = match identifier_exec(s, i) {
        Some(x) => x,
        None => {
            return None;
        },
    };
    let p = match separator_exec(s, m, '=') {
        Some(p) => p,
        None => {
            return None;
        },
    };
    match expr_exec(s, p) {
        Some((e, q)) => Some((Statement::Assignment(n, Box::new(e)), q)),
        None => None,
    }
}

/// `return e`.
fn return_exec(s: &Vec<char>, i: usize) -> (r: Option<(Statement, usize)>)
    requires
        i <= s.len(),
    ensures
        stmt_res(r) == return_at(s@, i as int),
        moves(r, i as int, s.len() as int),
{
    proof {
        reveal_strlit("return");
    }
    let k = match keyword_exec(s, i, "return") {
        Some(k) => k,
        None => {
            return None;
        },
    };
    let k1 = skip_ws_exec(s, k);
    match expr_exec(s, k1) {
        Some((e, q)) => Some((Statement::Return(Box::new(e)), q)),
        None => None,
    }
}

/// The word of an assertion.
fn assert_word_exec(kind: u8) -> (r: &'static str)
    ensures
        r@ == assert_word(kind as int),
        r@.len() > 0,
{
    proof {
        reveal_strlit("assert");
        reveal_strlit("asserteq");
        reveal_strlit("assertneq");
        reveal_strlit("assertfalse");
        reveal_strlit("asserttrue");
    }
    if kind == 0 {
        "assert"
    } else if kind == 1 {
        "asserteq"
    } else if kind == 2 {
        "assertneq"
    } else if kind == 3 {
        "assertfalse"
    } else {
        "asserttrue"
    }
}

/// An assertion.
fn assertion_exec(s: &Vec<char>, i: usize, kind: u8) -> (r: Option<(Statement, usize)>)
    requires
        i <= s.len(),
    ensures
        stmt_res(r) == assertion_at(s@, i as int, kind as int),
        moves(r, i as int, s.len() as int),
{
    let k = match keyword_exec(s, i, assert_word_exec(kind)) {
        Some(k) => k,
        None => {
            return None;
        },
    };
    if !char_at_exec(s, k, '(') {
        return None;
    }
    let (args, m) = match exprs_exec(s, k + 1) {
        Some(x) => x,
        None => {
            return None;
        },
    };
    if !char_at_exec(s, m, ')') {
        return None;
    }
    match assertion_of_exec(kind, args) {
        Some(st) => Some((st, m + 1)),
        None => None,
    }
}

/// The statement an assertion builds from its arguments, as
/// [`assertion_of`] states.
fn assertion_of_exec(kind: u8, args: Vec<Expression>) -> (r: Option<Statement>)
    ensures
        match assertion_of(kind as int, exprs_view(args@)) {
            Some(st) => r matches Some(x) && x@ == st,
            None => r is None,
        },
{
    proof {
        lemma_exprs_view(args@);
    }
    let n = args.len();
    let want: usize = if kind == 1 || kind == 2 {
        3
    } else {
        2
    };
    if n != want {
        return None;
    }
    let ghost av = exprs_view(args@);
    let mut args = args;
    let last = args.pop().unwrap();
    let middle = args.pop().unwrap();
    if want == 3 {
        let first = args.pop().unwrap();
        if kind == 1 {
            Some(Statement::AssertEQ(Box::new(first), Box::new(middle), Box::new(last)))
        } else {
            Some(Statement::AssertNEQ(Box::new(first), Box::new(middle), Box::new(last)))
        }
    } else if kind == 0 {
        Some(Statement::Assert(Box::new(middle), Box::new(last)))
    } else if kind == 3 {
        Some(Statement::AssertFalse(Box::new(middle), Box::new(last)))
    } else {
        Some(Statement::AssertTrue(Box::new(middle), Box::new(last)))
    }
}

/// A formal argument `x: T`.
fn formal_arg_exec(s: &Vec<char>, i: usize) -> (r: Option<(FormalArgument, usize)>)
    requires
        i <= s.len(),
    ensures
        match r {
            Some((a, j)) => formal_arg_at(s@, i as int) == Some(
                ((a.argument_name@, a.argument_type@), j as int),
            ) && i < j <= s.len(),
            None => formal_arg_at(s@, i as int) is None,
        },
{
    let i1 = skip_ws_exec(s, i);
    let (n, j) = match identifier_exec(s, i1) {
        Some(x) => x,
        None => {
            return None;
        },
    };
    let c = skip_ws_exec(s, j);
    if !char_at_exec(s, c, ':') {
        return None;
    }
    let c1 = skip_ws_exec(s, c + 1);
    match type_exec(s, c1) {
        Some((t, k)) => Some((FormalArgument { argument_name: n, argument_type: t }, k)),
        None => None,
    }
}

/// Formal arguments separated by commas.
fn params_exec(s: &Vec<char>, i: usize) -> (r: (Vec<FormalArgument>, usize))
    requires
        i <= s.len(),
    ensures
        (params_view(r.0@), r.1 as int) == params_at(s@, i as int),
        i <= r.1 <= s.len(),
{
    match formal_arg_exec(s, i) {
        Some((a, j)) => {
            let mut acc: Vec<FormalArgument> = Vec::new();
            acc.push(a);
            proof {
                lemma_params_view(acc@);
                assert(params_view(acc@) =~= seq![(acc@[0].argument_name@, acc@[0].argument_type@)]);
            }
            params_rest_exec(s, j, acc)
        },
        None => (Vec::new(), i),
    }
}

/// More formal arguments, each after a comma.
fn params_rest_exec(s: &Vec<char>, j: usize, acc: Vec<FormalArgument>) -> (r: (Vec<FormalArgument>, usize))
    requires
        j <= s.len(),
    ensures
        (params_view(r.0@), r.1 as int) == params_rest(s@, j as int, params_view(acc@)),
        j <= r.1 <= s.len(),
    decreases s.len() - j,
{
    let k = match separator_exec(s, j, ',') {
        Some(k) => k,
        None => {
            return (acc, j);
        },
    };
    match formal_arg_exec(s, k) {
        Some((a, m)) => {
            let mut acc = acc;
            let ghost before = acc@;
            acc.push(a);
            proof {
                lemma_params_view(acc@);
                lemma_params_view(before);
                assert(acc@.drop_last() == before);
            }
            params_rest_exec(s, m, acc)
        },
        None => (acc, j),
    }
}

/// A statement at `i`, as [`statement_at`] states.
fn statement_exec(s: &Vec<char>, i: usize) -> (r: Option<(Statement, usize)>)
    requires
        i <= s.len(),
    ensures
        stmt_res(r) == statement_at(s@, i as int),
        moves(r, i as int, s.len() as int),
    decreases s.len() - i, 3int,
{
    if let Some(x) = decl_exec(s, i, true) {
        return Some(x);
    }
    if let Some(x) = decl_exec(s, i, false) {
        return Some(x);
    }
    if let Some(x) = if_chain_exec(s, i) {
        return Some(x);
    }
    if let Some(x) = if_else_exec(s, i) {
        return Some(x);
    }
    if let Some(x) = while_exec(s, i) {
        return Some(x);
    }
    if let Some(x) = for_exec(s, i) {
        return Some(x);
    }
    if let Some(x) = assertion_exec(s, i, 0) {
        return Some(x);
    }
    if let Some(x) = assertion_exec(s, i, 1) {
        return Some(x);
    }
    if let Some(x) = assertion_exec(s, i, 2) {
        return Some(x);
    }
    if let Some(x) = assertion_exec(s, i, 3) {
        return Some(x);
    }
    if let Some(x) = assertion_exec(s, i, 4) {
        return Some(x);
    }
    if let Some(x) = test_def_exec(s, i) {
        return Some(x);
    }
    if let Some(x) = func_def_exec(s, i) {
        return Some(x);
    }
    if let Some(x) = return_exec(s, i) {
        return Some(x);
    }
    assignment_exec(s, i)
}

/// A block at `i`, as [`block_at`] states.
fn block_exec(s: &Vec<char>, i: usize) -> (r: Option<(Statement, usize)>)
    requires
        i <= s.len(),
    ensures
        stmt_res(r) == block_at(s@, i as int),
        moves(r, i as int, s.len() as int),
    decreases s.len() - i, 1int,
{
    if !char_at_exec(s, i, ':') {
        return None;
    }
    let j = skip_ws_exec(s, i + 1);
    let (ss, m) = match statements_exec(s, j) {
        Some(x) => x,
        None => {
            return None;
        },
    };
    let c = skip_ws_exec(s, m);
    let m1 = if char_at_exec(s, c, ';') {
        c + 1
    } else {
        m
    };
    let m2 = skip_ws_exec(s, m1);
    proof {
        reveal_strlit("end");
    }
    match keyword_exec(s, m2, "end") {
        Some(p) => Some((Statement::Block(ss), p)),
        None => None,
    }
}

/// Statements separated by `;`.
fn statements_exec(s: &Vec<char>, i: usize) -> (r: Option<(Vec<Statement>, usize)>)
    requires
        i <= s.len(),
    ensures
        match r {
            Some((ss, j)) => statements_at(s@, i as int) == Some((stmts_view(ss@), j as int)) && i <= j <= s.len(),
            None => statements_at(s@, i as int) is None,
        },
        r is Some,
    decreases s.len() - i, 4int,
{
    match statement_exec(s, i) {
        Some((st, j)) => {
            let mut acc: Vec<Statement> = Vec::new();
            acc.push(st);
            proof {
                lemma_stmts_view(acc@);
                assert(stmts_view(acc@) =~= seq![acc@[0]@]);
            }
            Some(statements_rest_exec(s, j, acc))
        },
        None => Some((Vec::new(), i)),
    }
}

/// More statements, each after a `;`.
#[verifier::spinoff_prover]
fn statements_rest_exec(s: &Vec<char>, j: usize, acc: Vec<Statement>) -> (r: (Vec<Statement>, usize))
    requires
        j <= s.len(),
    ensures
        (stmts_view(r.0@), r.1 as int) == statements_rest(s@, j as int, stmts_view(acc@)),
        j <= r.1 <= s.len(),
    decreases s.len() - j, 5int,
{
    let k = match separator_exec(s, j, ';') {
        Some(k) => k,
        None => {
            return (acc, j);
        },
    };
    match statement_exec(s, k) {
        Some((st, m)) => {
            let mut acc = acc;
            let ghost before = acc@;
            let ghost sv = st@;
            acc.push(st);
            proof {
                lemma_stmts_view(acc@);
                lemma_stmts_view(before);
                assert(stmts_view(acc@) =~= stmts_view(before).push(sv));
            }
            statements_rest_exec(s, m, acc)
        },
        None => (acc, j),
    }
}

/// A chain of conditionals, as [`if_chain_at`] states.
fn if_chain_exec(s: &Vec<char>, i: usize) -> (r: Option<(Statement, usize)>)
    requires
        i <= s.len(),
    ensures
        stmt_res(r) == if_chain_at(s@, i as int),
        moves(r, i as int, s.len() as int),
    decreases s.len() - i, 2int,
{
    proof {
        reveal_strlit("if");
    }
    let k = match keyword_exec(s, i, "if") {
        Some(k) => k,
        None => {
            return None;
        },
    };
    let (c, m) = match expr_exec(s, k) {
        Some(x) => x,
        None => {
            return None;
        },
    };
    let (b, p) = match block_exec(s, m) {
        Some(x) => x,
        None => {
            return None;
        },
    };
    let mut first: Vec<(Box<Expression>, Box<Statement>)> = Vec::new();
    first.push((Box::new(c), Box::new(b)));
    proof {
        lemma_branches_view(first@);
        assert(branches_view(first@) =~= seq![((*first@[0].0)@, (*first@[0].1)@)]);
    }
    Some(chain_end_exec(s, p, first))
}

/// The `elif` branches and the optional `else`, as [`chain_end_at`] states.
fn chain_end_exec(s: &Vec<char>, p: usize, first: Vec<(Box<Expression>, Box<Statement>)>) -> (r: (Statement, usize))
    requires
        p <= s.len(),
    ensures
        (r.0@, r.1 as int) == chain_end_at(s@, p as int, branches_view(first@)),
        p <= r.1 <= s.len(),
    decreases s.len() - p, 7int,
{
    let (branches, q) = elifs_rest_exec(s, p, first);
    proof {
        reveal_strlit("else");
    }
    let ghost bv = branches_view(branches@);
    let else_part: Option<(Statement, usize)> = match keyword_exec(s, q, "else") {
        Some(r) => block_exec(s, r),
        None => None,
    };
    match else_part {
        Some((e, t)) => {
            let ghost ev = e@;
            let eb = Some(Box::new(e));
            assert(opt_stmt_view(eb) == Some(Box::new(ev)));
            let st = Statement::IfChain { branches, else_branch: eb };
            assert(st@ == StmtV::IfChain { branches: bv, else_branch: Some(Box::new(ev)) });
            (st, t)
        },
        None => {
            let eb: Option<Box<Statement>> = None;
            assert(opt_stmt_view(eb) == None::<Box<StmtV>>);
            let st = Statement::IfChain { branches, else_branch: eb };
            assert(st@ == StmtV::IfChain { branches: bv, else_branch: None });
            (st, q)
        },
    }
}

/// More `elif` branches, as [`elifs_rest`] states.
fn elifs_rest_exec(s: &Vec<char>, p: usize, acc: Vec<(Box<Expression>, Box<Statement>)>) -> (r: (Vec<(Box<Expression>, Box<Statement>)>, usize))
    requires
        p <= s.len(),
    ensures
        (branches_view(r.0@), r.1 as int) == elifs_rest(s@, p as int, branches_view(acc@)),
        p <= r.1 <= s.len(),
    decreases s.len() - p, 6int,
{
    proof {
        reveal_strlit("elif");
    }
    let k = match keyword_exec(s, p, "elif") {
        Some(k) => k,
        None => {
            return (acc, p);
        },
    };
    let (c, m) = match expr_exec(s, k) {
        Some(x) => x,
        None => {
            return (acc, p);
        },
    };
    let (b, r) = match block_exec(s, m) {
        Some(x) => x,
        None => {
            return (acc, p);
        },
    };
    let mut acc = acc;
    let ghost before = acc@;
    acc.push((Box::new(c), Box::new(b)));
    proof {
        lemma_branches_view(acc@);
        lemma_branches_view(before);
        assert(acc@.drop_last() == before);
    }
    elifs_rest_exec(s, r, acc)
}

/// Whether white space stands at `k`.
fn space_exec(s: &Vec<char>, k: usize) -> (r: bool)
    ensures
        r == space_at(s@, k as int),
{
    k < s.len() && (s[k] == ' ' || s[k] == '\t' || s[k] == '\n' || s[k] == '\r')
}

/// A conditional with white space required after `if`, as
/// [`if_else_at`] states.
fn if_else_exec(s: &Vec<char>, i: usize) -> (r: Option<(Statement, usize)>)
    requires
        i <= s.len(),
    ensures
        stmt_res(r) == if_else_at(s@, i as int),
        moves(r, i as int, s.len() as int),
    decreases s.len() - i, 2int,
{
    proof {
        reveal_strlit("if");
    }
    let k = match keyword_exec(s, i, "if") {
        Some(k) => k,
        None => {
            return None;
        },
    };
    if !space_exec(s, k) {
        return None;
    }
    let k1 = skip_ws_exec(s, k);
    let (c, m) = match expr_exec(s, k1) {
        Some(x) => x,
        None => {
            return None;
        },
    };
    match block_exec(s, m) {
        Some((b, p)) => {
            let ghost cv = c@;
            let ghost bv = b@;
            let eb: Option<Box<Statement>> = None;
            assert(opt_stmt_view(eb) == None::<Box<StmtV>>);
            let st = Statement::IfThenElse(Box::new(c), Box::new(b), eb);
            assert(st@ == StmtV::IfThenElse(cv, Box::new(bv), None));
            Some((st, p))
        },
        None => None,
    }
}

/// A `while` loop with white space required after `while`, as
/// [`while_at`] states.
fn while_exec(s: &Vec<char>, i: usize) -> (r: Option<(Statement, usize)>)
    requires
        i <= s.len(),
    ensures
        stmt_res(r) == while_at(s@, i as int),
        moves(r, i as int, s.len() as int),
    decreases s.len() - i, 2int,
{
    proof {
        reveal_strlit("while");
    }
    let k = match keyword_exec(s, i, "while") {
        Some(k) => k,
        None => {
            return None;
        },
    };
    if !space_exec(s, k) {
        return None;
    }
    let k1 = skip_ws_exec(s, k);
    let (c, m) = match expr_exec(s, k1) {
        Some(x) => x,
        None => {
            return None;
        },
    };
    match block_exec(s, m) {
        Some((b, p)) => Some((Statement::While(Box::new(c), Box::new(b)), p)),
        None => None,
    }
}

/// A `for` loop, as [`for_at`] states.
fn for_exec(s: &Vec<char>, i: usize) -> (r: Option<(Statement, usize)>)
    requires
        i <= s.len(),
    ensures
        stmt_res(r) == for_at(s@, i as int),
        moves(r, i as int, s.len() as int),
    decreases s.len() - i, 2int,
{
    proof {
        reveal_strlit("for");
        reveal_strlit("in");
    }
    let k = match keyword_exec(s, i, "for") {
        Some(k) => k,
        None => {
            return None;
        },
    };
    let k1 = skip_ws_exec(s, k);
    let (v, m) = match identifier_exec(s, k1) {
        Some(x) => x,
        None => {
            return None;
        },
    };
    let m1 = skip_ws_exec(s, m);
    let p = match keyword_exec(s, m1, "in") {
        Some(p) => p,
        None => {
            return None;
        },
    };
    let p1 = skip_ws_exec(s, p);
    let (e, q) = match expr_exec(s, p1) {
        Some(x) => x,
        None => {
            return None;
        },
    };
    match block_exec(s, q) {
        Some((b, r)) => Some((Statement::For(v, Box::new(e), Box::new(b)), r)),
        None => None,
    }
}

/// A test definition, as [`test_def_at`] states.
fn test_def_exec(s: &Vec<char>, i: usize) -> (r: Option<(Statement, usize)>)
    requires
        i <= s.len(),
    ensures
        stmt_res(r) == test_def_at(s@, i as int),
        moves(r, i as int, s.len() as int),
    decreases s.len() - i, 2int,
{
    proof {
        reveal_strlit("test");
    }
    if !text_at_exec(s, i, "test") {
        return None;
    }
    if !space_exec(s, i + 4) {
        return None;
    }
    let k1 = skip_ws_exec(s, i + 4);
    let (n, m) = match identifier_exec(s, k1) {
        Some(x) => x,
        None => {
            return None;
        },
    };
    if !char_at_exec(s, m, '(') {
        return None;
    }
    let c = skip_ws_exec(s, m + 1);
    if !char_at_exec(s, c, ')') {
        return None;
    }
    match block_exec(s, c + 1) {
        Some((b, p)) => {
            let ghost nv = n@;
            let ghost bv = b@;
            let f = Function { name: n, kind: Type::TVoid, params: Vec::new(), body: Some(Box::new(b)) };
            proof {
                lemma_params_view(f.params@);
                assert(params_view(f.params@) =~= Seq::<(Seq<char>, TypeV)>::empty());
            }
            let ghost fv = FunctionV { name: nv, kind: TypeV::TVoid, params: seq![], body: Some(Box::new(bv)) };
            assert(f@ == fv);
            let st = Statement::TestDef(f);
            assert(st@ == StmtV::TestDef(fv));
            Some((st, p))
        },
        None => None,
    }
}

/// A function definition, as [`func_def_at`] states.
fn func_def_exec(s: &Vec<char>, i: usize) -> (r: Option<(Statement, usize)>)
    requires
        i <= s.len(),
    ensures
        stmt_res(r) == func_def_at(s@, i as int),
        moves(r, i as int, s.len() as int),
    decreases s.len() - i, 2int,
{
    let (n, ps, t, q) = match signature_exec(s, i) {
        Some(x) => x,
        None => {
            return None;
        },
    };
    match block_exec(s, q) {
        Some((b, r)) => {
            let ghost fv = FunctionV { name: n@, kind: t@, params: params_view(ps@), body: Some(Box::new(b@)) };
            let f = Function { name: n, kind: t, params: ps, body: Some(Box::new(b)) };
            assert(f@ == fv);
            let st = Statement::FuncDef(f);
            assert(st@ == StmtV::FuncDef(fv));
            Some((st, r))
        },
        None => None,
    }
}

/// The head of a function definition, as [`signature_at`] states.
fn signature_exec(s: &Vec<char>, i: usize) -> (r: Option<(String, Vec<FormalArgument>, Type, usize)>)
    requires
        i <= s.len(),
    ensures
        match r {
            Some((n, ps, t, q)) => signature_at(s@, i as int) == Some((n@, params_view(ps@), t@, q as int))
                && i < q <= s.len(),
            None => signature_at(s@, i as int) is None,
        },
{
    proof {
        reveal_strlit("def");
        reveal_strlit("->");
    }
    let k = match keyword_exec(s, i, "def") {
        Some(k) => k,
        None => {
            return None;
        },
    };
    let (n, m) = match identifier_exec(s, k) {
        Some(x) => x,
        None => {
            return None;
        },
    };
    if !char_at_exec(s, m, '(') {
        return None;
    }
    let (ps, p) = params_exec(s, m + 1);
    if !char_at_exec(s, p, ')') {
        return None;
    }
    let a = skip_ws_exec(s, p + 1);
    if !text_at_exec(s, a, "->") {
        return None;
    }
    let a1 = skip_ws_exec(s, a + 2);
    match type_exec(s, a1) {
        Some((t, q)) => Some((n, ps, t, q)),
        None => None,
    }
}

/// Parses a statement, as [`statement_at`] states.
pub fn parse_statement(input: &str) -> (r: Result<(String, Statement), ParseError>)
    ensures
        outcome(input@, r, statement_at(input@, 0)),
{
    let s = chars_of(input);
    match statement_exec(&s, 0) {
        Some((st, j)) => Ok((rest_text(&s, j), st)),
        None => Err(ParseError),
    }
}

/// Parses a chain of conditionals, as [`if_chain_at`] states.
pub fn parse_if_chain_statement(input: &str) -> (r: Result<(String, Statement), ParseError>)
    ensures
        outcome(input@, r, if_chain_at(input@, 0)),
{
    let s = chars_of(input);
    match if_chain_exec(&s, 0) {
        Some((st, j)) => Ok((rest_text(&s, j), st)),
        None => Err(ParseError),
    }
}

/// Parses a conditional with white space required after `if`, as
/// [`if_else_at`] states.
pub fn parse_if_else_statement(input: &str) -> (r: Result<(String, Statement), ParseError>)
    ensures
        outcome(input@, r, if_else_at(input@, 0)),
{
    let s = chars_of(input);
    match if_else_exec(&s, 0) {
        Some((st, j)) => Ok((rest_text(&s, j), st)),
        None => Err(ParseError),
    }
}

/// Parses a `while` loop, as [`while_at`] states.
pub fn parse_while_statement(input: &str) -> (r: Result<(String, Statement), ParseError>)
    ensures
        outcome(input@, r, while_at(input@, 0)),
{
    let s = chars_of(input);
    match while_exec(&s, 0) {
        Some((st, j)) => Ok((rest_text(&s, j), st)),
        None => Err(ParseError),
    }
}

/// Parses a `for` loop, as [`for_at`] states.
pub fn parse_for_statement(input: &str) -> (r: Result<(String, Statement), ParseError>)
    ensures
        outcome(input@, r, for_at(input@, 0)),
{
    let s = chars_of(input);
    match for_exec(&s, 0) {
        Some((st, j)) => Ok((rest_text(&s, j), st)),
        None => Err(ParseError),
    }
}

/// Parses a function definition, as [`func_def_at`] states.
pub fn parse_function_definition_statement(input: &str) -> (r: Result<(String, Statement), ParseError>)
    ensures
        outcome(input@, r, func_def_at(input@, 0)),
{
    let s = chars_of(input);
    match func_def_exec(&s, 0) {
        Some((st, j)) => Ok((rest_text(&s, j), st)),
        None => Err(ParseError),
    }
}

/// Parses a test definition, as [`test_def_at`] states.
pub fn parse_test_function_definition_statement(input: &str) -> (r: Result<(String, Statement), ParseError>)
    ensures
        outcome(input@, r, test_def_at(input@, 0)),
{
    let s = chars_of(input);
    match test_def_exec(&s, 0) {
        Some((st, j)) => Ok((rest_text(&s, j), st)),
        None => Err(ParseError),
    }
}

/// Parses a `return`, as [`return_at`] states.
pub fn parse_return_statement(input: &str) -> (r: Result<(String, Statement), ParseError>)
    ensures
        outcome(input@, r, return_at(input@, 0)),
{
    let s = chars_of(input);
    match return_exec(&s, 0) {
        Some((st, j)) => Ok((rest_text(&s, j), st)),
        None => Err(ParseError),
    }
}

/// Parses an assignment, as [`assignment_at`] states.
pub fn parse_assignment_statement(input: &str) -> (r: Result<(String, Statement), ParseError>)
    ensures
        outcome(input@, r, assignment_at(input@, 0)),
{
    let s = chars_of(input);
    match assignment_exec(&s, 0) {
        Some((st, j)) => Ok((rest_text(&s, j), st)),
        None => Err(ParseError),
    }
}

/// Parses a block, as [`block_at`] states.
pub fn parse_block(input: &str) -> (r: Result<(String, Statement), ParseError>)
    ensures
        outcome(input@, r, block_at(input@, 0)),
{
    let s = chars_of(input);
    match block_exec(&s, 0) {
        Some((st, j)) => Ok((rest_text(&s, j), st)),
        None => Err(ParseError),
    }
}

/// Parses a `var` declaration, as [`decl_at`] states.
pub fn parse_var_declaration_statement(input: &str) -> (r: Result<(String, Statement), ParseError>)
    ensures
        outcome(input@, r, decl_at(input@, 0, true)),
{
    let s = chars_of(input);
    match decl_exec(&s, 0, true) {
        Some((st, j)) => Ok((rest_text(&s, j), st)),
        None => Err(ParseError),
    }
}

/// Parses a `val` declaration, as [`decl_at`] states.
pub fn parse_val_declaration_statement(input: &str) -> (r: Result<(String, Statement), ParseError>)
    ensures
        outcome(input@, r, decl_at(input@, 0, false)),
{
    let s = chars_of(input);
    match decl_exec(&s, 0, false) {
        Some((st, j)) => Ok((rest_text(&s, j), st)),
        None => Err(ParseError),
    }
}

/// Parses `assert(c, msg)`, as [`assertion_at`] states; a wrong number of
/// arguments is a failed parse.
pub fn parse_assert_statement(input: &str) -> (r: Result<(String, Statement), ParseError>)
    ensures
        outcome(input@, r, assertion_at(input@, 0, 0)),
{
    let s = chars_of(input);
    match assertion_exec(&s, 0, 0) {
        Some((st, j)) => Ok((rest_text(&s, j), st)),
        None => Err(ParseError),
    }
}

/// Parses `asserteq(a, b, msg)`, as [`assertion_at`] states; a wrong number of
/// arguments is a failed parse.
pub fn parse_asserteq_statement(input: &str) -> (r: Result<(String, Statement), ParseError>)
    ensures
        outcome(input@, r, assertion_at(input@, 0, 1)),
{
    let s = chars_of(input);
    match assertion_exec(&s, 0, 1) {
        Some((st, j)) => Ok((rest_text(&s, j), st)),
        None => Err(ParseError),
    }
}

/// Parses `assertneq(a, b, msg)`, as [`assertion_at`] states; a wrong number of
/// arguments is a failed parse.
pub fn parse_assertneq_statement(input: &str) -> (r: Result<(String, Statement), ParseError>)
    ensures
        outcome(input@, r, assertion_at(input@, 0, 2)),
{
    let s = chars_of(input);
    match assertion_exec(&s, 0, 2) {
        Some((st, j)) => Ok((rest_text(&s, j), st)),
        None => Err(ParseError),
    }
}

/// Parses `assertfalse(c, msg)`, as [`assertion_at`] states; a wrong number of
/// arguments is a failed parse.
pub fn parse_assertfalse_statement(input: &str) -> (r: Result<(String, Statement), ParseError>)
    ensures
        outcome(input@, r, assertion_at(input@, 0, 3)),
{
    let s = chars_of(input);
    match assertion_exec(&s, 0, 3) {
        Some((st, j)) => Ok((rest_text(&s, j), st)),
        None => Err(ParseError),
    }
}

/// Parses `asserttrue(c, msg)`, as [`assertion_at`] states; a wrong number of
/// arguments is a failed parse.
pub fn parse_asserttrue_statement(input: &str) -> (r: Result<(String, Statement), ParseError>)
    ensures
        outcome(input@, r, assertion_at(input@, 0, 4)),
{
    let s = chars_of(input);
    match assertion_exec(&s, 0, 4) {
        Some((st, j)) => Ok((rest_text(&s, j), st)),
        None => Err(ParseError),
    }
}

/// Parses a formal argument `x: T`, as [`formal_arg_at`] states.
pub fn parse_formal_argument(input: &str) -> (r: Result<(String, FormalArgument), ParseError>)
    ensures
        match formal_arg_at(input@, 0) {
            Some((a, j)) => r matches Ok((rest, x)) && (x.argument_name@, x.argument_type@) == a
                && rest@ == rest_of(input@, j),
            None => r is Err,
        },
{
    let s = chars_of(input);
    match formal_arg_exec(&s, 0) {
        Some((a, j)) => Ok((rest_text(&s, j), a)),
        None => Err(ParseError),
    }
}

/// Parses a program, as [`program_at`] states: its statements, and the
/// text after them that does not parse.
pub fn parse(input: &str) -> (r: Result<(String, Vec<Statement>), ParseError>)
    ensures
        match program_at(input@) {
            Some((ss, j)) => r matches Ok((rest, x)) && stmts_view(x@) == ss && rest@ == rest_of(input@, j),
            None => r is Err,
        },
{
    let s = chars_of(input);
    let i = skip_ws_exec(&s, 0);
    let (ss, m) = match statements_exec(&s, i) {
        Some(x) => x,
        None => {
            return Err(ParseError);
        },
    };
    let c = skip_ws_exec(&s, m);
    let m1 = if char_at_exec(&s, c, ';') {
        c + 1
    } else {
        m
    };
    let end = skip_ws_exec(&s, m1);
    Ok((rest_text(&s, end), ss))
}

} // verus!
