//! Three-address code: its representation and the translation of programs
//! into it.
use vstd::prelude::*;
use crate::ast::{
    boxed_exprs_view, branches_view, exprs_view, lemma_boxed_exprs_view, lemma_branches_view,
    lemma_exprs_view, lemma_params_view, lemma_stmts_view, opt_stmt_view, stmts_view, ExprV, Expression, Function,
    FunctionV, Statement, StmtV, TypeV,
};
use crate::text::{append_decimal, append_int, append_str, concat3, push_char};
use crate::text::{decimal, int_text};

verus! {

/// Binary operations of three-address code.
#[derive(Debug, Clone, Copy, PartialEq, Eq, Structural)]
pub enum TacBinaryOp {
    Add,
    Sub,
    Mul,
    Div,
    Eq,
    Neq,
    Gt,
    Lt,
    Gte,
    Lte,
    And,
    Or,
}

/// Unary operations of three-address code.
#[derive(Debug, Clone, Copy, PartialEq, Eq, Structural)]
pub enum TacUnaryOp {
    Not,
}

/// Operands of instructions. A real constant is kept as its decimal literal.
#[derive(Debug, PartialEq)]
pub enum TacOperand {
    Temp(String),
    Var(String),
    ConstInt(i32),
    ConstReal(String),
    ConstBool(bool),
    ConstString(String),
    Void,
}

/// Instructions.
#[derive(Debug, PartialEq)]
#[allow(inconsistent_fields)]
pub enum TacInstruction {
    Label(String),
    Assign { target: String, value: TacOperand },
    Binary { target: String, op: TacBinaryOp, left: TacOperand, right: TacOperand },
    Unary { target: String, op: TacUnaryOp, operand: TacOperand },
    Call { target: Option<String>, function: String, args: Vec<TacOperand> },
    Goto(String),
    IfGoto { condition: TacOperand, label: String },
    Return(Option<TacOperand>),
    Construct { target: String, ctor: String, args: Vec<TacOperand> },
    Comment(String),
}

/// A function in three-address code.
#[derive(Debug, PartialEq)]
pub struct TacFunction {
    name: String,
    params: Vec<String>,
    instructions: Vec<TacInstruction>,
}

/// A program in three-address code: a list of functions.
#[derive(Debug, PartialEq)]
pub struct TacProgram {
    functions: Vec<TacFunction>,
}

pub enum TacOperandV {
    Temp(Seq<char>),
    Var(Seq<char>),
    ConstInt(i32),
    ConstReal(Seq<char>),
    ConstBool(bool),
    ConstString(Seq<char>),
    Void,
}

#[allow(inconsistent_fields)]
pub enum TacInstrV {
    Label(Seq<char>),
    Assign { target: Seq<char>, value: TacOperandV },
    Binary { target: Seq<char>, op: TacBinaryOp, left: TacOperandV, right: TacOperandV },
    Unary { target: Seq<char>, op: TacUnaryOp, operand: TacOperandV },
    Call { target: Option<Seq<char>>, function: Seq<char>, args: Seq<TacOperandV> },
    Goto(Seq<char>),
    IfGoto { condition: TacOperandV, label: Seq<char> },
    Return(Option<TacOperandV>),
    Construct { target: Seq<char>, ctor: Seq<char>, args: Seq<TacOperandV> },
    Comment(Seq<char>),
}

pub struct TacFunctionV {
    pub name: Seq<char>,
    pub params: Seq<Seq<char>>,
    pub instructions: Seq<TacInstrV>,
}

impl View for TacOperand {
    type V = TacOperandV;

    open spec fn view(&self) -> TacOperandV {
        match self {
            TacOperand::Temp(s) => TacOperandV::Temp(s@),
            TacOperand::Var(s) => TacOperandV::Var(s@),
            TacOperand::ConstInt(i) => TacOperandV::ConstInt(*i),
            TacOperand::ConstReal(s) => TacOperandV::ConstReal(s@),
            TacOperand::ConstBool(b) => TacOperandV::ConstBool(*b),
            TacOperand::ConstString(s) => TacOperandV::ConstString(s@),
            TacOperand::Void => TacOperandV::Void,
        }
    }
}

pub open spec fn operands_view(s: Seq<TacOperand>) -> Seq<TacOperandV> {
    s.map_values(|o: TacOperand| o@)
}

impl View for TacInstruction {
    type V = TacInstrV;

    open spec fn view(&self) -> TacInstrV {
        match self {
            TacInstruction::Label(l) => TacInstrV::Label(l@),
            TacInstruction::Assign { target, value } => TacInstrV::Assign { target: target@, value: value@ },
            TacInstruction::Binary { target, op, left, right } => TacInstrV::Binary {
                target: target@,
                op: *op,
                left: left@,
                right: right@,
            },
            TacInstruction::Unary { target, op, operand } => TacInstrV::Unary {
                target: target@,
                op: *op,
                operand: operand@,
            },
            TacInstruction::Call { target, function, args } => TacInstrV::Call {
                target: match target {
                    Some(t) => Some(t@),
                    None => None,
                },
                function: function@,
                args: operands_view(args@),
            },
            TacInstruction::Goto(l) => TacInstrV::Goto(l@),
            TacInstruction::IfGoto { condition, label } => TacInstrV::IfGoto {
                condition: condition@,
                label: label@,
            },
            TacInstruction::Return(v) => TacInstrV::Return(
                match v {
                    Some(o) => Some(o@),
                    None => None,
                },
            ),
            TacInstruction::Construct { target, ctor, args } => TacInstrV::Construct {
                target: target@,
                ctor: ctor@,
                args: operands_view(args@),
            },
            TacInstruction::Comment(c) => TacInstrV::Comment(c@),
        }
    }
}

pub open spec fn instrs_view(s: Seq<TacInstruction>) -> Seq<TacInstrV> {
    s.map_values(|i: TacInstruction| i@)
}

pub open spec fn names_view(s: Seq<String>) -> Seq<Seq<char>> {
    s.map_values(|n: String| n@)
}

impl View for TacFunction {
    type V = TacFunctionV;

    closed spec fn view(&self) -> TacFunctionV {
        TacFunctionV {
            name: self.name@,
            params: names_view(self.params@),
            instructions: instrs_view(self.instructions@),
        }
    }
}

pub open spec fn tac_functions_view(s: Seq<TacFunction>) -> Seq<TacFunctionV> {
    s.map_values(|f: TacFunction| f@)
}

impl TacProgram {
    #[verifier::opaque]
    spec fn functions_view(&self) -> Seq<TacFunctionV> {
        tac_functions_view(self.functions@)
    }
}

impl View for TacProgram {
    type V = Seq<TacFunctionV>;

    closed spec fn view(&self) -> Seq<TacFunctionV> {
        self.functions_view()
    }
}

// ---------------------------------------------------------------------------
// The translation
// ---------------------------------------------------------------------------

/// The name of the temporary numbered `n`: `t` and the number.
pub open spec fn temp_name(n: nat) -> Seq<char> {
    seq!['t'] + decimal(n)
}

/// The label numbered `n` with the given prefix: prefix, `_` and the number.
pub open spec fn label_name(prefix: Seq<char>, n: nat) -> Seq<char> {
    prefix + seq!['_'] + decimal(n)
}

/// What translating an expression yields: the instructions emitted, the
/// operand holding the value, and the next free temporary number.
pub struct ExprCode {
    pub instrs: Seq<TacInstrV>,
    pub operand: TacOperandV,
    pub temps: nat,
}

/// What translating a list of expressions yields.
pub struct ExprsCode {
    pub instrs: Seq<TacInstrV>,
    pub operands: Seq<TacOperandV>,
    pub temps: nat,
}

/// Stores the result of an instruction into a fresh temporary.
pub open spec fn to_temp(instrs: Seq<TacInstrV>, temps: nat, last: TacInstrV) -> ExprCode {
    ExprCode { instrs: instrs.push(last), operand: TacOperandV::Temp(temp_name(temps)), temps: temps + 1 }
}

pub open spec fn binary_code(l: ExprCode, r: ExprCode, op: TacBinaryOp) -> ExprCode {
    to_temp(
        l.instrs + r.instrs,
        r.temps,
        TacInstrV::Binary { target: temp_name(r.temps), op, left: l.operand, right: r.operand },
    )
}

pub open spec fn call_code(args: ExprsCode, function: Seq<char>) -> ExprCode {
    to_temp(
        args.instrs,
        args.temps,
        TacInstrV::Call { target: Some(temp_name(args.temps)), function, args: args.operands },
    )
}

pub open spec fn construct_code(args: ExprsCode, ctor: Seq<char>) -> ExprCode {
    to_temp(
        args.instrs,
        args.temps,
        TacInstrV::Construct { target: temp_name(args.temps), ctor, args: args.operands },
    )
}

/// The translation of a single argument.
pub open spec fn single_code(c: ExprCode) -> ExprsCode {
    ExprsCode { instrs: c.instrs, operands: seq![c.operand], temps: c.temps }
}

/// The translation of an expression, temporaries numbered from `t`.
pub open spec fn expr_code(e: ExprV, t: nat) -> ExprCode
    decreases e,
{
    match e {
        ExprV::CInt(v) => ExprCode { instrs: seq![], operand: TacOperandV::ConstInt(v), temps: t },
        ExprV::CReal(v) => ExprCode { instrs: seq![], operand: TacOperandV::ConstReal(v), temps: t },
        ExprV::CTrue => ExprCode { instrs: seq![], operand: TacOperandV::ConstBool(true), temps: t },
        ExprV::CFalse => ExprCode { instrs: seq![], operand: TacOperandV::ConstBool(false), temps: t },
        ExprV::CString(v) => ExprCode { instrs: seq![], operand: TacOperandV::ConstString(v), temps: t },
        ExprV::CVoid => ExprCode { instrs: seq![], operand: TacOperandV::Void, temps: t },
        ExprV::Var(n) => ExprCode { instrs: seq![], operand: TacOperandV::Var(n), temps: t },
        ExprV::Add(l, r) => {
            let lc = expr_code(*l, t);
            binary_code(lc, expr_code(*r, lc.temps), TacBinaryOp::Add)
        },
        ExprV::Sub(l, r) => {
            let lc = expr_code(*l, t);
            binary_code(lc, expr_code(*r, lc.temps), TacBinaryOp::Sub)
        },
        ExprV::Mul(l, r) => {
            let lc = expr_code(*l, t);
            binary_code(lc, expr_code(*r, lc.temps), TacBinaryOp::Mul)
        },
        ExprV::Div(l, r) => {
            let lc = expr_code(*l, t);
            binary_code(lc, expr_code(*r, lc.temps), TacBinaryOp::Div)
        },
        ExprV::EQ(l, r) => {
            let lc = expr_code(*l, t);
            binary_code(lc, expr_code(*r, lc.temps), TacBinaryOp::Eq)
        },
        ExprV::NEQ(l, r) => {
            let lc = expr_code(*l, t);
            binary_code(lc, expr_code(*r, lc.temps), TacBinaryOp::Neq)
        },
        ExprV::GT(l, r) => {
            let lc = expr_code(*l, t);
            binary_code(lc, expr_code(*r, lc.temps), TacBinaryOp::Gt)
        },
        ExprV::LT(l, r) => {
            let lc = expr_code(*l, t);
            binary_code(lc, expr_code(*r, lc.temps), TacBinaryOp::Lt)
        },
        ExprV::GTE(l, r) => {
            let lc = expr_code(*l, t);
            binary_code(lc, expr_code(*r, lc.temps), TacBinaryOp::Gte)
        },
        ExprV::LTE(l, r) => {
            let lc = expr_code(*l, t);
            binary_code(lc, expr_code(*r, lc.temps), TacBinaryOp::Lte)
        },
        ExprV::And(l, r) => {
            let lc = expr_code(*l, t);
            binary_code(lc, expr_code(*r, lc.temps), TacBinaryOp::And)
        },
        ExprV::Or(l, r) => {
            let lc = expr_code(*l, t);
            binary_code(lc, expr_code(*r, lc.temps), TacBinaryOp::Or)
        },
        ExprV::Not(x) => {
            let c = expr_code(*x, t);
            to_temp(
                c.instrs,
                c.temps,
                TacInstrV::Unary { target: temp_name(c.temps), op: TacUnaryOp::Not, operand: c.operand },
            )
        },
        ExprV::FuncCall(name, args) => call_code(exprs_code(args, t), name),
        ExprV::COk(x) => construct_code(single_code(expr_code(*x, t)), "Ok"@),
        ExprV::CErr(x) => construct_code(single_code(expr_code(*x, t)), "Err"@),
        ExprV::CJust(x) => construct_code(single_code(expr_code(*x, t)), "Just"@),
        ExprV::CNothing => construct_code(ExprsCode { instrs: seq![], operands: seq![], temps: t }, "Nothing"@),
        ExprV::Unwrap(x) => call_code(single_code(expr_code(*x, t)), "__unwrap"@),
        ExprV::IsError(x) => call_code(single_code(expr_code(*x, t)), "__is_error"@),
        ExprV::IsNothing(x) => call_code(single_code(expr_code(*x, t)), "__is_nothing"@),
        ExprV::Propagate(x) => call_code(single_code(expr_code(*x, t)), "__propagate"@),
        ExprV::ListValue(items) => construct_code(exprs_code(items, t), "list"@),
        ExprV::Tuple(items) => construct_code(exprs_code(items, t), "tuple"@),
        ExprV::Constructor(name, items) => construct_code(exprs_code(items, t), name),
        ExprV::Lambda(_) => ExprCode {
            instrs: seq![TacInstrV::Comment("lambda expression evaluated at runtime"@)],
            operand: TacOperandV::Void,
            temps: t,
        },
    }
}

/// The translation of a list of expressions, left to right.
pub open spec fn exprs_code(es: Seq<ExprV>, t: nat) -> ExprsCode
    decreases es,
{
    if es.len() == 0 {
        ExprsCode { instrs: seq![], operands: seq![], temps: t }
    } else {
        let init = exprs_code(es.drop_last(), t);
        let last = expr_code(es.last(), init.temps);
        ExprsCode {
            instrs: init.instrs + last.instrs,
            operands: init.operands.push(last.operand),
            temps: last.temps,
        }
    }
}


/// The text of an operand: a name as is, a number in decimal, a boolean as
/// `true`/`false`, a string in double quotes, `void`.
pub open spec fn operand_text(o: TacOperandV) -> Seq<char> {
    match o {
        TacOperandV::Temp(n) => n,
        TacOperandV::Var(n) => n,
        TacOperandV::ConstInt(i) => int_text(i as int),
        TacOperandV::ConstReal(r) => r,
        TacOperandV::ConstBool(b) => if b {
            "true"@
        } else {
            "false"@
        },
        TacOperandV::ConstString(s) => seq!['"'] + s + seq!['"'],
        TacOperandV::Void => "void"@,
    }
}

/// What translating a statement yields: the instructions emitted into the
/// current function, the functions completed meanwhile (in completion order),
/// and the next free temporary and label numbers.
pub struct StmtCode {
    pub instrs: Seq<TacInstrV>,
    pub funcs: Seq<TacFunctionV>,
    pub temps: nat,
    pub labels: nat,
}

/// Appends `Return` with no value unless the code already ends in a return.
pub open spec fn with_final_return(instrs: Seq<TacInstrV>) -> Seq<TacInstrV> {
    if instrs.len() > 0 && instrs.last() is Return {
        instrs
    } else {
        instrs.push(TacInstrV::Return(None))
    }
}

/// Code that only emits the given instructions.
pub open spec fn plain_code(instrs: Seq<TacInstrV>, t: nat, l: nat) -> StmtCode {
    StmtCode { instrs, funcs: seq![], temps: t, labels: l }
}

/// Code that stores the value of an expression under a name.
pub open spec fn assign_code(name: Seq<char>, e: ExprV, t: nat, l: nat) -> StmtCode {
    let c = expr_code(e, t);
    plain_code(c.instrs.push(TacInstrV::Assign { target: name, value: c.operand }), c.temps, l)
}

/// One piece of code followed by another.
pub open spec fn then_code(a: StmtCode, b: StmtCode) -> StmtCode {
    StmtCode { instrs: a.instrs + b.instrs, funcs: a.funcs + b.funcs, temps: b.temps, labels: b.labels }
}

/// What translating the branches of an `if`/`elif` chain yields, before its
/// `else` statement and the closing labels: the code, the functions
/// completed, the counters, and the end labels of the branches in order.
pub struct ChainCode {
    pub instrs: Seq<TacInstrV>,
    pub funcs: Seq<TacFunctionV>,
    pub temps: nat,
    pub labels: nat,
    pub ends: Seq<Seq<char>>,
}

/// The closing labels of nested conditionals: innermost first.
pub open spec fn closing_labels(ends: Seq<Seq<char>>) -> Seq<TacInstrV>
    decreases ends.len(),
{
    if ends.len() == 0 {
        seq![]
    } else {
        closing_labels(ends.drop_first()).push(TacInstrV::Label(ends[0]))
    }
}

/// The names of a list of parameters, in order.
pub open spec fn param_names(ps: Seq<(Seq<char>, TypeV)>) -> Seq<Seq<char>>
    decreases ps.len(),
{
    if ps.len() == 0 {
        seq![]
    } else {
        param_names(ps.drop_last()).push(ps.last().0)
    }
}

/// The translation of a function definition: a new function with the
/// parameter names, its body's code (or a comment when it has none), ending
/// in a return. Functions completed inside the body come first.
#[verifier::opaque]
pub open spec fn function_code(f: FunctionV, t: nat, l: nat) -> StmtCode
    decreases f,
{
    let params = param_names(f.params);
    match f.body {
        Some(b) => {
            let c = stmt_code(*b, t, l);
            StmtCode {
                instrs: seq![],
                funcs: c.funcs.push(
                    TacFunctionV { name: f.name, params, instructions: with_final_return(c.instrs) },
                ),
                temps: c.temps,
                labels: c.labels,
            }
        },
        None => StmtCode {
            instrs: seq![],
            funcs: seq![
                TacFunctionV {
                    name: f.name,
                    params,
                    instructions: with_final_return(seq![TacInstrV::Comment("empty function body"@)]),
                },
            ],
            temps: t,
            labels: l,
        },
    }
}

/// The statements that are left to run time: the translation only notes them
/// in a comment.
pub open spec fn is_comment_stmt(s: StmtV) -> bool {
    ||| s is Assert
    ||| s is AssertTrue
    ||| s is AssertFalse
    ||| s is AssertEQ
    ||| s is AssertNEQ
    ||| s is TestDef
    ||| s is ModTestDef
    ||| s is AssertFails
    ||| s is TypeDeclaration
    ||| s is Match
}

/// The comment that stands for a statement left to run time.
pub open spec fn stmt_comment(s: StmtV) -> Seq<char> {
    match s {
        StmtV::Assert(_, _) => "assert statements are evaluated at runtime"@,
        StmtV::AssertTrue(_, _) => "assert statements are evaluated at runtime"@,
        StmtV::AssertFalse(_, _) => "assert statements are evaluated at runtime"@,
        StmtV::AssertEQ(_, _, _) => "assert equality checks are evaluated at runtime"@,
        StmtV::AssertNEQ(_, _, _) => "assert equality checks are evaluated at runtime"@,
        StmtV::TestDef(f) => "test definition '"@ + f.name + "' skipped in TAC"@,
        StmtV::ModTestDef(n, _) => "module test '"@ + n + "' skipped in TAC"@,
        StmtV::AssertFails(m) => "assertfails '"@ + m + "' handled at runtime"@,
        StmtV::TypeDeclaration(n, _) => "type declaration '"@ + n + "' available at runtime"@,
        StmtV::Match(_, _) => "match statement evaluated at runtime"@,
        _ => seq![],
    }
}

/// The translation of a statement, temporaries numbered from `t` and labels
/// from `l`.
#[verifier::opaque]
pub open spec fn stmt_code(s: StmtV, t: nat, l: nat) -> StmtCode
    decreases s,
{
    match s {
        StmtV::VarDeclaration(n, e) => assign_code(n, e, t, l),
        StmtV::ValDeclaration(n, e) => assign_code(n, e, t, l),
        StmtV::Assignment(n, e) => assign_code(n, e, t, l),
        StmtV::Block(ss) => stmts_code(ss, t, l),
        StmtV::Sequence(a, b) => {
            let ca = stmt_code(*a, t, l);
            then_code(ca, stmt_code(*b, ca.temps, ca.labels))
        },
        StmtV::Return(e) => {
            let c = expr_code(e, t);
            plain_code(c.instrs.push(TacInstrV::Return(Some(c.operand))), c.temps, l)
        },
        StmtV::IfThenElse(c, th, el) => {
            let then_l = label_name("then"@, l);
            let end_l = label_name("end_if"@, l + 1);
            let else_l = if el is Some { label_name("else"@, l + 2) } else { end_l };
            let l1: nat = if el is Some { l + 3 } else { l + 2 };
            let cc = expr_code(c, t);
            let head = cc.instrs + seq![
                TacInstrV::IfGoto { condition: cc.operand, label: then_l },
                TacInstrV::Goto(else_l),
                TacInstrV::Label(then_l),
            ];
            let tc = stmt_code(*th, cc.temps, l1);
            let body = head + tc.instrs + seq![TacInstrV::Goto(end_l)];
            match el {
                Some(e) => {
                    let ec = stmt_code(*e, tc.temps, tc.labels);
                    StmtCode {
                        instrs: body + seq![TacInstrV::Label(else_l)] + ec.instrs + seq![TacInstrV::Label(end_l)],
                        funcs: tc.funcs + ec.funcs,
                        temps: ec.temps,
                        labels: ec.labels,
                    }
                },
                None => StmtCode {
                    instrs: body.push(TacInstrV::Label(end_l)),
                    funcs: tc.funcs,
                    temps: tc.temps,
                    labels: tc.labels,
                },
            }
        },
        StmtV::IfChain { branches, else_branch } => {
            let cc = chain_code(branches, else_branch is Some, t, l);
            let ec = match else_branch {
                Some(e) => stmt_code(*e, cc.temps, cc.labels),
                None => plain_code(seq![], cc.temps, cc.labels),
            };
            StmtCode {
                instrs: cc.instrs + ec.instrs + closing_labels(cc.ends),
                funcs: cc.funcs + ec.funcs,
                temps: ec.temps,
                labels: ec.labels,
            }
        },
        StmtV::While(c, b) => {
            let start_l = label_name("loop_start"@, l);
            let body_l = label_name("loop_body"@, l + 1);
            let end_l = label_name("loop_end"@, l + 2);
            let cc = expr_code(c, t);
            let bc = stmt_code(*b, cc.temps, l + 3);
            StmtCode {
                instrs: seq![TacInstrV::Label(start_l)] + cc.instrs + seq![
                    TacInstrV::IfGoto { condition: cc.operand, label: body_l },
                    TacInstrV::Goto(end_l),
                    TacInstrV::Label(body_l),
                ] + bc.instrs + seq![TacInstrV::Goto(start_l), TacInstrV::Label(end_l)],
                funcs: bc.funcs,
                temps: bc.temps,
                labels: bc.labels,
            }
        },
        StmtV::For(n, e, b) => {
            let cc = expr_code(e, t);
            let comment = TacInstrV::Comment(
                "for-loop over "@ + operand_text(cc.operand) + " assigned to "@ + n,
            );
            let bc = stmt_code(*b, cc.temps, l);
            StmtCode {
                instrs: cc.instrs.push(comment) + bc.instrs,
                funcs: bc.funcs,
                temps: bc.temps,
                labels: bc.labels,
            }
        },
        StmtV::FuncDef(f) => function_code(f, t, l),
        StmtV::Assert(_, _) | StmtV::AssertTrue(_, _) | StmtV::AssertFalse(_, _) | StmtV::AssertEQ(_, _, _)
        | StmtV::AssertNEQ(_, _, _) | StmtV::TestDef(_) | StmtV::ModTestDef(_, _) | StmtV::AssertFails(_)
        | StmtV::TypeDeclaration(_, _) | StmtV::Match(_, _) => plain_code(
            seq![TacInstrV::Comment(stmt_comment(s))],
            t,
            l,
        ),
    }
}

/// The translation of a list of statements, in order.
#[verifier::opaque]
pub open spec fn stmts_code(ss: Seq<StmtV>, t: nat, l: nat) -> StmtCode
    decreases ss,
{
    if ss.len() == 0 {
        plain_code(seq![], t, l)
    } else {
        let init = stmts_code(ss.drop_last(), t, l);
        then_code(init, stmt_code(ss.last(), init.temps, init.labels))
    }
}

/// The translation of the branches of an `if`/`elif` chain, as nested
/// conditionals: each branch's `else` leads to the next branch (or to the
/// chain's `else` statement when `has_else`).
#[verifier::opaque]
pub open spec fn chain_code(branches: Seq<(ExprV, StmtV)>, has_else: bool, t: nat, l: nat) -> ChainCode
    decreases branches,
{
    if branches.len() == 0 {
        ChainCode { instrs: seq![], funcs: seq![], temps: t, labels: l, ends: seq![] }
    } else {
        let has_rest = branches.len() > 1 || has_else;
        let then_l = label_name("then"@, l);
        let end_l = label_name("end_if"@, l + 1);
        let else_l = if has_rest { label_name("else"@, l + 2) } else { end_l };
        let l1: nat = if has_rest { l + 3 } else { l + 2 };
        let cc = expr_code(branches[0].0, t);
        let tc = stmt_code(branches[0].1, cc.temps, l1);
        let head = cc.instrs + seq![
            TacInstrV::IfGoto { condition: cc.operand, label: then_l },
            TacInstrV::Goto(else_l),
            TacInstrV::Label(then_l),
        ] + tc.instrs + seq![TacInstrV::Goto(end_l)] + (if has_rest {
            seq![TacInstrV::Label(else_l)]
        } else {
            seq![]
        });
        let rest = chain_code(branches.drop_first(), has_else, tc.temps, tc.labels);
        ChainCode {
            instrs: head + rest.instrs,
            funcs: tc.funcs + rest.funcs,
            temps: rest.temps,
            labels: rest.labels,
            ends: seq![end_l] + rest.ends,
        }
    }
}

/// The translation of a program: each statement into the function
/// `__main__`, which ends in a return and comes after every function that
/// the statements define.
pub open spec fn program_code(ss: Seq<StmtV>, t: nat, l: nat) -> Seq<TacFunctionV> {
    let c = stmts_code(ss, t, l);
    c.funcs.push(TacFunctionV { name: "__main__"@, params: seq![], instructions: with_final_return(c.instrs) })
}

} // verus!

verus! {

/// Translating an expression never reuses a temporary number.
pub proof fn lemma_expr_code_mono(e: ExprV, t: nat)
    ensures
        expr_code(e, t).temps >= t,
    decreases e,
{
    match e {
        ExprV::Add(l, r) | ExprV::Sub(l, r) | ExprV::Mul(l, r) | ExprV::Div(l, r) | ExprV::EQ(l, r)
        | ExprV::NEQ(l, r) | ExprV::GT(l, r) | ExprV::LT(l, r) | ExprV::GTE(l, r) | ExprV::LTE(l, r)
        | ExprV::And(l, r) | ExprV::Or(l, r) => {
            lemma_expr_code_mono(*l, t);
            lemma_expr_code_mono(*r, expr_code(*l, t).temps);
        },
        ExprV::Not(x) | ExprV::COk(x) | ExprV::CErr(x) | ExprV::CJust(x) | ExprV::Unwrap(x)
        | ExprV::IsError(x) | ExprV::IsNothing(x) | ExprV::Propagate(x) => {
            lemma_expr_code_mono(*x, t);
        },
        ExprV::FuncCall(_, args) => {
            lemma_exprs_code_mono(args, t);
        },
        ExprV::ListValue(items) | ExprV::Tuple(items) | ExprV::Constructor(_, items) => {
            lemma_exprs_code_mono(items, t);
        },
        _ => {},
    }
}

/// Translating a list of expressions never reuses a temporary number.
pub proof fn lemma_exprs_code_mono(es: Seq<ExprV>, t: nat)
    ensures
        exprs_code(es, t).temps >= t,
    decreases es,
{
    if es.len() > 0 {
        lemma_exprs_code_mono(es.drop_last(), t);
        lemma_expr_code_mono(es.last(), exprs_code(es.drop_last(), t).temps);
    }
}

/// The function being built: its name, parameters and the instructions
/// emitted so far.
struct TacFunctionBuilder {
    name: String,
    params: Vec<String>,
    instructions: Vec<TacInstruction>,
}

impl TacFunctionBuilder {
    #[verifier::opaque]
    spec fn instrs(&self) -> Seq<TacInstrV> {
        instrs_view(self.instructions@)
    }

    fn new(name: String, params: Vec<String>) -> (r: Self)
        ensures
            r.name == name,
            r.params == params,
            r.instrs() == Seq::<TacInstrV>::empty(),
    {
        let r = TacFunctionBuilder { name, params, instructions: Vec::new() };
        reveal(TacFunctionBuilder::instrs);
        assert(r.instrs() =~= Seq::<TacInstrV>::empty());
        r
    }

    fn emit(&mut self, instruction: TacInstruction)
        ensures
            final(self).instrs() == old(self).instrs().push(instruction@),
            final(self).name == old(self).name,
            final(self).params == old(self).params,
    {
        self.instructions.push(instruction);
        reveal(TacFunctionBuilder::instrs);
        assert(self.instrs() =~= old(self).instrs().push(instruction@));
    }

    fn ensure_terminal_return(&mut self)
        ensures
            final(self).instrs() == with_final_return(old(self).instrs()),
            final(self).name == old(self).name,
            final(self).params == old(self).params,
    {
        reveal(TacFunctionBuilder::instrs);
        let n = self.instructions.len();
        let ends_in_return = n > 0 && match &self.instructions[n - 1] {
            TacInstruction::Return(_) => true,
            _ => false,
        };
        if !ends_in_return {
            self.emit(TacInstruction::Return(None));
        }
    }

    fn finish(self) -> (r: TacFunction)
        ensures
            r@ == (TacFunctionV { name: self.name@, params: names_view(self.params@), instructions: self.instrs() }),
    {
        reveal(TacFunctionBuilder::instrs);
        TacFunction { name: self.name, params: self.params, instructions: self.instructions }
    }
}

/// The translator from statements to three-address code. It numbers
/// temporaries and labels so that each is fresh.
pub struct TacGenerator {
    temp_counter: usize,
    label_counter: usize,
}

impl TacGenerator {
    /// The next free temporary number.
    pub closed spec fn temps(&self) -> nat {
        self.temp_counter as nat
    }

    /// The next free label number.
    pub closed spec fn labels(&self) -> nat {
        self.label_counter as nat
    }

    /// A generator whose temporaries and labels are numbered from zero.
    pub fn new() -> (r: Self)
        ensures
            r.temps() == 0,
            r.labels() == 0,
    {
        TacGenerator { temp_counter: 0, label_counter: 0 }
    }

    /// A fresh temporary: `t` followed by the next temporary number.
    fn new_temp(&mut self) -> (r: String)
        requires
            old(self).temps() < usize::MAX,
        ensures
            r@ == temp_name(old(self).temps()),
            final(self).temps() == old(self).temps() + 1,
            final(self).labels() == old(self).labels(),
    {
        let mut name = String::new();
        push_char(&mut name, 't');
        append_decimal(&mut name, self.temp_counter as u64);
        assert(name@ =~= temp_name(old(self).temps()));
        self.temp_counter = self.temp_counter + 1;
        name
    }

    /// A fresh label: the prefix, `_` and the next label number.
    fn new_label(&mut self, prefix: &str) -> (r: String)
        requires
            old(self).labels() < usize::MAX,
        ensures
            r@ == label_name(prefix@, old(self).labels()),
            final(self).labels() == old(self).labels() + 1,
            final(self).temps() == old(self).temps(),
    {
        let mut label = String::from_str(prefix);
        push_char(&mut label, '_');
        append_decimal(&mut label, self.label_counter as u64);
        assert(label@ =~= label_name(prefix@, old(self).labels()));
        self.label_counter = self.label_counter + 1;
        label
    }
}

} // verus!

verus! {

impl TacGenerator {
    /// Translates the operands of a binary operation left to right and
    /// stores the result in a fresh temporary.
    fn compile_binary(
        &mut self,
        Ghost(parent): Ghost<Expression>,
        lhs: &Expression,
        rhs: &Expression,
        op: TacBinaryOp,
        builder: &mut TacFunctionBuilder,
    ) -> (r: TacOperand)
        requires
            decreases_to!(parent => *lhs),
            decreases_to!(parent => *rhs),
            ({
                let lc = expr_code(lhs@, old(self).temps());
                binary_code(lc, expr_code(rhs@, lc.temps), op).temps <= usize::MAX
            }),
        ensures
            ({
                let lc = expr_code(lhs@, old(self).temps());
                let c = binary_code(lc, expr_code(rhs@, lc.temps), op);
                &&& final(builder).instrs() == old(builder).instrs() + c.instrs
                &&& r@ == c.operand
                &&& final(self).temps() == c.temps
            }),
            final(self).labels() == old(self).labels(),
            final(builder).name == old(builder).name,
            final(builder).params == old(builder).params,
        decreases parent, 0int,
    {
        let ghost t = self.temps();
        proof {
            lemma_expr_code_mono(lhs@, t);
            lemma_expr_code_mono(rhs@, expr_code(lhs@, t).temps);
        }
        let left = self.compile_expression(lhs, builder);
        let right = self.compile_expression(rhs, builder);
        let temp = self.new_temp();
        let target = temp.clone();
        builder.emit(TacInstruction::Binary { target, op, left, right });
        assert(builder.instrs() =~= old(builder).instrs() + binary_code(
            expr_code(lhs@, t),
            expr_code(rhs@, expr_code(lhs@, t).temps),
            op,
        ).instrs);
        TacOperand::Temp(temp)
    }

    /// Emits a call whose result goes to a fresh temporary.
    fn emit_call(
        &mut self,
        function: String,
        args: Vec<TacOperand>,
        builder: &mut TacFunctionBuilder,
    ) -> (r: TacOperand)
        requires
            old(self).temps() < usize::MAX,
        ensures
            final(builder).instrs() == old(builder).instrs().push(
                TacInstrV::Call {
                    target: Some(temp_name(old(self).temps())),
                    function: function@,
                    args: operands_view(args@),
                },
            ),
            r@ == TacOperandV::Temp(temp_name(old(self).temps())),
            final(self).temps() == old(self).temps() + 1,
            final(self).labels() == old(self).labels(),
            final(builder).name == old(builder).name,
            final(builder).params == old(builder).params,
    {
        let temp = self.new_temp();
        let target = temp.clone();
        builder.emit(TacInstruction::Call { target: Some(target), function, args });
        TacOperand::Temp(temp)
    }

    /// Emits a construction whose result goes to a fresh temporary.
    fn emit_construct(
        &mut self,
        ctor: String,
        args: Vec<TacOperand>,
        builder: &mut TacFunctionBuilder,
    ) -> (r: TacOperand)
        requires
            old(self).temps() < usize::MAX,
        ensures
            final(builder).instrs() == old(builder).instrs().push(
                TacInstrV::Construct {
                    target: temp_name(old(self).temps()),
                    ctor: ctor@,
                    args: operands_view(args@),
                },
            ),
            r@ == TacOperandV::Temp(temp_name(old(self).temps())),
            final(self).temps() == old(self).temps() + 1,
            final(self).labels() == old(self).labels(),
            final(builder).name == old(builder).name,
            final(builder).params == old(builder).params,
    {
        let temp = self.new_temp();
        let target = temp.clone();
        builder.emit(TacInstruction::Construct { target, ctor, args });
        TacOperand::Temp(temp)
    }

    /// Translates a single argument.
    fn compile_single(&mut self, arg: &Expression, builder: &mut TacFunctionBuilder) -> (r: Vec<TacOperand>)
        requires
            single_code(expr_code(arg@, old(self).temps())).temps < usize::MAX,
        ensures
            ({
                let c = single_code(expr_code(arg@, old(self).temps()));
                &&& final(builder).instrs() == old(builder).instrs() + c.instrs
                &&& operands_view(r@) == c.operands
                &&& final(self).temps() == c.temps
            }),
            final(self).labels() == old(self).labels(),
            final(builder).name == old(builder).name,
            final(builder).params == old(builder).params,
        decreases arg, 2int,
    {
        let o = self.compile_expression(arg, builder);
        let mut v: Vec<TacOperand> = Vec::new();
        v.push(o);
        assert(operands_view(v@) =~= seq![o@]);
        v
    }

    /// Translates a list of expressions left to right.
    fn compile_exprs(&mut self, items: &Vec<Expression>, builder: &mut TacFunctionBuilder) -> (r: Vec<TacOperand>)
        requires
            exprs_code(exprs_view(items@), old(self).temps()).temps <= usize::MAX,
        ensures
            ({
                let c = exprs_code(exprs_view(items@), old(self).temps());
                &&& final(builder).instrs() == old(builder).instrs() + c.instrs
                &&& operands_view(r@) == c.operands
                &&& final(self).temps() == c.temps
            }),
            final(self).labels() == old(self).labels(),
            final(builder).name == old(builder).name,
            final(builder).params == old(builder).params,
        decreases items@, 2int,
    {
        let ghost t = self.temps();
        let ghost es = exprs_view(items@);
        proof {
            lemma_exprs_view(items@);
        }
        let mut ops: Vec<TacOperand> = Vec::new();
        let mut i: usize = 0;
        assert(es.subrange(0, 0) =~= Seq::<ExprV>::empty());
        assert(operands_view(ops@) =~= Seq::<TacOperandV>::empty());
        assert(builder.instrs() =~= old(builder).instrs() + exprs_code(es.subrange(0, 0), t).instrs);
        while i < items.len()
            invariant
                i <= items.len(),
                es == exprs_view(items@),
                es.len() == items.len(),
                forall|j: int| 0 <= j < items.len() ==> #[trigger] es[j] == items@[j]@,
                exprs_code(es, t).temps <= usize::MAX,
                ({
                    let c = exprs_code(es.subrange(0, i as int), t);
                    &&& builder.instrs() == old(builder).instrs() + c.instrs
                    &&& operands_view(ops@) == c.operands
                    &&& self.temps() == c.temps
                }),
                self.labels() == old(self).labels(),
                builder.name == old(builder).name,
                builder.params == old(builder).params,
            decreases items.len() - i,
        {
            proof {
                assert(es.subrange(0, i + 1).drop_last() =~= es.subrange(0, i as int));
                lemma_exprs_code_prefix_mono(es, t, i + 1);
            }
            let ghost before_instrs = builder.instrs();
            let ghost before_ops = operands_view(ops@);
            let o = self.compile_expression(&items[i], builder);
            ops.push(o);
            assert(operands_view(ops@) =~= before_ops.push(o@));
            assert(builder.instrs() =~= old(builder).instrs() + exprs_code(es.subrange(0, i + 1), t).instrs);
            i = i + 1;
        }
        assert(es.subrange(0, items.len() as int) =~= es);
        ops
    }

    /// Translates a list of boxed expressions left to right.
    fn compile_boxed_exprs(&mut self, items: &Vec<Box<Expression>>, builder: &mut TacFunctionBuilder) -> (r: Vec<TacOperand>)
        requires
            exprs_code(boxed_exprs_view(items@), old(self).temps()).temps <= usize::MAX,
        ensures
            ({
                let c = exprs_code(boxed_exprs_view(items@), old(self).temps());
                &&& final(builder).instrs() == old(builder).instrs() + c.instrs
                &&& operands_view(r@) == c.operands
                &&& final(self).temps() == c.temps
            }),
            final(self).labels() == old(self).labels(),
            final(builder).name == old(builder).name,
            final(builder).params == old(builder).params,
        decreases items@, 2int,
    {
        let ghost t = self.temps();
        let ghost es = boxed_exprs_view(items@);
        proof {
            lemma_boxed_exprs_view(items@);
        }
        let mut ops: Vec<TacOperand> = Vec::new();
        let mut i: usize = 0;
        assert(es.subrange(0, 0) =~= Seq::<ExprV>::empty());
        assert(operands_view(ops@) =~= Seq::<TacOperandV>::empty());
        assert(builder.instrs() =~= old(builder).instrs() + exprs_code(es.subrange(0, 0), t).instrs);
        while i < items.len()
            invariant
                i <= items.len(),
                es == boxed_exprs_view(items@),
                es.len() == items.len(),
                forall|j: int| 0 <= j < items.len() ==> #[trigger] es[j] == (*items@[j])@,
                exprs_code(es, t).temps <= usize::MAX,
                ({
                    let c = exprs_code(es.subrange(0, i as int), t);
                    &&& builder.instrs() == old(builder).instrs() + c.instrs
                    &&& operands_view(ops@) == c.operands
                    &&& self.temps() == c.temps
                }),
                self.labels() == old(self).labels(),
                builder.name == old(builder).name,
                builder.params == old(builder).params,
            decreases items.len() - i,
        {
            proof {
                assert(es.subrange(0, i + 1).drop_last() =~= es.subrange(0, i as int));
                lemma_exprs_code_prefix_mono(es, t, i + 1);
            }
            let ghost before_instrs = builder.instrs();
            let ghost before_ops = operands_view(ops@);
            let o = self.compile_expression(&items[i], builder);
            ops.push(o);
            assert(operands_view(ops@) =~= before_ops.push(o@));
            assert(builder.instrs() =~= old(builder).instrs() + exprs_code(es.subrange(0, i + 1), t).instrs);
            i = i + 1;
        }
        assert(es.subrange(0, items.len() as int) =~= es);
        ops
    }

    /// Translates an expression: emits the instructions that compute it and
    /// returns the operand holding its value.
    fn compile_expression(&mut self, expr: &Expression, builder: &mut TacFunctionBuilder) -> (r: TacOperand)
        requires
            expr_code(expr@, old(self).temps()).temps <= usize::MAX,
        ensures
            ({
                let c = expr_code(expr@, old(self).temps());
                &&& final(builder).instrs() == old(builder).instrs() + c.instrs
                &&& r@ == c.operand
                &&& final(self).temps() == c.temps
            }),
            final(self).labels() == old(self).labels(),
            final(builder).name == old(builder).name,
            final(builder).params == old(builder).params,
        decreases expr, 1int,
    {
        let ghost t = self.temps();
        proof {
            lemma_expr_code_mono(expr@, t);
        }
        match expr {
            Expression::CInt(v) => {
                assert(builder.instrs() =~= old(builder).instrs() + Seq::<TacInstrV>::empty());
                TacOperand::ConstInt(*v)
            },
            Expression::CReal(v) => {
                assert(builder.instrs() =~= old(builder).instrs() + Seq::<TacInstrV>::empty());
                TacOperand::ConstReal(v.clone())
            },
            Expression::CTrue => {
                assert(builder.instrs() =~= old(builder).instrs() + Seq::<TacInstrV>::empty());
                TacOperand::ConstBool(true)
            },
            Expression::CFalse => {
                assert(builder.instrs() =~= old(builder).instrs() + Seq::<TacInstrV>::empty());
                TacOperand::ConstBool(false)
            },
            Expression::CString(v) => {
                assert(builder.instrs() =~= old(builder).instrs() + Seq::<TacInstrV>::empty());
                TacOperand::ConstString(v.clone())
            },
            Expression::CVoid => {
                assert(builder.instrs() =~= old(builder).instrs() + Seq::<TacInstrV>::empty());
                TacOperand::Void
            },
            Expression::Var(n) => {
                assert(builder.instrs() =~= old(builder).instrs() + Seq::<TacInstrV>::empty());
                TacOperand::Var(n.clone())
            },
            Expression::Add(l, r) => self.compile_binary(Ghost(*expr), l, r, TacBinaryOp::Add, builder),
            Expression::Sub(l, r) => self.compile_binary(Ghost(*expr), l, r, TacBinaryOp::Sub, builder),
            Expression::Mul(l, r) => self.compile_binary(Ghost(*expr), l, r, TacBinaryOp::Mul, builder),
            Expression::Div(l, r) => self.compile_binary(Ghost(*expr), l, r, TacBinaryOp::Div, builder),
            Expression::EQ(l, r) => self.compile_binary(Ghost(*expr), l, r, TacBinaryOp::Eq, builder),
            Expression::NEQ(l, r) => self.compile_binary(Ghost(*expr), l, r, TacBinaryOp::Neq, builder),
            Expression::GT(l, r) => self.compile_binary(Ghost(*expr), l, r, TacBinaryOp::Gt, builder),
            Expression::LT(l, r) => self.compile_binary(Ghost(*expr), l, r, TacBinaryOp::Lt, builder),
            Expression::GTE(l, r) => self.compile_binary(Ghost(*expr), l, r, TacBinaryOp::Gte, builder),
            Expression::LTE(l, r) => self.compile_binary(Ghost(*expr), l, r, TacBinaryOp::Lte, builder),
            Expression::And(l, r) => self.compile_binary(Ghost(*expr), l, r, TacBinaryOp::And, builder),
            Expression::Or(l, r) => self.compile_binary(Ghost(*expr), l, r, TacBinaryOp::Or, builder),
            Expression::Not(x) => {
                let operand = self.compile_expression(x, builder);
                let temp = self.new_temp();
                let target = temp.clone();
                builder.emit(TacInstruction::Unary { target, op: TacUnaryOp::Not, operand });
                assert(builder.instrs() =~= old(builder).instrs() + expr_code(expr@, t).instrs);
                TacOperand::Temp(temp)
            },
            Expression::FuncCall(name, args) => {
                proof { lemma_exprs_code_mono(exprs_view(args@), t); }
                let ops = self.compile_exprs(args, builder);
                let r = self.emit_call(name.clone(), ops, builder);
                assert(builder.instrs() =~= old(builder).instrs() + expr_code(expr@, t).instrs);
                r
            },
            Expression::COk(x) => {
                let ops = self.compile_single(x, builder);
                let r = self.emit_construct(String::from_str("Ok"), ops, builder);
                assert(builder.instrs() =~= old(builder).instrs() + expr_code(expr@, t).instrs);
                r
            },
            Expression::CErr(x) => {
                let ops = self.compile_single(x, builder);
                let r = self.emit_construct(String::from_str("Err"), ops, builder);
                assert(builder.instrs() =~= old(builder).instrs() + expr_code(expr@, t).instrs);
                r
            },
            Expression::CJust(x) => {
                let ops = self.compile_single(x, builder);
                let r = self.emit_construct(String::from_str("Just"), ops, builder);
                assert(builder.instrs() =~= old(builder).instrs() + expr_code(expr@, t).instrs);
                r
            },
            Expression::CNothing => {
                let ops: Vec<TacOperand> = Vec::new();
                assert(operands_view(ops@) =~= Seq::<TacOperandV>::empty());
                let r = self.emit_construct(String::from_str("Nothing"), ops, builder);
                assert(builder.instrs() =~= old(builder).instrs() + expr_code(expr@, t).instrs);
                r
            },
            Expression::Unwrap(x) => {
                let ops = self.compile_single(x, builder);
                let r = self.emit_call(String::from_str("__unwrap"), ops, builder);
                assert(builder.instrs() =~= old(builder).instrs() + expr_code(expr@, t).instrs);
                r
            },
            Expression::IsError(x) => {
                let ops = self.compile_single(x, builder);
                let r = self.emit_call(String::from_str("__is_error"), ops, builder);
                assert(builder.instrs() =~= old(builder).instrs() + expr_code(expr@, t).instrs);
                r
            },
            Expression::IsNothing(x) => {
                let ops = self.compile_single(x, builder);
                let r = self.emit_call(String::from_str("__is_nothing"), ops, builder);
                assert(builder.instrs() =~= old(builder).instrs() + expr_code(expr@, t).instrs);
                r
            },
            Expression::Propagate(x) => {
                let ops = self.compile_single(x, builder);
                let r = self.emit_call(String::from_str("__propagate"), ops, builder);
                assert(builder.instrs() =~= old(builder).instrs() + expr_code(expr@, t).instrs);
                r
            },
            Expression::ListValue(items) => {
                proof { lemma_exprs_code_mono(exprs_view(items@), t); }
                let ops = self.compile_exprs(items, builder);
                let r = self.emit_construct(String::from_str("list"), ops, builder);
                assert(builder.instrs() =~= old(builder).instrs() + expr_code(expr@, t).instrs);
                r
            },
            Expression::Tuple(items) => {
                proof { lemma_exprs_code_mono(exprs_view(items@), t); }
                let ops = self.compile_exprs(items, builder);
                let r = self.emit_construct(String::from_str("tuple"), ops, builder);
                assert(builder.instrs() =~= old(builder).instrs() + expr_code(expr@, t).instrs);
                r
            },
            Expression::Constructor(name, items) => {
                proof { lemma_exprs_code_mono(boxed_exprs_view(items@), t); }
                let ops = self.compile_boxed_exprs(items, builder);
                let r = self.emit_construct(name.clone(), ops, builder);
                assert(builder.instrs() =~= old(builder).instrs() + expr_code(expr@, t).instrs);
                r
            },
            Expression::Lambda(_) => {
                builder.emit(TacInstruction::Comment(String::from_str("lambda expression evaluated at runtime")));
                assert(builder.instrs() =~= old(builder).instrs() + expr_code(expr@, t).instrs);
                TacOperand::Void
            },
        }
    }
}

/// The temporaries used by a prefix of a list never exceed those of the list.
proof fn lemma_exprs_code_prefix_mono(es: Seq<ExprV>, t: nat, i: int)
    requires
        0 <= i <= es.len(),
    ensures
        exprs_code(es.subrange(0, i), t).temps <= exprs_code(es, t).temps,
    decreases es.len() - i,
{
    if i < es.len() {
        lemma_exprs_code_prefix_mono(es, t, i + 1);
        assert(es.subrange(0, i + 1).drop_last() =~= es.subrange(0, i));
        lemma_expr_code_mono(es[i], exprs_code(es.subrange(0, i), t).temps);
    } else {
        assert(es.subrange(0, i) =~= es);
    }
}

} // verus!

verus! {

/// An empty list of statements emits nothing.
pub proof fn lemma_stmts_empty(ss: Seq<StmtV>, t: nat, l: nat)
    requires
        ss.len() == 0,
    ensures
        stmts_code(ss, t, l) == plain_code(seq![], t, l),
{
    reveal(stmt_code);
    reveal(stmts_code);
    reveal(chain_code);
    reveal(function_code);
}

/// A list of statements is translated as its front, then its last statement.
pub proof fn lemma_stmts_push(ss: Seq<StmtV>, t: nat, l: nat)
    requires
        ss.len() > 0,
    ensures
        stmts_code(ss, t, l) == ({
            let init = stmts_code(ss.drop_last(), t, l);
            then_code(init, stmt_code(ss.last(), init.temps, init.labels))
        }),
{
    reveal(stmt_code);
    reveal(stmts_code);
    reveal(chain_code);
    reveal(function_code);
}

/// The translation of a function definition.
pub proof fn lemma_function_code(f: FunctionV, t: nat, l: nat)
    ensures
        function_code(f, t, l) == ({
            let params = param_names(f.params);
            match f.body {
                Some(b) => {
                    let c = stmt_code(*b, t, l);
                    StmtCode {
                        instrs: seq![],
                        funcs: c.funcs.push(
                            TacFunctionV { name: f.name, params, instructions: with_final_return(c.instrs) },
                        ),
                        temps: c.temps,
                        labels: c.labels,
                    }
                },
                None => StmtCode {
                    instrs: seq![],
                    funcs: seq![
                        TacFunctionV {
                            name: f.name,
                            params,
                            instructions: with_final_return(seq![TacInstrV::Comment("empty function body"@)]),
                        },
                    ],
                    temps: t,
                    labels: l,
                },
            }
        }),
{
    reveal(stmt_code);
    reveal(stmts_code);
    reveal(chain_code);
    reveal(function_code);
}

/// Declarations and assignments store the value of their expression.
pub proof fn lemma_code_assign(n: Seq<char>, e: ExprV, t: nat, l: nat)
    ensures
        stmt_code(StmtV::VarDeclaration(n, e), t, l) == assign_code(n, e, t, l),
        stmt_code(StmtV::ValDeclaration(n, e), t, l) == assign_code(n, e, t, l),
        stmt_code(StmtV::Assignment(n, e), t, l) == assign_code(n, e, t, l),
{
    reveal(stmt_code);
    reveal(stmts_code);
    reveal(chain_code);
    reveal(function_code);
}

/// A `return` computes its value and returns it.
pub proof fn lemma_code_return(e: ExprV, t: nat, l: nat)
    ensures
        stmt_code(StmtV::Return(e), t, l) == ({
            let c = expr_code(e, t);
            plain_code(c.instrs.push(TacInstrV::Return(Some(c.operand))), c.temps, l)
        }),
{
    reveal(stmt_code);
    reveal(stmts_code);
    reveal(chain_code);
    reveal(function_code);
}

/// A block is translated statement by statement.
pub proof fn lemma_code_block(ss: Seq<StmtV>, t: nat, l: nat)
    ensures
        stmt_code(StmtV::Block(ss), t, l) == stmts_code(ss, t, l),
{
    reveal(stmt_code);
    reveal(stmts_code);
    reveal(chain_code);
    reveal(function_code);
}

/// A sequence is its first statement's code, then its second's.
pub proof fn lemma_code_sequence(a: StmtV, b: StmtV, t: nat, l: nat)
    ensures
        stmt_code(StmtV::Sequence(Box::new(a), Box::new(b)), t, l) == ({
            let ca = stmt_code(a, t, l);
            then_code(ca, stmt_code(b, ca.temps, ca.labels))
        }),
{
    reveal(stmt_code);
    reveal(stmts_code);
    reveal(chain_code);
    reveal(function_code);
}

/// A statement left to run time becomes a comment.
pub proof fn lemma_code_comment(s: StmtV, t: nat, l: nat)
    requires
        is_comment_stmt(s),
    ensures
        stmt_code(s, t, l) == plain_code(seq![TacInstrV::Comment(stmt_comment(s))], t, l),
{
    reveal(stmt_code);
    reveal(stmts_code);
    reveal(chain_code);
    reveal(function_code);
}

/// A function definition becomes a function of its own.
pub proof fn lemma_code_funcdef(f: FunctionV, t: nat, l: nat)
    ensures
        stmt_code(StmtV::FuncDef(f), t, l) == function_code(f, t, l),
{
    reveal(stmt_code);
    reveal(stmts_code);
    reveal(chain_code);
    reveal(function_code);
}

/// The translation of a conditional.
pub proof fn lemma_code_if(c: ExprV, th: StmtV, el: Option<Box<StmtV>>, t: nat, l: nat)
    ensures
        stmt_code(StmtV::IfThenElse(c, Box::new(th), el), t, l) == ({
            let then_l = label_name("then"@, l);
            let end_l = label_name("end_if"@, l + 1);
            let else_l = if el is Some { label_name("else"@, l + 2) } else { end_l };
            let l1: nat = if el is Some { l + 3 } else { l + 2 };
            let cc = expr_code(c, t);
            let head = cc.instrs + seq![
                TacInstrV::IfGoto { condition: cc.operand, label: then_l },
                TacInstrV::Goto(else_l),
                TacInstrV::Label(then_l),
            ];
            let tc = stmt_code(th, cc.temps, l1);
            let body = head + tc.instrs + seq![TacInstrV::Goto(end_l)];
            match el {
                Some(e) => {
                    let ec = stmt_code(*e, tc.temps, tc.labels);
                    StmtCode {
                        instrs: body + seq![TacInstrV::Label(else_l)] + ec.instrs + seq![TacInstrV::Label(end_l)],
                        funcs: tc.funcs + ec.funcs,
                        temps: ec.temps,
                        labels: ec.labels,
                    }
                },
                None => StmtCode {
                    instrs: body.push(TacInstrV::Label(end_l)),
                    funcs: tc.funcs,
                    temps: tc.temps,
                    labels: tc.labels,
                },
            }
        }),
{
    reveal(stmt_code);
    reveal(stmts_code);
    reveal(chain_code);
    reveal(function_code);
}

/// The translation of an `if`/`elif` chain.
pub proof fn lemma_code_if_chain(branches: Seq<(ExprV, StmtV)>, el: Option<Box<StmtV>>, t: nat, l: nat)
    ensures
        stmt_code(StmtV::IfChain { branches, else_branch: el }, t, l) == ({
            let cc = chain_code(branches, el is Some, t, l);
            let ec = match el {
                Some(e) => stmt_code(*e, cc.temps, cc.labels),
                None => plain_code(seq![], cc.temps, cc.labels),
            };
            StmtCode {
                instrs: cc.instrs + ec.instrs + closing_labels(cc.ends),
                funcs: cc.funcs + ec.funcs,
                temps: ec.temps,
                labels: ec.labels,
            }
        }),
{
    reveal(stmt_code);
    reveal(stmts_code);
    reveal(chain_code);
    reveal(function_code);
}

/// The translation of a `while` loop.
pub proof fn lemma_code_while(c: ExprV, b: StmtV, t: nat, l: nat)
    ensures
        stmt_code(StmtV::While(c, Box::new(b)), t, l) == ({
            let start_l = label_name("loop_start"@, l);
            let body_l = label_name("loop_body"@, l + 1);
            let end_l = label_name("loop_end"@, l + 2);
            let cc = expr_code(c, t);
            let bc = stmt_code(b, cc.temps, l + 3);
            StmtCode {
                instrs: seq![TacInstrV::Label(start_l)] + cc.instrs + seq![
                    TacInstrV::IfGoto { condition: cc.operand, label: body_l },
                    TacInstrV::Goto(end_l),
                    TacInstrV::Label(body_l),
                ] + bc.instrs + seq![TacInstrV::Goto(start_l), TacInstrV::Label(end_l)],
                funcs: bc.funcs,
                temps: bc.temps,
                labels: bc.labels,
            }
        }),
{
    reveal(stmt_code);
    reveal(stmts_code);
    reveal(chain_code);
    reveal(function_code);
}

/// The translation of a `for` loop.
pub proof fn lemma_code_for(n: Seq<char>, e: ExprV, b: StmtV, t: nat, l: nat)
    ensures
        stmt_code(StmtV::For(n, e, Box::new(b)), t, l) == ({
            let cc = expr_code(e, t);
            let comment = TacInstrV::Comment(
                "for-loop over "@ + operand_text(cc.operand) + " assigned to "@ + n,
            );
            let bc = stmt_code(b, cc.temps, l);
            StmtCode {
                instrs: cc.instrs.push(comment) + bc.instrs,
                funcs: bc.funcs,
                temps: bc.temps,
                labels: bc.labels,
            }
        }),
{
    reveal(stmt_code);
    reveal(stmts_code);
    reveal(chain_code);
    reveal(function_code);
}

/// An empty chain emits nothing.
pub proof fn lemma_chain_empty(branches: Seq<(ExprV, StmtV)>, has_else: bool, t: nat, l: nat)
    requires
        branches.len() == 0,
    ensures
        chain_code(branches, has_else, t, l) == (ChainCode {
            instrs: seq![],
            funcs: seq![],
            temps: t,
            labels: l,
            ends: seq![],
        }),
{
    reveal(stmt_code);
    reveal(stmts_code);
    reveal(chain_code);
    reveal(function_code);
}

/// A chain translates its first branch, then the others.
pub proof fn lemma_chain_cons(branches: Seq<(ExprV, StmtV)>, has_else: bool, t: nat, l: nat)
    requires
        branches.len() > 0,
    ensures
        chain_code(branches, has_else, t, l) == ({
            let has_rest = branches.len() > 1 || has_else;
            let then_l = label_name("then"@, l);
            let end_l = label_name("end_if"@, l + 1);
            let else_l = if has_rest { label_name("else"@, l + 2) } else { end_l };
            let l1: nat = if has_rest { l + 3 } else { l + 2 };
            let cc = expr_code(branches[0].0, t);
            let tc = stmt_code(branches[0].1, cc.temps, l1);
            let head = cc.instrs + seq![
                TacInstrV::IfGoto { condition: cc.operand, label: then_l },
                TacInstrV::Goto(else_l),
                TacInstrV::Label(then_l),
            ] + tc.instrs + seq![TacInstrV::Goto(end_l)] + (if has_rest {
                seq![TacInstrV::Label(else_l)]
            } else {
                seq![]
            });
            let rest = chain_code(branches.drop_first(), has_else, tc.temps, tc.labels);
            ChainCode {
                instrs: head + rest.instrs,
                funcs: tc.funcs + rest.funcs,
                temps: rest.temps,
                labels: rest.labels,
                ends: seq![end_l] + rest.ends,
            }
        }),
{
    reveal(stmt_code);
    reveal(stmts_code);
    reveal(chain_code);
    reveal(function_code);
}

/// The counters after a piece of code still fit in a machine word.
pub open spec fn fits(temps: nat, labels: nat) -> bool {
    temps <= usize::MAX && labels <= usize::MAX
}

/// Translating a statement never reuses a temporary or a label number.
pub proof fn lemma_stmt_code_mono(s: StmtV, t: nat, l: nat)
    ensures
        stmt_code(s, t, l).temps >= t,
        stmt_code(s, t, l).labels >= l,
    decreases s,
{
    reveal(stmt_code);
    reveal(stmts_code);
    reveal(chain_code);
    reveal(function_code);
    match s {
        StmtV::VarDeclaration(_, e) | StmtV::ValDeclaration(_, e) | StmtV::Assignment(_, e)
        | StmtV::Return(e) => {
            lemma_expr_code_mono(e, t);
        },
        StmtV::Block(ss) => {
            lemma_stmts_code_mono(ss, t, l);
        },
        StmtV::Sequence(a, b) => {
            lemma_stmt_code_mono(*a, t, l);
            let ca = stmt_code(*a, t, l);
            lemma_stmt_code_mono(*b, ca.temps, ca.labels);
        },
        StmtV::IfThenElse(c, th, el) => {
            lemma_expr_code_mono(c, t);
            let cc = expr_code(c, t);
            let l1: nat = if el is Some { l + 3 } else { l + 2 };
            lemma_stmt_code_mono(*th, cc.temps, l1);
            let tc = stmt_code(*th, cc.temps, l1);
            match el {
                Some(e) => lemma_stmt_code_mono(*e, tc.temps, tc.labels),
                None => {},
            }
        },
        StmtV::IfChain { branches, else_branch } => {
            lemma_chain_code_mono(branches, else_branch is Some, t, l);
            let cc = chain_code(branches, else_branch is Some, t, l);
            match else_branch {
                Some(e) => lemma_stmt_code_mono(*e, cc.temps, cc.labels),
                None => {},
            }
        },
        StmtV::While(c, b) => {
            lemma_expr_code_mono(c, t);
            lemma_stmt_code_mono(*b, expr_code(c, t).temps, l + 3);
        },
        StmtV::For(_, e, b) => {
            lemma_expr_code_mono(e, t);
            lemma_stmt_code_mono(*b, expr_code(e, t).temps, l);
        },
        StmtV::FuncDef(f) => {
            lemma_function_code_mono(f, t, l);
        },
        _ => {},
    }
}

/// Translating a list of statements never reuses a temporary or a label.
pub proof fn lemma_stmts_code_mono(ss: Seq<StmtV>, t: nat, l: nat)
    ensures
        stmts_code(ss, t, l).temps >= t,
        stmts_code(ss, t, l).labels >= l,
    decreases ss,
{
    reveal(stmt_code);
    reveal(stmts_code);
    reveal(chain_code);
    reveal(function_code);
    if ss.len() > 0 {
        lemma_stmts_code_mono(ss.drop_last(), t, l);
        let init = stmts_code(ss.drop_last(), t, l);
        lemma_stmt_code_mono(ss.last(), init.temps, init.labels);
    }
}

/// Translating a function definition never reuses a temporary or a label.
pub proof fn lemma_function_code_mono(f: FunctionV, t: nat, l: nat)
    ensures
        function_code(f, t, l).temps >= t,
        function_code(f, t, l).labels >= l,
    decreases f,
{
    reveal(stmt_code);
    reveal(stmts_code);
    reveal(chain_code);
    reveal(function_code);
    match f.body {
        Some(b) => lemma_stmt_code_mono(*b, t, l),
        None => {},
    }
}

/// Translating the branches of a chain never reuses a temporary or a label.
pub proof fn lemma_chain_code_mono(branches: Seq<(ExprV, StmtV)>, has_else: bool, t: nat, l: nat)
    ensures
        chain_code(branches, has_else, t, l).temps >= t,
        chain_code(branches, has_else, t, l).labels >= l,
    decreases branches,
{
    reveal(stmt_code);
    reveal(stmts_code);
    reveal(chain_code);
    reveal(function_code);
    if branches.len() > 0 {
        let has_rest = branches.len() > 1 || has_else;
        let l1: nat = if has_rest { l + 3 } else { l + 2 };
        lemma_expr_code_mono(branches[0].0, t);
        let cc = expr_code(branches[0].0, t);
        lemma_stmt_code_mono(branches[0].1, cc.temps, l1);
        let tc = stmt_code(branches[0].1, cc.temps, l1);
        lemma_chain_code_mono(branches.drop_first(), has_else, tc.temps, tc.labels);
    }
}

/// The counters used by a prefix of a list of statements never exceed those
/// of the whole list.
proof fn lemma_stmts_code_prefix_mono(ss: Seq<StmtV>, t: nat, l: nat, i: int)
    requires
        0 <= i <= ss.len(),
    ensures
        stmts_code(ss.subrange(0, i), t, l).temps <= stmts_code(ss, t, l).temps,
        stmts_code(ss.subrange(0, i), t, l).labels <= stmts_code(ss, t, l).labels,
    decreases ss.len() - i,
{
    reveal(stmt_code);
    reveal(stmts_code);
    reveal(chain_code);
    reveal(function_code);
    if i < ss.len() {
        lemma_stmts_code_prefix_mono(ss, t, l, i + 1);
        assert(ss.subrange(0, i + 1).drop_last() =~= ss.subrange(0, i));
        let c = stmts_code(ss.subrange(0, i), t, l);
        lemma_stmt_code_mono(ss[i], c.temps, c.labels);
    } else {
        assert(ss.subrange(0, i) =~= ss);
    }
}

/// The text of an operand.
pub fn operand_to_text(o: &TacOperand) -> (r: String)
    ensures
        r@ == operand_text(o@),
{
    match o {
        TacOperand::Temp(n) => n.clone(),
        TacOperand::Var(n) => n.clone(),
        TacOperand::ConstInt(i) => {
            let mut s = String::new();
            append_int(&mut s, *i);
            assert(s@ =~= operand_text(o@));
            s
        },
        TacOperand::ConstReal(r) => r.clone(),
        TacOperand::ConstBool(b) => if *b {
            String::from_str("true")
        } else {
            String::from_str("false")
        },
        TacOperand::ConstString(v) => {
            let mut s = String::new();
            push_char(&mut s, '"');
            append_str(&mut s, v.as_str());
            push_char(&mut s, '"');
            assert(s@ =~= operand_text(o@));
            s
        },
        TacOperand::Void => String::from_str("void"),
    }
}

/// The comment that stands for a statement left to run time.
fn comment_text(stmt: &Statement) -> (r: String)
    ensures
        r@ == stmt_comment(stmt@),
{
    match stmt {
        Statement::Assert(_, _) => String::from_str("assert statements are evaluated at runtime"),
        Statement::AssertTrue(_, _) => String::from_str("assert statements are evaluated at runtime"),
        Statement::AssertFalse(_, _) => String::from_str("assert statements are evaluated at runtime"),
        Statement::AssertEQ(_, _, _) => String::from_str("assert equality checks are evaluated at runtime"),
        Statement::AssertNEQ(_, _, _) => String::from_str("assert equality checks are evaluated at runtime"),
        Statement::TestDef(f) => {
            assert(f@.name == f.name@);
            concat3("test definition '", f.name.as_str(), "' skipped in TAC")
        },
        Statement::ModTestDef(n, _) => concat3("module test '", n.as_str(), "' skipped in TAC"),
        Statement::AssertFails(m) => concat3("assertfails '", m.as_str(), "' handled at runtime"),
        Statement::TypeDeclaration(n, _) => concat3("type declaration '", n.as_str(), "' available at runtime"),
        Statement::Match(_, _) => String::from_str("match statement evaluated at runtime"),
        _ => String::new(),
    }
}

impl TacProgram {
    /// Adds a function at the end of the program.
    pub fn push_function(&mut self, function: TacFunction)
        ensures
            final(self)@ == old(self)@.push(function@),
    {
        self.functions.push(function);
        reveal(TacProgram::functions_view);
        assert(self@ =~= old(self)@.push(function@));
    }
}

} // verus!

verus! {

impl TacGenerator {
    /// Translates a statement into the function being built; functions that
    /// it defines are added to the program.
    fn compile_statement(&mut self, stmt: &Statement, builder: &mut TacFunctionBuilder, program: &mut TacProgram)
        requires
            ({
                let c = stmt_code(stmt@, old(self).temps(), old(self).labels());
                fits(c.temps, c.labels)
            }),
        ensures
            ({
                let c = stmt_code(stmt@, old(self).temps(), old(self).labels());
                &&& final(builder).instrs() == old(builder).instrs() + c.instrs
                &&& final(program)@ == old(program)@ + c.funcs
                &&& final(self).temps() == c.temps
                &&& final(self).labels() == c.labels
            }),
            final(builder).name == old(builder).name,
            final(builder).params == old(builder).params,
        decreases stmt, 1int,
    {
        let ghost t = self.temps();
        let ghost l = self.labels();
        proof {
            lemma_stmt_code_mono(stmt@, t, l);
        }
        match stmt {
            Statement::VarDeclaration(n, e) | Statement::ValDeclaration(n, e) | Statement::Assignment(n, e) => {
                proof {
                    lemma_code_assign(n@, e@, t, l);
                }
                let value = self.compile_expression(e, builder);
                builder.emit(TacInstruction::Assign { target: n.clone(), value });
                assert(builder.instrs() =~= old(builder).instrs() + stmt_code(stmt@, t, l).instrs);
                assert(program@ =~= old(program)@ + stmt_code(stmt@, t, l).funcs);
            },
            Statement::Block(ss) => {
                proof {
                    lemma_code_block(stmts_view(ss@), t, l);
                }
                self.compile_stmts(ss.as_slice(), builder, program);
            },
            Statement::Sequence(a, b) => {
                proof {
                    lemma_code_sequence(a@, b@, t, l);
                    lemma_stmt_code_mono(a@, t, l);
                    let ca = stmt_code(a@, t, l);
                    lemma_stmt_code_mono(b@, ca.temps, ca.labels);
                }
                self.compile_statement(a, builder, program);
                self.compile_statement(b, builder, program);
                assert(builder.instrs() =~= old(builder).instrs() + stmt_code(stmt@, t, l).instrs);
                assert(program@ =~= old(program)@ + stmt_code(stmt@, t, l).funcs);
            },
            Statement::Return(e) => {
                proof {
                    lemma_code_return(e@, t, l);
                }
                let value = self.compile_expression(e, builder);
                builder.emit(TacInstruction::Return(Some(value)));
                assert(builder.instrs() =~= old(builder).instrs() + stmt_code(stmt@, t, l).instrs);
                assert(program@ =~= old(program)@ + stmt_code(stmt@, t, l).funcs);
            },
            Statement::IfThenElse(_, _, _) => {
                self.compile_if(stmt, builder, program);
            },
            Statement::IfChain { .. } => {
                self.compile_if_chain(stmt, builder, program);
            },
            Statement::While(_, _) => {
                self.compile_while(stmt, builder, program);
            },
            Statement::For(_, _, _) => {
                self.compile_for(stmt, builder, program);
            },
            Statement::FuncDef(f) => {
                proof {
                    lemma_code_funcdef(f@, t, l);
                    lemma_function_code(f@, t, l);
                }
                self.compile_function(f, program);
                assert(builder.instrs() =~= old(builder).instrs() + stmt_code(stmt@, t, l).instrs);
            },
            Statement::Assert(_, _) | Statement::AssertTrue(_, _) | Statement::AssertFalse(_, _)
            | Statement::AssertEQ(_, _, _) | Statement::AssertNEQ(_, _, _) | Statement::TestDef(_)
            | Statement::ModTestDef(_, _) | Statement::AssertFails(_) | Statement::TypeDeclaration(_, _)
            | Statement::Match(_, _) => {
                proof {
                    lemma_code_comment(stmt@, t, l);
                }
                builder.emit(TacInstruction::Comment(comment_text(stmt)));
                assert(builder.instrs() =~= old(builder).instrs() + stmt_code(stmt@, t, l).instrs);
                assert(program@ =~= old(program)@ + stmt_code(stmt@, t, l).funcs);
            },
        }
    }

    /// Translates statements in order.
    fn compile_stmts(&mut self, ss: &[Statement], builder: &mut TacFunctionBuilder, program: &mut TacProgram)
        requires
            ({
                let c = stmts_code(stmts_view(ss@), old(self).temps(), old(self).labels());
                fits(c.temps, c.labels)
            }),
        ensures
            ({
                let c = stmts_code(stmts_view(ss@), old(self).temps(), old(self).labels());
                &&& final(builder).instrs() == old(builder).instrs() + c.instrs
                &&& final(program)@ == old(program)@ + c.funcs
                &&& final(self).temps() == c.temps
                &&& final(self).labels() == c.labels
            }),
            final(builder).name == old(builder).name,
            final(builder).params == old(builder).params,
        decreases ss@, 2int,
    {
        let ghost t = self.temps();
        let ghost l = self.labels();
        let ghost sv = stmts_view(ss@);
        proof {
            lemma_stmts_view(ss@);
        }
        let mut i: usize = 0;
        assert(sv.subrange(0, 0) =~= Seq::<StmtV>::empty());
        proof {
            lemma_stmts_empty(sv.subrange(0, 0), t, l);
        }
        assert(builder.instrs() =~= old(builder).instrs() + stmts_code(sv.subrange(0, 0), t, l).instrs);
        assert(program@ =~= old(program)@ + stmts_code(sv.subrange(0, 0), t, l).funcs);
        while i < ss.len()
            invariant
                i <= ss.len(),
                sv == stmts_view(ss@),
                sv.len() == ss.len(),
                forall|j: int| 0 <= j < ss.len() ==> #[trigger] sv[j] == ss@[j]@,
                fits(stmts_code(sv, t, l).temps, stmts_code(sv, t, l).labels),
                ({
                    let c = stmts_code(sv.subrange(0, i as int), t, l);
                    &&& builder.instrs() == old(builder).instrs() + c.instrs
                    &&& program@ == old(program)@ + c.funcs
                    &&& self.temps() == c.temps
                    &&& self.labels() == c.labels
                }),
                builder.name == old(builder).name,
                builder.params == old(builder).params,
            decreases ss.len() - i,
        {
            proof {
                assert(sv.subrange(0, i + 1).drop_last() =~= sv.subrange(0, i as int));
                lemma_stmts_push(sv.subrange(0, i + 1), t, l);
                lemma_stmts_code_prefix_mono(sv, t, l, i + 1);
            }
            self.compile_statement(&ss[i], builder, program);
            assert(builder.instrs() =~= old(builder).instrs() + stmts_code(sv.subrange(0, i + 1), t, l).instrs);
            assert(program@ =~= old(program)@ + stmts_code(sv.subrange(0, i + 1), t, l).funcs);
            i = i + 1;
        }
        assert(sv.subrange(0, ss.len() as int) =~= sv);
    }
}

} // verus!

verus! {

impl TacGenerator {
    /// Translates a conditional: a jump to the `then` code when the
    /// condition holds, else to the `else` code (or past the end).
    fn compile_if(&mut self, stmt: &Statement, builder: &mut TacFunctionBuilder, program: &mut TacProgram)
        requires
            stmt is IfThenElse,
            ({
                let c = stmt_code(stmt@, old(self).temps(), old(self).labels());
                fits(c.temps, c.labels)
            }),
        ensures
            ({
                let c = stmt_code(stmt@, old(self).temps(), old(self).labels());
                &&& final(builder).instrs() == old(builder).instrs() + c.instrs
                &&& final(program)@ == old(program)@ + c.funcs
                &&& final(self).temps() == c.temps
                &&& final(self).labels() == c.labels
            }),
            final(builder).name == old(builder).name,
            final(builder).params == old(builder).params,
        decreases stmt, 0int,
    {
        let ghost t = self.temps();
        let ghost l = self.labels();
        match stmt {
            Statement::IfThenElse(cond, th, el) => {
                let ghost cc = expr_code(cond@, t);
                let ghost then_l = label_name("then"@, l);
                let ghost end_l = label_name("end_if"@, l + 1);
                let ghost else_l = if el.is_some() { label_name("else"@, l + 2) } else { end_l };
                let ghost l1: nat = if el.is_some() { l + 3 } else { l + 2 };
                let ghost tc = stmt_code(th@, cc.temps, l1);
                let ghost head = cc.instrs + seq![
                    TacInstrV::IfGoto { condition: cc.operand, label: then_l },
                    TacInstrV::Goto(else_l),
                    TacInstrV::Label(then_l),
                ];
                let ghost body = head + tc.instrs + seq![TacInstrV::Goto(end_l)];
                proof {
                    lemma_expr_code_mono(cond@, t);
                    lemma_stmt_code_mono(th@, cc.temps, l1);
                    match el {
                        Some(e) => lemma_stmt_code_mono(e@, tc.temps, tc.labels),
                        None => {},
                    }
                    lemma_code_if(cond@, th@, opt_stmt_view(*el), t, l);
                }
                let then_label = self.new_label("then");
                let end_label = self.new_label("end_if");
                let else_label = match el {
                    Some(_) => self.new_label("else"),
                    None => end_label.clone(),
                };
                let cond_operand = self.compile_expression(cond, builder);
                builder.emit(TacInstruction::IfGoto { condition: cond_operand, label: then_label.clone() });
                builder.emit(TacInstruction::Goto(else_label.clone()));
                builder.emit(TacInstruction::Label(then_label));
                assert(builder.instrs() =~= old(builder).instrs() + head);
                let ghost p0 = program@;
                self.compile_statement(th, builder, program);
                builder.emit(TacInstruction::Goto(end_label.clone()));
                assert(builder.instrs() =~= old(builder).instrs() + body);
                assert(program@ == old(program)@ + tc.funcs);
                match el {
                    Some(e) => {
                        builder.emit(TacInstruction::Label(else_label));
                        let ghost b1 = builder.instrs();
                        let ghost p1 = program@;
                        self.compile_statement(e, builder, program);
                        builder.emit(TacInstruction::Label(end_label));
                        let ghost ec = stmt_code(e@, tc.temps, tc.labels);
                        assert(builder.instrs() =~= b1 + ec.instrs + seq![TacInstrV::Label(end_l)]);
                        assert(builder.instrs() =~= old(builder).instrs() + stmt_code(stmt@, t, l).instrs);
                        assert(program@ =~= old(program)@ + stmt_code(stmt@, t, l).funcs);
                    },
                    None => {
                        builder.emit(TacInstruction::Label(end_label));
                        assert(builder.instrs() =~= old(builder).instrs() + stmt_code(stmt@, t, l).instrs);
                    },
                }
            },
            _ => {},
        }
    }

    /// Translates an `if`/`elif` chain as nested conditionals.
    fn compile_if_chain(&mut self, stmt: &Statement, builder: &mut TacFunctionBuilder, program: &mut TacProgram)
        requires
            stmt is IfChain,
            ({
                let c = stmt_code(stmt@, old(self).temps(), old(self).labels());
                fits(c.temps, c.labels)
            }),
        ensures
            ({
                let c = stmt_code(stmt@, old(self).temps(), old(self).labels());
                &&& final(builder).instrs() == old(builder).instrs() + c.instrs
                &&& final(program)@ == old(program)@ + c.funcs
                &&& final(self).temps() == c.temps
                &&& final(self).labels() == c.labels
            }),
            final(builder).name == old(builder).name,
            final(builder).params == old(builder).params,
        decreases stmt, 0int,
    {
        let ghost t = self.temps();
        let ghost l = self.labels();
        match stmt {
            Statement::IfChain { branches, else_branch } => {
                let has_else = else_branch.is_some();
                let ghost bv = branches_view(branches@);
                let ghost cc = chain_code(bv, has_else, t, l);
                let ghost ec = match else_branch {
                    Some(e) => stmt_code(e@, cc.temps, cc.labels),
                    None => plain_code(seq![], cc.temps, cc.labels),
                };
                proof {
                    lemma_branches_view(branches@);
                    assert(bv.subrange(0, branches.len() as int) =~= bv);
                    lemma_chain_code_mono(bv, has_else, t, l);
                    match else_branch {
                        Some(e) => lemma_stmt_code_mono(e@, cc.temps, cc.labels),
                        None => {},
                    }
                    lemma_code_if_chain(bv, opt_stmt_view(*else_branch), t, l);
                }
                let ends = self.compile_chain(branches, 0, has_else, builder, program);
                match else_branch {
                    Some(e) => {
                        self.compile_statement(e, builder, program);
                    },
                    None => {
                        assert(builder.instrs() =~= builder.instrs() + ec.instrs);
                        assert(program@ =~= program@ + ec.funcs);
                    },
                }
                assert(builder.instrs() =~= old(builder).instrs() + cc.instrs + ec.instrs);
                assert(program@ =~= old(program)@ + stmt_code(stmt@, t, l).funcs);
                let ghost base = builder.instrs();
                let ghost ev = names_view(ends@);
                let mut k: usize = ends.len();
                assert(ev.subrange(k as int, k as int) =~= Seq::<Seq<char>>::empty());
                assert(builder.instrs() =~= base + closing_labels(ev.subrange(k as int, k as int)));
                while k > 0
                    invariant
                        k <= ends.len(),
                        ev == names_view(ends@),
                        builder.instrs() == base + closing_labels(ev.subrange(k as int, ends.len() as int)),
                        builder.name == old(builder).name,
                        builder.params == old(builder).params,
                    decreases k,
                {
                    k = k - 1;
                    let ghost before = builder.instrs();
                    builder.emit(TacInstruction::Label(ends[k].clone()));
                    let ghost sub = ev.subrange(k as int, ends.len() as int);
                    assert(sub.drop_first() =~= ev.subrange(k + 1, ends.len() as int));
                    assert(closing_labels(sub) == closing_labels(sub.drop_first()).push(TacInstrV::Label(ev[k as int])));
                    assert(builder.instrs() =~= base + closing_labels(sub));
                }
                assert(ev.subrange(0, ends.len() as int) =~= ev);
                assert(builder.instrs() =~= old(builder).instrs() + stmt_code(stmt@, t, l).instrs);
            },
            _ => {},
        }
    }

    /// Translates the branches of a chain from the `i`-th on; returns the
    /// end labels of the translated branches in order.
    fn compile_chain(
        &mut self,
        branches: &Vec<(Box<Expression>, Box<Statement>)>,
        i: usize,
        has_else: bool,
        builder: &mut TacFunctionBuilder,
        program: &mut TacProgram,
    ) -> (ends: Vec<String>)
        requires
            i <= branches.len(),
            ({
                let c = chain_code(
                    branches_view(branches@).subrange(i as int, branches.len() as int),
                    has_else,
                    old(self).temps(),
                    old(self).labels(),
                );
                fits(c.temps, c.labels)
            }),
        ensures
            ({
                let c = chain_code(
                    branches_view(branches@).subrange(i as int, branches.len() as int),
                    has_else,
                    old(self).temps(),
                    old(self).labels(),
                );
                &&& final(builder).instrs() == old(builder).instrs() + c.instrs
                &&& final(program)@ == old(program)@ + c.funcs
                &&& final(self).temps() == c.temps
                &&& final(self).labels() == c.labels
                &&& names_view(ends@) == c.ends
            }),
            final(builder).name == old(builder).name,
            final(builder).params == old(builder).params,
        decreases branches@, branches.len() - i,
    {
        let ghost t = self.temps();
        let ghost l = self.labels();
        let ghost bs = branches_view(branches@).subrange(i as int, branches.len() as int);
        proof {
            lemma_branches_view(branches@);
        }
        if i == branches.len() {
            proof {
                lemma_chain_empty(bs, has_else, t, l);
            }
            let ends: Vec<String> = Vec::new();
            assert(names_view(ends@) =~= Seq::<Seq<char>>::empty());
            assert(builder.instrs() =~= old(builder).instrs() + chain_code(bs, has_else, t, l).instrs);
            assert(program@ =~= old(program)@ + chain_code(bs, has_else, t, l).funcs);
            return ends;
        }
        let has_rest = i + 1 < branches.len() || has_else;
        let ghost l1: nat = if has_rest { l + 3 } else { l + 2 };
        let ghost cc = expr_code(bs[0].0, t);
        let ghost then_l = label_name("then"@, l);
        let ghost end_l = label_name("end_if"@, l + 1);
        let ghost else_l = if has_rest { label_name("else"@, l + 2) } else { end_l };
        let ghost tc = stmt_code(bs[0].1, cc.temps, l1);
        let ghost head = cc.instrs + seq![
            TacInstrV::IfGoto { condition: cc.operand, label: then_l },
            TacInstrV::Goto(else_l),
            TacInstrV::Label(then_l),
        ] + tc.instrs + seq![TacInstrV::Goto(end_l)] + (if has_rest {
            seq![TacInstrV::Label(else_l)]
        } else {
            seq![]
        });
        let ghost rest_c = chain_code(bs.drop_first(), has_else, tc.temps, tc.labels);
        proof {
            assert(bs.len() == branches.len() - i);
            assert(bs[0] == ((*branches@[i as int].0)@, (*branches@[i as int].1)@));
            assert(bs.drop_first() =~= branches_view(branches@).subrange(i + 1, branches.len() as int));
            lemma_expr_code_mono(bs[0].0, t);
            lemma_stmt_code_mono(bs[0].1, cc.temps, l1);
            lemma_chain_code_mono(bs.drop_first(), has_else, tc.temps, tc.labels);
            lemma_chain_cons(bs, has_else, t, l);
        }
        let then_label = self.new_label("then");
        let end_label = self.new_label("end_if");
        let else_label = if has_rest {
            self.new_label("else")
        } else {
            end_label.clone()
        };
        let cond_operand = self.compile_expression(&branches[i].0, builder);
        builder.emit(TacInstruction::IfGoto { condition: cond_operand, label: then_label.clone() });
        builder.emit(TacInstruction::Goto(else_label.clone()));
        builder.emit(TacInstruction::Label(then_label));
        let ghost b0 = builder.instrs();
        self.compile_statement(&branches[i].1, builder, program);
        builder.emit(TacInstruction::Goto(end_label.clone()));
        if has_rest {
            builder.emit(TacInstruction::Label(else_label));
        }
        assert(builder.instrs() =~= old(builder).instrs() + head);
        assert(program@ == old(program)@ + tc.funcs);
        let ghost b1 = builder.instrs();
        let ghost p1 = program@;
        let rest = self.compile_chain(branches, i + 1, has_else, builder, program);
        let mut ends = rest;
        ends.insert(0, end_label);
        assert(names_view(ends@) =~= seq![end_l] + rest_c.ends);
        assert(builder.instrs() =~= old(builder).instrs() + chain_code(bs, has_else, t, l).instrs);
        assert(program@ =~= old(program)@ + chain_code(bs, has_else, t, l).funcs);
        ends
    }

    /// Translates a `while` loop: the test at the start label, the body, and a
    /// jump back.
    fn compile_while(&mut self, stmt: &Statement, builder: &mut TacFunctionBuilder, program: &mut TacProgram)
        requires
            stmt is While,
            ({
                let c = stmt_code(stmt@, old(self).temps(), old(self).labels());
                fits(c.temps, c.labels)
            }),
        ensures
            ({
                let c = stmt_code(stmt@, old(self).temps(), old(self).labels());
                &&& final(builder).instrs() == old(builder).instrs() + c.instrs
                &&& final(program)@ == old(program)@ + c.funcs
                &&& final(self).temps() == c.temps
                &&& final(self).labels() == c.labels
            }),
            final(builder).name == old(builder).name,
            final(builder).params == old(builder).params,
        decreases stmt, 0int,
    {
        let ghost t = self.temps();
        let ghost l = self.labels();
        match stmt {
            Statement::While(cond, body) => {
                let ghost cc = expr_code(cond@, t);
                let ghost bc = stmt_code(body@, cc.temps, l + 3);
                let ghost start_l = label_name("loop_start"@, l);
                let ghost body_l = label_name("loop_body"@, l + 1);
                let ghost end_l = label_name("loop_end"@, l + 2);
                proof {
                    lemma_expr_code_mono(cond@, t);
                    lemma_stmt_code_mono(body@, cc.temps, l + 3);
                    lemma_code_while(cond@, body@, t, l);
                }
                let start_label = self.new_label("loop_start");
                let body_label = self.new_label("loop_body");
                let end_label = self.new_label("loop_end");
                builder.emit(TacInstruction::Label(start_label.clone()));
                let cond_operand = self.compile_expression(cond, builder);
                builder.emit(TacInstruction::IfGoto { condition: cond_operand, label: body_label.clone() });
                builder.emit(TacInstruction::Goto(end_label.clone()));
                builder.emit(TacInstruction::Label(body_label));
                let ghost mid = builder.instrs();
                self.compile_statement(body, builder, program);
                builder.emit(TacInstruction::Goto(start_label));
                builder.emit(TacInstruction::Label(end_label));
                assert(mid =~= old(builder).instrs() + seq![TacInstrV::Label(start_l)] + cc.instrs + seq![
                    TacInstrV::IfGoto { condition: cc.operand, label: body_l },
                    TacInstrV::Goto(end_l),
                    TacInstrV::Label(body_l),
                ]);
                assert(builder.instrs() =~= mid + bc.instrs + seq![TacInstrV::Goto(start_l), TacInstrV::Label(end_l)]);
                assert(builder.instrs() =~= old(builder).instrs() + stmt_code(stmt@, t, l).instrs);
            },
            _ => {},
        }
    }

    /// Translates a `for` loop: the iterable, a comment naming it and the
    /// loop variable, then the body.
    fn compile_for(&mut self, stmt: &Statement, builder: &mut TacFunctionBuilder, program: &mut TacProgram)
        requires
            stmt is For,
            ({
                let c = stmt_code(stmt@, old(self).temps(), old(self).labels());
                fits(c.temps, c.labels)
            }),
        ensures
            ({
                let c = stmt_code(stmt@, old(self).temps(), old(self).labels());
                &&& final(builder).instrs() == old(builder).instrs() + c.instrs
                &&& final(program)@ == old(program)@ + c.funcs
                &&& final(self).temps() == c.temps
                &&& final(self).labels() == c.labels
            }),
            final(builder).name == old(builder).name,
            final(builder).params == old(builder).params,
        decreases stmt, 0int,
    {
        let ghost t = self.temps();
        let ghost l = self.labels();
        match stmt {
            Statement::For(name, iterable, body) => {
                let ghost cc = expr_code(iterable@, t);
                let ghost comment = TacInstrV::Comment(
                    "for-loop over "@ + operand_text(cc.operand) + " assigned to "@ + name@,
                );
                let ghost bc = stmt_code(body@, cc.temps, l);
                proof {
                    lemma_expr_code_mono(iterable@, t);
                    lemma_stmt_code_mono(body@, cc.temps, l);
                    lemma_code_for(name@, iterable@, body@, t, l);
                }
                let temp_iter = self.compile_expression(iterable, builder);
                let text = operand_to_text(&temp_iter);
                let mut message = concat3("for-loop over ", text.as_str(), " assigned to ");
                append_str(&mut message, name.as_str());
                builder.emit(TacInstruction::Comment(message));
                let ghost mid = builder.instrs();
                assert(mid =~= old(builder).instrs() + cc.instrs.push(comment));
                self.compile_statement(body, builder, program);
                assert(builder.instrs() =~= mid + bc.instrs);
                assert(builder.instrs() =~= old(builder).instrs() + stmt_code(stmt@, t, l).instrs);
            },
            _ => {},
        }
    }

    /// Translates a function definition into a function of its own, added
    /// to the program after those its body defines.
    fn compile_function(&mut self, function: &Function, program: &mut TacProgram)
        requires
            ({
                let c = function_code(function@, old(self).temps(), old(self).labels());
                fits(c.temps, c.labels)
            }),
        ensures
            ({
                let c = function_code(function@, old(self).temps(), old(self).labels());
                &&& final(program)@ == old(program)@ + c.funcs
                &&& final(self).temps() == c.temps
                &&& final(self).labels() == c.labels
            }),
        decreases function, 2int,
    {
        let ghost t = self.temps();
        let ghost l = self.labels();
        let ghost fv = function@;
        proof {
            lemma_function_code(fv, t, l);
        }
        let mut params: Vec<String> = Vec::new();
        let mut i: usize = 0;
        proof {
            lemma_params_view(function.params@);
        }
        while i < function.params.len()
            invariant
                i <= function.params.len(),
                fv == function@,
                fv.params.len() == function.params.len(),
                forall|j: int| 0 <= j < function.params.len() ==> #[trigger] fv.params[j].0 == function.params@[j].argument_name@,
                names_view(params@) == param_names(fv.params.subrange(0, i as int)),
            decreases function.params.len() - i,
        {
            let ghost before = names_view(params@);
            params.push(function.params[i].argument_name.clone());
            assert(fv.params.subrange(0, i + 1).drop_last() =~= fv.params.subrange(0, i as int));
            assert(names_view(params@) =~= before.push(function.params@[i as int].argument_name@));
            assert(names_view(params@) =~= param_names(fv.params.subrange(0, i + 1)));
            i = i + 1;
        }
        assert(fv.params.subrange(0, i as int) =~= fv.params);
        let mut builder = TacFunctionBuilder::new(function.name.clone(), params);
        match &function.body {
            Some(body) => {
                self.compile_statement(body, &mut builder, program);
            },
            None => {
                builder.emit(TacInstruction::Comment(String::from_str("empty function body")));
            },
        }
        builder.ensure_terminal_return();
        let ghost before = program@;
        program.push_function(builder.finish());
        assert(program@ =~= old(program)@ + function_code(fv, t, l).funcs);
    }

    /// Translates a program: its statements go into the function `__main__`,
    /// which comes last, after every function that they define.
    pub fn generate(&mut self, statements: &[Statement]) -> (r: TacProgram)
        requires
            ({
                let c = stmts_code(stmts_view(statements@), old(self).temps(), old(self).labels());
                fits(c.temps, c.labels)
            }),
        ensures
            r@ == program_code(stmts_view(statements@), old(self).temps(), old(self).labels()),
            final(self).temps() == stmts_code(stmts_view(statements@), old(self).temps(), old(self).labels()).temps,
            final(self).labels() == stmts_code(stmts_view(statements@), old(self).temps(), old(self).labels()).labels,
    {
        let mut program = TacProgram { functions: Vec::new() };
        reveal(TacProgram::functions_view);
        let mut main_builder = TacFunctionBuilder::new(String::from_str("__main__"), Vec::new());
        assert(program@ =~= Seq::<TacFunctionV>::empty());
        assert(names_view(Seq::<String>::empty()) =~= Seq::<Seq<char>>::empty());
        self.compile_stmts(statements, &mut main_builder, &mut program);
        main_builder.ensure_terminal_return();
        program.push_function(main_builder.finish());
        assert(program@ =~= program_code(stmts_view(statements@), old(self).temps(), old(self).labels()));
        program
    }
}

} // verus!

verus! {

/// The symbol of a binary operation.
pub open spec fn binop_text(op: TacBinaryOp) -> Seq<char> {
    match op {
        TacBinaryOp::Add => "+"@,
        TacBinaryOp::Sub => "-"@,
        TacBinaryOp::Mul => "*"@,
        TacBinaryOp::Div => "/"@,
        TacBinaryOp::Eq => "=="@,
        TacBinaryOp::Neq => "!="@,
        TacBinaryOp::Gt => ">"@,
        TacBinaryOp::Lt => "<"@,
        TacBinaryOp::Gte => ">="@,
        TacBinaryOp::Lte => "<="@,
        TacBinaryOp::And => "and"@,
        TacBinaryOp::Or => "or"@,
    }
}

/// Texts joined by a separator.
pub open spec fn join_text(parts: Seq<Seq<char>>, sep: Seq<char>) -> Seq<char>
    decreases parts.len(),
{
    if parts.len() == 0 {
        seq![]
    } else if parts.len() == 1 {
        parts[0]
    } else {
        join_text(parts.drop_last(), sep) + sep + parts.last()
    }
}

/// The texts of a list of operands.
pub open spec fn operand_texts(ops: Seq<TacOperandV>) -> Seq<Seq<char>>
    decreases ops.len(),
{
    if ops.len() == 0 {
        seq![]
    } else {
        operand_texts(ops.drop_last()).push(operand_text(ops.last()))
    }
}

/// Operands separated by `, `.
pub open spec fn args_text(ops: Seq<TacOperandV>) -> Seq<char> {
    join_text(operand_texts(ops), ", "@)
}

/// The text of an instruction.
pub open spec fn instr_text(i: TacInstrV) -> Seq<char> {
    match i {
        TacInstrV::Label(l) => l + ":"@,
        TacInstrV::Assign { target, value } => target + " = "@ + operand_text(value),
        TacInstrV::Binary { target, op, left, right } => target + " = "@ + operand_text(left) + " "@
            + binop_text(op) + " "@ + operand_text(right),
        TacInstrV::Unary { target, op, operand } => target + " = "@ + "not"@ + " "@ + operand_text(operand),
        TacInstrV::Call { target, function, args } => match target {
            Some(t) => t + " = call "@ + function + "("@ + args_text(args) + ")"@,
            None => "call "@ + function + "("@ + args_text(args) + ")"@,
        },
        TacInstrV::Goto(l) => "goto "@ + l,
        TacInstrV::IfGoto { condition, label } => "if "@ + operand_text(condition) + " goto "@ + label,
        TacInstrV::Return(v) => match v {
            Some(o) => "return "@ + operand_text(o),
            None => "return"@,
        },
        TacInstrV::Construct { target, ctor, args } => target + " = "@ + ctor + "("@ + args_text(args) + ")"@,
        TacInstrV::Comment(m) => "# "@ + m,
    }
}

/// The instructions of a function, one per line, indented by four spaces.
pub open spec fn instrs_lines(is: Seq<TacInstrV>) -> Seq<char>
    decreases is.len(),
{
    if is.len() == 0 {
        seq![]
    } else {
        instrs_lines(is.drop_last()) + "    "@ + instr_text(is.last()) + "\n"@
    }
}

/// The text of a function: a header line with its name and parameters,
/// then its instructions.
pub open spec fn function_text(f: TacFunctionV) -> Seq<char> {
    "function "@ + f.name + "("@ + join_text(f.params, ", "@) + ")\n"@ + instrs_lines(f.instructions)
}

/// The text of a program: its functions, separated by an empty line.
pub open spec fn program_text(fs: Seq<TacFunctionV>) -> Seq<char>
    decreases fs.len(),
{
    if fs.len() == 0 {
        seq![]
    } else if fs.len() == 1 {
        function_text(fs[0])
    } else {
        program_text(fs.drop_last()) + "\n"@ + function_text(fs.last())
    }
}

/// Appends the texts of operands separated by `, `.
fn append_args(out: &mut String, args: &Vec<TacOperand>)
    ensures
        final(out)@ == old(out)@ + args_text(operands_view(args@)),
{
    let ghost ov = operands_view(args@);
    let mut i: usize = 0;
    assert(ov.subrange(0, 0) =~= Seq::<TacOperandV>::empty());
    while i < args.len()
        invariant
            i <= args.len(),
            ov == operands_view(args@),
            ov.len() == args.len(),
            out@ == old(out)@ + join_text(operand_texts(ov.subrange(0, i as int)), ", "@),
        decreases args.len() - i,
    {
        let ghost prefix = ov.subrange(0, i as int);
        let ghost next = ov.subrange(0, i + 1);
        assert(next.drop_last() =~= prefix);
        assert(next.last() == args@[i as int]@);
        assert(operand_texts(next) == operand_texts(prefix).push(operand_text(args@[i as int]@)));
        assert(operand_texts(next).drop_last() =~= operand_texts(prefix));
        if i > 0 {
            append_str(out, ", ");
        }
        let text = operand_to_text(&args[i]);
        append_str(out, text.as_str());
        assert(out@ =~= old(out)@ + join_text(operand_texts(next), ", "@));
        i = i + 1;
    }
    assert(ov.subrange(0, args.len() as int) =~= ov);
}

/// Appends names separated by `, `.
fn append_names(out: &mut String, names: &Vec<String>)
    ensures
        final(out)@ == old(out)@ + join_text(names_view(names@), ", "@),
{
    let ghost nv = names_view(names@);
    let mut i: usize = 0;
    while i < names.len()
        invariant
            i <= names.len(),
            nv == names_view(names@),
            nv.len() == names.len(),
            out@ == old(out)@ + join_text(nv.subrange(0, i as int), ", "@),
        decreases names.len() - i,
    {
        let ghost next = nv.subrange(0, i + 1);
        assert(next.drop_last() =~= nv.subrange(0, i as int));
        assert(next.last() == names@[i as int]@);
        if i > 0 {
            append_str(out, ", ");
        }
        append_str(out, names[i].as_str());
        assert(out@ =~= old(out)@ + join_text(next, ", "@));
        i = i + 1;
    }
    assert(nv.subrange(0, names.len() as int) =~= nv);
}

/// The symbol of a binary operation.
fn binop_symbol(op: TacBinaryOp) -> (r: &'static str)
    ensures
        r@ == binop_text(op),
{
    match op {
        TacBinaryOp::Add => "+",
        TacBinaryOp::Sub => "-",
        TacBinaryOp::Mul => "*",
        TacBinaryOp::Div => "/",
        TacBinaryOp::Eq => "==",
        TacBinaryOp::Neq => "!=",
        TacBinaryOp::Gt => ">",
        TacBinaryOp::Lt => "<",
        TacBinaryOp::Gte => ">=",
        TacBinaryOp::Lte => "<=",
        TacBinaryOp::And => "and",
        TacBinaryOp::Or => "or",
    }
}

impl TacOperand {
    /// The text of the operand: a name as it is, a number in decimal, a
    /// boolean as `true` or `false`, a string in double quotes, `void`.
    pub fn to_text(&self) -> (r: String)
        ensures
            r@ == operand_text(self@),
    {
        operand_to_text(self)
    }
}

impl TacInstruction {
    /// The text of the instruction.
    pub fn to_text(&self) -> (r: String)
        ensures
            r@ == instr_text(self@),
    {
        let mut s = String::new();
        match self {
            TacInstruction::Label(l) => {
                append_str(&mut s, l.as_str());
                append_str(&mut s, ":");
            },
            TacInstruction::Assign { target, value } => {
                append_str(&mut s, target.as_str());
                append_str(&mut s, " = ");
                append_str(&mut s, operand_to_text(value).as_str());
            },
            TacInstruction::Binary { target, op, left, right } => {
                append_str(&mut s, target.as_str());
                append_str(&mut s, " = ");
                append_str(&mut s, operand_to_text(left).as_str());
                append_str(&mut s, " ");
                append_str(&mut s, binop_symbol(*op));
                append_str(&mut s, " ");
                append_str(&mut s, operand_to_text(right).as_str());
            },
            TacInstruction::Unary { target, op, operand } => {
                append_str(&mut s, target.as_str());
                append_str(&mut s, " = ");
                append_str(&mut s, "not");
                append_str(&mut s, " ");
                append_str(&mut s, operand_to_text(operand).as_str());
            },
            TacInstruction::Call { target, function, args } => {
                match target {
                    Some(t) => {
                        append_str(&mut s, t.as_str());
                        append_str(&mut s, " = call ");
                    },
                    None => {
                        append_str(&mut s, "call ");
                    },
                }
                append_str(&mut s, function.as_str());
                append_str(&mut s, "(");
                append_args(&mut s, args);
                append_str(&mut s, ")");
            },
            TacInstruction::Goto(l) => {
                append_str(&mut s, "goto ");
                append_str(&mut s, l.as_str());
            },
            TacInstruction::IfGoto { condition, label } => {
                append_str(&mut s, "if ");
                append_str(&mut s, operand_to_text(condition).as_str());
                append_str(&mut s, " goto ");
                append_str(&mut s, label.as_str());
            },
            TacInstruction::Return(v) => match v {
                Some(o) => {
                    append_str(&mut s, "return ");
                    append_str(&mut s, operand_to_text(o).as_str());
                },
                None => {
                    append_str(&mut s, "return");
                },
            },
            TacInstruction::Construct { target, ctor, args } => {
                append_str(&mut s, target.as_str());
                append_str(&mut s, " = ");
                append_str(&mut s, ctor.as_str());
                append_str(&mut s, "(");
                append_args(&mut s, args);
                append_str(&mut s, ")");
            },
            TacInstruction::Comment(m) => {
                append_str(&mut s, "# ");
                append_str(&mut s, m.as_str());
            },
        }
        assert(s@ =~= instr_text(self@));
        s
    }
}

impl TacFunction {
    /// The function's name.
    pub fn name(&self) -> (r: &str)
        ensures
            r@ == self@.name,
    {
        self.name.as_str()
    }

    /// The function's parameters.
    pub fn params(&self) -> (r: &[String])
        ensures
            names_view(r@) == self@.params,
    {
        self.params.as_slice()
    }

    /// The function's instructions.
    pub fn instructions(&self) -> (r: &[TacInstruction])
        ensures
            instrs_view(r@) == self@.instructions,
    {
        self.instructions.as_slice()
    }

    /// The text of the function: its header line, then one line per
    /// instruction.
    pub fn to_text(&self) -> (r: String)
        ensures
            r@ == function_text(self@),
    {
        let mut s = String::from_str("function ");
        append_str(&mut s, self.name.as_str());
        append_str(&mut s, "(");
        append_names(&mut s, &self.params);
        append_str(&mut s, ")\n");
        let ghost head = s@;
        let ghost iv = instrs_view(self.instructions@);
        let mut i: usize = 0;
        assert(iv.subrange(0, 0) =~= Seq::<TacInstrV>::empty());
        assert(s@ =~= head + instrs_lines(iv.subrange(0, 0)));
        while i < self.instructions.len()
            invariant
                i <= self.instructions.len(),
                iv == instrs_view(self.instructions@),
                iv.len() == self.instructions.len(),
                s@ == head + instrs_lines(iv.subrange(0, i as int)),
            decreases self.instructions.len() - i,
        {
            let ghost next = iv.subrange(0, i + 1);
            assert(next.drop_last() =~= iv.subrange(0, i as int));
            assert(next.last() == self.instructions@[i as int]@);
            append_str(&mut s, "    ");
            append_str(&mut s, self.instructions[i].to_text().as_str());
            append_str(&mut s, "\n");
            assert(s@ =~= head + instrs_lines(next));
            i = i + 1;
        }
        assert(iv.subrange(0, self.instructions.len() as int) =~= iv);
        assert(s@ =~= function_text(self@));
        s
    }
}

impl TacProgram {
    /// A program without functions.
    pub fn new() -> (r: Self)
        ensures
            r@ == Seq::<TacFunctionV>::empty(),
    {
        let r = TacProgram { functions: Vec::new() };
        reveal(TacProgram::functions_view);
        assert(r@ =~= Seq::<TacFunctionV>::empty());
        r
    }

    /// The functions of the program, in order.
    pub fn functions(&self) -> (r: &[TacFunction])
        ensures
            tac_functions_view(r@) == self@,
    {
        reveal(TacProgram::functions_view);
        self.functions.as_slice()
    }

    /// The functions of the program, in order, taken out of it.
    pub fn into_functions(self) -> (r: Vec<TacFunction>)
        ensures
            tac_functions_view(r@) == self@,
    {
        reveal(TacProgram::functions_view);
        self.functions
    }

    /// The text of the program: each function's text, with an empty line
    /// between two functions.
    pub fn to_pretty_string(&self) -> (r: String)
        ensures
            r@ == program_text(self@),
    {
        reveal(TacProgram::functions_view);
        let ghost fv = tac_functions_view(self.functions@);
        let mut s = String::new();
        let mut i: usize = 0;
        assert(fv.subrange(0, 0) =~= Seq::<TacFunctionV>::empty());
        while i < self.functions.len()
            invariant
                i <= self.functions.len(),
                fv == tac_functions_view(self.functions@),
                fv.len() == self.functions.len(),
                s@ == program_text(fv.subrange(0, i as int)),
            decreases self.functions.len() - i,
        {
            let ghost next = fv.subrange(0, i + 1);
            assert(next.drop_last() =~= fv.subrange(0, i as int));
            assert(next.last() == self.functions@[i as int]@);
            if i > 0 {
                append_str(&mut s, "\n");
            }
            append_str(&mut s, self.functions[i].to_text().as_str());
            assert(s@ =~= program_text(next));
            i = i + 1;
        }
        assert(fv.subrange(0, self.functions.len() as int) =~= fv);
        s
    }
}

} // verus!

verus! {

/// The instructions end in a `return`.
pub open spec fn ends_in_return(is: Seq<TacInstrV>) -> bool {
    is.len() > 0 && is.last() is Return
}

/// Every function completed while translating a statement ends in a return.
pub proof fn lemma_stmt_funcs_return(s: StmtV, t: nat, l: nat)
    ensures
        forall|i: int|
            0 <= i < stmt_code(s, t, l).funcs.len() ==> ends_in_return(
                #[trigger] stmt_code(s, t, l).funcs[i].instructions,
            ),
    decreases s,
{
    let c = stmt_code(s, t, l);
    match s {
        StmtV::VarDeclaration(n, e) | StmtV::ValDeclaration(n, e) | StmtV::Assignment(n, e) => {
            lemma_code_assign(n, e, t, l);
        },
        StmtV::Return(e) => {
            lemma_code_return(e, t, l);
        },
        StmtV::Block(ss) => {
            lemma_code_block(ss, t, l);
            lemma_stmts_funcs_return(ss, t, l);
        },
        StmtV::Sequence(a, b) => {
            lemma_code_sequence(*a, *b, t, l);
            lemma_stmt_funcs_return(*a, t, l);
            let ca = stmt_code(*a, t, l);
            lemma_stmt_funcs_return(*b, ca.temps, ca.labels);
            let cb = stmt_code(*b, ca.temps, ca.labels);
            assert forall|i: int| 0 <= i < c.funcs.len() implies ends_in_return(#[trigger] c.funcs[i].instructions) by {
                if i < ca.funcs.len() {
                    assert(c.funcs[i] == ca.funcs[i]);
                } else {
                    assert(c.funcs[i] == cb.funcs[i - ca.funcs.len()]);
                }
            }
        },
        StmtV::IfThenElse(cond, th, el) => {
            lemma_code_if(cond, *th, el, t, l);
            let cc = expr_code(cond, t);
            let l1: nat = if el is Some { l + 3 } else { l + 2 };
            lemma_stmt_funcs_return(*th, cc.temps, l1);
            let tc = stmt_code(*th, cc.temps, l1);
            match el {
                Some(e) => {
                    lemma_stmt_funcs_return(*e, tc.temps, tc.labels);
                    let ec = stmt_code(*e, tc.temps, tc.labels);
                    assert forall|i: int| 0 <= i < c.funcs.len() implies ends_in_return(#[trigger] c.funcs[i].instructions) by {
                        if i < tc.funcs.len() {
                            assert(c.funcs[i] == tc.funcs[i]);
                        } else {
                            assert(c.funcs[i] == ec.funcs[i - tc.funcs.len()]);
                        }
                    }
                },
                None => {},
            }
        },
        StmtV::IfChain { branches, else_branch } => {
            lemma_code_if_chain(branches, else_branch, t, l);
            lemma_chain_funcs_return(branches, else_branch is Some, t, l);
            let cc = chain_code(branches, else_branch is Some, t, l);
            match else_branch {
                Some(e) => {
                    lemma_stmt_funcs_return(*e, cc.temps, cc.labels);
                    let ec = stmt_code(*e, cc.temps, cc.labels);
                    assert forall|i: int| 0 <= i < c.funcs.len() implies ends_in_return(#[trigger] c.funcs[i].instructions) by {
                        if i < cc.funcs.len() {
                            assert(c.funcs[i] == cc.funcs[i]);
                        } else {
                            assert(c.funcs[i] == ec.funcs[i - cc.funcs.len()]);
                        }
                    }
                },
                None => {
                    assert(c.funcs =~= cc.funcs);
                },
            }
        },
        StmtV::While(cond, b) => {
            lemma_code_while(cond, *b, t, l);
            lemma_stmt_funcs_return(*b, expr_code(cond, t).temps, l + 3);
        },
        StmtV::For(n, e, b) => {
            lemma_code_for(n, e, *b, t, l);
            lemma_stmt_funcs_return(*b, expr_code(e, t).temps, l);
        },
        StmtV::FuncDef(f) => {
            lemma_code_funcdef(f, t, l);
            lemma_function_funcs_return(f, t, l);
        },
        _ => {
            lemma_code_comment(s, t, l);
        },
    }
}

/// Every function completed while translating statements ends in a return.
pub proof fn lemma_stmts_funcs_return(ss: Seq<StmtV>, t: nat, l: nat)
    ensures
        forall|i: int|
            0 <= i < stmts_code(ss, t, l).funcs.len() ==> ends_in_return(
                #[trigger] stmts_code(ss, t, l).funcs[i].instructions,
            ),
    decreases ss,
{
    if ss.len() == 0 {
        lemma_stmts_empty(ss, t, l);
    } else {
        lemma_stmts_push(ss, t, l);
        let init = stmts_code(ss.drop_last(), t, l);
        lemma_stmts_funcs_return(ss.drop_last(), t, l);
        lemma_stmt_funcs_return(ss.last(), init.temps, init.labels);
        let lc = stmt_code(ss.last(), init.temps, init.labels);
        let c = stmts_code(ss, t, l);
        assert forall|i: int| 0 <= i < c.funcs.len() implies ends_in_return(#[trigger] c.funcs[i].instructions) by {
            if i < init.funcs.len() {
                assert(c.funcs[i] == init.funcs[i]);
            } else {
                assert(c.funcs[i] == lc.funcs[i - init.funcs.len()]);
            }
        }
    }
}

/// Every function completed while translating a function definition ends in
/// a return, the defined function included.
pub proof fn lemma_function_funcs_return(f: FunctionV, t: nat, l: nat)
    ensures
        forall|i: int|
            0 <= i < function_code(f, t, l).funcs.len() ==> ends_in_return(
                #[trigger] function_code(f, t, l).funcs[i].instructions,
            ),
    decreases f,
{
    lemma_function_code(f, t, l);
    match f.body {
        Some(b) => {
            lemma_stmt_funcs_return(*b, t, l);
            let c = stmt_code(*b, t, l);
            let fc = function_code(f, t, l);
            assert forall|i: int| 0 <= i < fc.funcs.len() implies ends_in_return(#[trigger] fc.funcs[i].instructions) by {
                if i < c.funcs.len() {
                    assert(fc.funcs[i] == c.funcs[i]);
                }
            }
        },
        None => {},
    }
}

/// Every function completed while translating a chain ends in a return.
pub proof fn lemma_chain_funcs_return(branches: Seq<(ExprV, StmtV)>, has_else: bool, t: nat, l: nat)
    ensures
        forall|i: int|
            0 <= i < chain_code(branches, has_else, t, l).funcs.len() ==> ends_in_return(
                #[trigger] chain_code(branches, has_else, t, l).funcs[i].instructions,
            ),
    decreases branches,
{
    if branches.len() == 0 {
        lemma_chain_empty(branches, has_else, t, l);
    } else {
        lemma_chain_cons(branches, has_else, t, l);
        let has_rest = branches.len() > 1 || has_else;
        let l1: nat = if has_rest { l + 3 } else { l + 2 };
        let cc = expr_code(branches[0].0, t);
        lemma_stmt_funcs_return(branches[0].1, cc.temps, l1);
        let tc = stmt_code(branches[0].1, cc.temps, l1);
        lemma_chain_funcs_return(branches.drop_first(), has_else, tc.temps, tc.labels);
        let rest = chain_code(branches.drop_first(), has_else, tc.temps, tc.labels);
        let c = chain_code(branches, has_else, t, l);
        assert forall|i: int| 0 <= i < c.funcs.len() implies ends_in_return(#[trigger] c.funcs[i].instructions) by {
            if i < tc.funcs.len() {
                assert(c.funcs[i] == tc.funcs[i]);
            } else {
                assert(c.funcs[i] == rest.funcs[i - tc.funcs.len()]);
            }
        }
    }
}

/// Every function of a translated program ends in a `return`, and the last
/// function is `__main__`, without parameters, holding the program's own
/// statements.
pub proof fn law_program_shape(ss: Seq<StmtV>, t: nat, l: nat)
    ensures
        program_code(ss, t, l).len() >= 1,
        program_code(ss, t, l).last().name == "__main__"@,
        program_code(ss, t, l).last().params == Seq::<Seq<char>>::empty(),
        program_code(ss, t, l).last().instructions == with_final_return(stmts_code(ss, t, l).instrs),
        forall|i: int|
            0 <= i < program_code(ss, t, l).len() ==> ends_in_return(
                #[trigger] program_code(ss, t, l)[i].instructions,
            ),
{
    lemma_stmts_funcs_return(ss, t, l);
    let c = stmts_code(ss, t, l);
    let p = program_code(ss, t, l);
    assert forall|i: int| 0 <= i < p.len() implies ends_in_return(#[trigger] p[i].instructions) by {
        if i < c.funcs.len() {
            assert(p[i] == c.funcs[i]);
        }
    }
}

/// Translating a program never reuses a temporary or a label number: the
/// generator's counters only grow.
pub proof fn law_counters_grow(ss: Seq<StmtV>, t: nat, l: nat)
    ensures
        stmts_code(ss, t, l).temps >= t,
        stmts_code(ss, t, l).labels >= l,
{
    lemma_stmts_code_mono(ss, t, l);
}

/// Assembly output needs a code generator that this build does not have.
pub fn emit_assembly(program: &TacProgram) -> (r: Result<String, String>)
    ensures
        r matches Err(m) && m@ == "Assembly generation requires the 'llvm-backend' feature"@,
{
    Err(String::from_str("Assembly generation requires the 'llvm-backend' feature"))
}

/// The names of parameters, one per parameter, in order.
proof fn lemma_param_names(ps: Seq<(Seq<char>, TypeV)>)
    ensures
        param_names(ps).len() == ps.len(),
        forall|i: int| 0 <= i < ps.len() ==> #[trigger] param_names(ps)[i] == ps[i].0,
    decreases ps.len(),
{
    if ps.len() > 0 {
        lemma_param_names(ps.drop_last());
        assert forall|i: int| 0 <= i < ps.len() implies #[trigger] param_names(ps)[i] == ps[i].0 by {
            if i < ps.len() - 1 {
                assert(ps.drop_last()[i] == ps[i]);
            }
        }
    }
}

/// A function definition becomes a TAC function of the same name whose
/// parameters are the definition's parameter names, in the same order; it is
/// the last function its translation completes, and in the program of that
/// definition alone it comes just before `__main__`.
pub proof fn law_function_parameters_in_order(f: FunctionV, t: nat, l: nat)
    ensures
        ({
            let fs = stmt_code(StmtV::FuncDef(f), t, l).funcs;
            &&& fs.len() >= 1
            &&& fs.last().name == f.name
            &&& fs.last().params.len() == f.params.len()
            &&& forall|i: int| 0 <= i < f.params.len() ==> #[trigger] fs.last().params[i] == f.params[i].0
        }),
        ({
            let p = program_code(seq![StmtV::FuncDef(f)], t, l);
            let fs = stmt_code(StmtV::FuncDef(f), t, l).funcs;
            &&& p.len() == fs.len() + 1
            &&& p[p.len() - 2] == fs.last()
            &&& p.last().name == "__main__"@
        }),
{
    lemma_code_funcdef(f, t, l);
    lemma_function_code(f, t, l);
    lemma_param_names(f.params);
    reveal(stmt_code);
    reveal(stmts_code);
    reveal(chain_code);
    reveal(function_code);
    let ss = seq![StmtV::FuncDef(f)];
    assert(ss.len() == 1);
    assert(ss.drop_last() =~= Seq::<StmtV>::empty());
    assert(ss.last() == StmtV::FuncDef(f));
    let c = stmt_code(StmtV::FuncDef(f), t, l);
    let init = stmts_code(ss.drop_last(), t, l);
    assert(init == plain_code(seq![], t, l));
    assert(stmts_code(ss, t, l) == then_code(init, stmt_code(ss.last(), init.temps, init.labels)));
    assert(stmts_code(ss, t, l).funcs =~= c.funcs);
}

} // verus!
