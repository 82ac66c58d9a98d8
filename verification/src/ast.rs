//! Abstract syntax of the language: types, expressions, statements and
//! functions, together with their mathematical views.
use vstd::prelude::*;

verus! {

/// Names of variables, functions, tests and constructors.
pub type Name = String;

/// The types that can be written in a program.
#[derive(Debug, PartialEq)]
pub enum Type {
    TInteger,
    TBool,
    TReal,
    TString,
    TVoid,
    /// Return type and argument types.
    TFunction(Box<Type>, Vec<Type>),
    TList(Box<Type>),
    TTuple(Vec<Type>),
    TMaybe(Box<Type>),
    /// Ok type and error type.
    TResult(Box<Type>, Box<Type>),
    TUnion(Vec<Type>),
    TAny,
    /// Name of the data type and its constructors, each with its field types.
    /// The parser gives the constructors sorted by name, each name once, so
    /// that equal lists mean equal constructor maps (see `adt`).
    TAlgebraicData(Name, Vec<(Name, Vec<Type>)>),
}

/// Expressions. A real constant is kept as its decimal literal.
#[derive(Debug, PartialEq)]
pub enum Expression {
    CTrue,
    CFalse,
    CInt(i32),
    CReal(String),
    CString(String),
    CVoid,
    Var(Name),
    FuncCall(Name, Vec<Expression>),
    Add(Box<Expression>, Box<Expression>),
    Sub(Box<Expression>, Box<Expression>),
    Mul(Box<Expression>, Box<Expression>),
    Div(Box<Expression>, Box<Expression>),
    And(Box<Expression>, Box<Expression>),
    Or(Box<Expression>, Box<Expression>),
    Not(Box<Expression>),
    EQ(Box<Expression>, Box<Expression>),
    NEQ(Box<Expression>, Box<Expression>),
    GT(Box<Expression>, Box<Expression>),
    LT(Box<Expression>, Box<Expression>),
    GTE(Box<Expression>, Box<Expression>),
    LTE(Box<Expression>, Box<Expression>),
    COk(Box<Expression>),
    CErr(Box<Expression>),
    CJust(Box<Expression>),
    CNothing,
    Unwrap(Box<Expression>),
    IsError(Box<Expression>),
    IsNothing(Box<Expression>),
    Propagate(Box<Expression>),
    Lambda(Function),
    ListValue(Vec<Expression>),
    Tuple(Vec<Expression>),
    Constructor(Name, Vec<Box<Expression>>),
}

/// Statements.
#[derive(Debug, PartialEq)]
pub enum Statement {
    VarDeclaration(Name, Box<Expression>),
    ValDeclaration(Name, Box<Expression>),
    Assignment(Name, Box<Expression>),
    IfThenElse(Box<Expression>, Box<Statement>, Option<Box<Statement>>),
    IfChain {
        branches: Vec<(Box<Expression>, Box<Statement>)>,
        else_branch: Option<Box<Statement>>,
    },
    While(Box<Expression>, Box<Statement>),
    For(Name, Box<Expression>, Box<Statement>),
    Block(Vec<Statement>),
    Sequence(Box<Statement>, Box<Statement>),
    /// Condition and message.
    Assert(Box<Expression>, Box<Expression>),
    AssertTrue(Box<Expression>, Box<Expression>),
    AssertFalse(Box<Expression>, Box<Expression>),
    /// Two operands and message.
    AssertEQ(Box<Expression>, Box<Expression>, Box<Expression>),
    AssertNEQ(Box<Expression>, Box<Expression>, Box<Expression>),
    TestDef(Function),
    ModTestDef(Name, Box<Statement>),
    AssertFails(String),
    FuncDef(Function),
    Return(Box<Expression>),
    /// Name of the data type and its constructors in declaration order.
    TypeDeclaration(Name, Vec<(Name, Vec<Type>)>),
    Match(Box<Expression>, Vec<(Expression, Statement)>),
}

/// A function (or test) definition.
#[derive(Debug, PartialEq)]
pub struct Function {
    pub name: Name,
    pub kind: Type,
    pub params: Vec<FormalArgument>,
    pub body: Option<Box<Statement>>,
}

/// A formal argument of a function.
#[derive(Debug, PartialEq)]
pub struct FormalArgument {
    pub argument_name: Name,
    pub argument_type: Type,
}

/// The signature of a function: its name and argument types.
#[derive(Debug, PartialEq)]
pub struct FuncSignature {
    pub name: Name,
    pub argument_types: Vec<Type>,
}

// ---------------------------------------------------------------------------
// Mathematical views
// ---------------------------------------------------------------------------

pub enum TypeV {
    TInteger,
    TBool,
    TReal,
    TString,
    TVoid,
    TFunction(Box<TypeV>, Seq<TypeV>),
    TList(Box<TypeV>),
    TTuple(Seq<TypeV>),
    TMaybe(Box<TypeV>),
    TResult(Box<TypeV>, Box<TypeV>),
    TUnion(Seq<TypeV>),
    TAny,
    TAlgebraicData(Seq<char>, Seq<(Seq<char>, Seq<TypeV>)>),
}

pub enum ExprV {
    CTrue,
    CFalse,
    CInt(i32),
    CReal(Seq<char>),
    CString(Seq<char>),
    CVoid,
    Var(Seq<char>),
    FuncCall(Seq<char>, Seq<ExprV>),
    Add(Box<ExprV>, Box<ExprV>),
    Sub(Box<ExprV>, Box<ExprV>),
    Mul(Box<ExprV>, Box<ExprV>),
    Div(Box<ExprV>, Box<ExprV>),
    And(Box<ExprV>, Box<ExprV>),
    Or(Box<ExprV>, Box<ExprV>),
    Not(Box<ExprV>),
    EQ(Box<ExprV>, Box<ExprV>),
    NEQ(Box<ExprV>, Box<ExprV>),
    GT(Box<ExprV>, Box<ExprV>),
    LT(Box<ExprV>, Box<ExprV>),
    GTE(Box<ExprV>, Box<ExprV>),
    LTE(Box<ExprV>, Box<ExprV>),
    COk(Box<ExprV>),
    CErr(Box<ExprV>),
    CJust(Box<ExprV>),
    CNothing,
    Unwrap(Box<ExprV>),
    IsError(Box<ExprV>),
    IsNothing(Box<ExprV>),
    Propagate(Box<ExprV>),
    Lambda(FunctionV),
    ListValue(Seq<ExprV>),
    Tuple(Seq<ExprV>),
    Constructor(Seq<char>, Seq<ExprV>),
}

pub enum StmtV {
    VarDeclaration(Seq<char>, ExprV),
    ValDeclaration(Seq<char>, ExprV),
    Assignment(Seq<char>, ExprV),
    IfThenElse(ExprV, Box<StmtV>, Option<Box<StmtV>>),
    IfChain { branches: Seq<(ExprV, StmtV)>, else_branch: Option<Box<StmtV>> },
    While(ExprV, Box<StmtV>),
    For(Seq<char>, ExprV, Box<StmtV>),
    Block(Seq<StmtV>),
    Sequence(Box<StmtV>, Box<StmtV>),
    Assert(ExprV, ExprV),
    AssertTrue(ExprV, ExprV),
    AssertFalse(ExprV, ExprV),
    AssertEQ(ExprV, ExprV, ExprV),
    AssertNEQ(ExprV, ExprV, ExprV),
    TestDef(FunctionV),
    ModTestDef(Seq<char>, Box<StmtV>),
    AssertFails(Seq<char>),
    FuncDef(FunctionV),
    Return(ExprV),
    TypeDeclaration(Seq<char>, Seq<(Seq<char>, Seq<TypeV>)>),
    Match(ExprV, Seq<(ExprV, StmtV)>),
}

pub struct FunctionV {
    pub name: Seq<char>,
    pub kind: TypeV,
    pub params: Seq<(Seq<char>, TypeV)>,
    pub body: Option<Box<StmtV>>,
}

pub struct FuncSignatureV {
    pub name: Seq<char>,
    pub argument_types: Seq<TypeV>,
}

pub open spec fn types_view(s: Seq<Type>) -> Seq<TypeV>
    decreases s,
{
    if s.len() == 0 {
        Seq::empty()
    } else {
        types_view(s.drop_last()).push(type_view(s.last()))
    }
}

pub open spec fn ctors_view(s: Seq<(Name, Vec<Type>)>) -> Seq<(Seq<char>, Seq<TypeV>)>
    decreases s,
{
    if s.len() == 0 {
        Seq::empty()
    } else {
        ctors_view(s.drop_last()).push((s.last().0@, types_view(s.last().1@)))
    }
}

pub open spec fn type_view(t: Type) -> TypeV
    decreases t,
{
    match t {
        Type::TInteger => TypeV::TInteger,
        Type::TBool => TypeV::TBool,
        Type::TReal => TypeV::TReal,
        Type::TString => TypeV::TString,
        Type::TVoid => TypeV::TVoid,
        Type::TFunction(r, a) => TypeV::TFunction(Box::new(type_view(*r)), types_view(a@)),
        Type::TList(b) => TypeV::TList(Box::new(type_view(*b))),
        Type::TTuple(v) => TypeV::TTuple(types_view(v@)),
        Type::TMaybe(b) => TypeV::TMaybe(Box::new(type_view(*b))),
        Type::TResult(o, e) => TypeV::TResult(Box::new(type_view(*o)), Box::new(type_view(*e))),
        Type::TUnion(v) => TypeV::TUnion(types_view(v@)),
        Type::TAny => TypeV::TAny,
        Type::TAlgebraicData(n, c) => TypeV::TAlgebraicData(n@, ctors_view(c@)),
    }
}

pub open spec fn exprs_view(s: Seq<Expression>) -> Seq<ExprV>
    decreases s,
{
    if s.len() == 0 {
        Seq::empty()
    } else {
        exprs_view(s.drop_last()).push(expr_view(s.last()))
    }
}

pub open spec fn boxed_exprs_view(s: Seq<Box<Expression>>) -> Seq<ExprV>
    decreases s,
{
    if s.len() == 0 {
        Seq::empty()
    } else {
        boxed_exprs_view(s.drop_last()).push(expr_view(*s.last()))
    }
}

pub open spec fn expr_view(e: Expression) -> ExprV
    decreases e,
{
    match e {
        Expression::CTrue => ExprV::CTrue,
        Expression::CFalse => ExprV::CFalse,
        Expression::CInt(i) => ExprV::CInt(i),
        Expression::CReal(s) => ExprV::CReal(s@),
        Expression::CString(s) => ExprV::CString(s@),
        Expression::CVoid => ExprV::CVoid,
        Expression::Var(n) => ExprV::Var(n@),
        Expression::FuncCall(n, a) => ExprV::FuncCall(n@, exprs_view(a@)),
        Expression::Add(l, r) => ExprV::Add(Box::new(expr_view(*l)), Box::new(expr_view(*r))),
        Expression::Sub(l, r) => ExprV::Sub(Box::new(expr_view(*l)), Box::new(expr_view(*r))),
        Expression::Mul(l, r) => ExprV::Mul(Box::new(expr_view(*l)), Box::new(expr_view(*r))),
        Expression::Div(l, r) => ExprV::Div(Box::new(expr_view(*l)), Box::new(expr_view(*r))),
        Expression::And(l, r) => ExprV::And(Box::new(expr_view(*l)), Box::new(expr_view(*r))),
        Expression::Or(l, r) => ExprV::Or(Box::new(expr_view(*l)), Box::new(expr_view(*r))),
        Expression::Not(x) => ExprV::Not(Box::new(expr_view(*x))),
        Expression::EQ(l, r) => ExprV::EQ(Box::new(expr_view(*l)), Box::new(expr_view(*r))),
        Expression::NEQ(l, r) => ExprV::NEQ(Box::new(expr_view(*l)), Box::new(expr_view(*r))),
        Expression::GT(l, r) => ExprV::GT(Box::new(expr_view(*l)), Box::new(expr_view(*r))),
        Expression::LT(l, r) => ExprV::LT(Box::new(expr_view(*l)), Box::new(expr_view(*r))),
        Expression::GTE(l, r) => ExprV::GTE(Box::new(expr_view(*l)), Box::new(expr_view(*r))),
        Expression::LTE(l, r) => ExprV::LTE(Box::new(expr_view(*l)), Box::new(expr_view(*r))),
        Expression::COk(x) => ExprV::COk(Box::new(expr_view(*x))),
        Expression::CErr(x) => ExprV::CErr(Box::new(expr_view(*x))),
        Expression::CJust(x) => ExprV::CJust(Box::new(expr_view(*x))),
        Expression::CNothing => ExprV::CNothing,
        Expression::Unwrap(x) => ExprV::Unwrap(Box::new(expr_view(*x))),
        Expression::IsError(x) => ExprV::IsError(Box::new(expr_view(*x))),
        Expression::IsNothing(x) => ExprV::IsNothing(Box::new(expr_view(*x))),
        Expression::Propagate(x) => ExprV::Propagate(Box::new(expr_view(*x))),
        Expression::Lambda(f) => ExprV::Lambda(function_view(f)),
        Expression::ListValue(v) => ExprV::ListValue(exprs_view(v@)),
        Expression::Tuple(v) => ExprV::Tuple(exprs_view(v@)),
        Expression::Constructor(n, v) => ExprV::Constructor(n@, boxed_exprs_view(v@)),
    }
}

pub open spec fn params_view(s: Seq<FormalArgument>) -> Seq<(Seq<char>, TypeV)>
    decreases s,
{
    if s.len() == 0 {
        Seq::empty()
    } else {
        params_view(s.drop_last()).push((s.last().argument_name@, type_view(s.last().argument_type)))
    }
}

pub open spec fn function_view(f: Function) -> FunctionV
    decreases f,
{
    FunctionV {
        name: f.name@,
        kind: type_view(f.kind),
        params: params_view(f.params@),
        body: match f.body {
            Some(b) => Some(Box::new(stmt_view(*b))),
            None => None,
        },
    }
}

pub open spec fn stmts_view(s: Seq<Statement>) -> Seq<StmtV>
    decreases s,
{
    if s.len() == 0 {
        Seq::empty()
    } else {
        stmts_view(s.drop_last()).push(stmt_view(s.last()))
    }
}

pub open spec fn branches_view(s: Seq<(Box<Expression>, Box<Statement>)>) -> Seq<(ExprV, StmtV)>
    decreases s,
{
    if s.len() == 0 {
        Seq::empty()
    } else {
        branches_view(s.drop_last()).push((expr_view(*s.last().0), stmt_view(*s.last().1)))
    }
}

pub open spec fn arms_view(s: Seq<(Expression, Statement)>) -> Seq<(ExprV, StmtV)>
    decreases s,
{
    if s.len() == 0 {
        Seq::empty()
    } else {
        arms_view(s.drop_last()).push((expr_view(s.last().0), stmt_view(s.last().1)))
    }
}

pub open spec fn opt_stmt_view(s: Option<Box<Statement>>) -> Option<Box<StmtV>>
    decreases s,
{
    match s {
        Some(b) => Some(Box::new(stmt_view(*b))),
        None => None,
    }
}

pub open spec fn stmt_view(s: Statement) -> StmtV
    decreases s,
{
    match s {
        Statement::VarDeclaration(n, e) => StmtV::VarDeclaration(n@, expr_view(*e)),
        Statement::ValDeclaration(n, e) => StmtV::ValDeclaration(n@, expr_view(*e)),
        Statement::Assignment(n, e) => StmtV::Assignment(n@, expr_view(*e)),
        Statement::IfThenElse(c, t, e) => StmtV::IfThenElse(
            expr_view(*c),
            Box::new(stmt_view(*t)),
            opt_stmt_view(e),
        ),
        Statement::IfChain { branches, else_branch } => StmtV::IfChain {
            branches: branches_view(branches@),
            else_branch: opt_stmt_view(else_branch),
        },
        Statement::While(c, b) => StmtV::While(expr_view(*c), Box::new(stmt_view(*b))),
        Statement::For(n, e, b) => StmtV::For(n@, expr_view(*e), Box::new(stmt_view(*b))),
        Statement::Block(v) => StmtV::Block(stmts_view(v@)),
        Statement::Sequence(a, b) => StmtV::Sequence(Box::new(stmt_view(*a)), Box::new(stmt_view(*b))),
        Statement::Assert(a, m) => StmtV::Assert(expr_view(*a), expr_view(*m)),
        Statement::AssertTrue(a, m) => StmtV::AssertTrue(expr_view(*a), expr_view(*m)),
        Statement::AssertFalse(a, m) => StmtV::AssertFalse(expr_view(*a), expr_view(*m)),
        Statement::AssertEQ(a, b, m) => StmtV::AssertEQ(expr_view(*a), expr_view(*b), expr_view(*m)),
        Statement::AssertNEQ(a, b, m) => StmtV::AssertNEQ(expr_view(*a), expr_view(*b), expr_view(*m)),
        Statement::TestDef(f) => StmtV::TestDef(function_view(f)),
        Statement::ModTestDef(n, b) => StmtV::ModTestDef(n@, Box::new(stmt_view(*b))),
        Statement::AssertFails(m) => StmtV::AssertFails(m@),
        Statement::FuncDef(f) => StmtV::FuncDef(function_view(f)),
        Statement::Return(e) => StmtV::Return(expr_view(*e)),
        Statement::TypeDeclaration(n, c) => StmtV::TypeDeclaration(n@, ctors_view(c@)),
        Statement::Match(e, arms) => StmtV::Match(expr_view(*e), arms_view(arms@)),
    }
}

impl View for Type {
    type V = TypeV;

    open spec fn view(&self) -> TypeV {
        type_view(*self)
    }
}

impl View for Expression {
    type V = ExprV;

    open spec fn view(&self) -> ExprV {
        expr_view(*self)
    }
}

impl View for Statement {
    type V = StmtV;

    open spec fn view(&self) -> StmtV {
        stmt_view(*self)
    }
}

impl View for Function {
    type V = FunctionV;

    open spec fn view(&self) -> FunctionV {
        function_view(*self)
    }
}

impl View for FuncSignature {
    type V = FuncSignatureV;

    open spec fn view(&self) -> FuncSignatureV {
        FuncSignatureV { name: self.name@, argument_types: types_view(self.argument_types@) }
    }
}

} // verus!

verus! {

/// Copies a vector of types.
pub fn clone_types(v: &Vec<Type>) -> (r: Vec<Type>)
    ensures
        types_view(r@) == types_view(v@),
    decreases v@, 1int,
{
    let mut r: Vec<Type> = Vec::new();
    let mut i: usize = 0;
    while i < v.len()
        invariant
            i <= v.len(),
            types_view(r@) == types_view(v@.subrange(0, i as int)),
        decreases v.len() - i,
    {
        let x = clone_type(&v[i]);
        let ghost old_r = r@;
        r.push(x);
        assert(v@.subrange(0, i + 1).drop_last() == v@.subrange(0, i as int));
        assert(r@.drop_last() == old_r);
        i = i + 1;
    }
    assert(v@.subrange(0, v.len() as int) == v@);
    r
}

/// Copies a list of data constructors.
pub fn clone_ctors(v: &Vec<(Name, Vec<Type>)>) -> (r: Vec<(Name, Vec<Type>)>)
    ensures
        ctors_view(r@) == ctors_view(v@),
    decreases v@, 1int,
{
    let mut r: Vec<(Name, Vec<Type>)> = Vec::new();
    let mut i: usize = 0;
    while i < v.len()
        invariant
            i <= v.len(),
            ctors_view(r@) == ctors_view(v@.subrange(0, i as int)),
        decreases v.len() - i,
    {
        let x = (v[i].0.clone(), clone_types(&v[i].1));
        let ghost old_r = r@;
        r.push(x);
        assert(v@.subrange(0, i + 1).drop_last() == v@.subrange(0, i as int));
        assert(r@.drop_last() == old_r);
        i = i + 1;
    }
    assert(v@.subrange(0, v.len() as int) == v@);
    r
}

/// Copies a vector of expressions.
pub fn clone_exprs(v: &Vec<Expression>) -> (r: Vec<Expression>)
    ensures
        exprs_view(r@) == exprs_view(v@),
    decreases v@, 1int,
{
    let mut r: Vec<Expression> = Vec::new();
    let mut i: usize = 0;
    while i < v.len()
        invariant
            i <= v.len(),
            exprs_view(r@) == exprs_view(v@.subrange(0, i as int)),
        decreases v.len() - i,
    {
        let x = clone_expr(&v[i]);
        let ghost old_r = r@;
        r.push(x);
        assert(v@.subrange(0, i + 1).drop_last() == v@.subrange(0, i as int));
        assert(r@.drop_last() == old_r);
        i = i + 1;
    }
    assert(v@.subrange(0, v.len() as int) == v@);
    r
}

/// Copies a vector of boxed expressions.
pub fn clone_boxed_exprs(v: &Vec<Box<Expression>>) -> (r: Vec<Box<Expression>>)
    ensures
        boxed_exprs_view(r@) == boxed_exprs_view(v@),
    decreases v@, 1int,
{
    let mut r: Vec<Box<Expression>> = Vec::new();
    let mut i: usize = 0;
    while i < v.len()
        invariant
            i <= v.len(),
            boxed_exprs_view(r@) == boxed_exprs_view(v@.subrange(0, i as int)),
        decreases v.len() - i,
    {
        let x = Box::new(clone_expr(&v[i]));
        let ghost old_r = r@;
        r.push(x);
        assert(v@.subrange(0, i + 1).drop_last() == v@.subrange(0, i as int));
        assert(r@.drop_last() == old_r);
        i = i + 1;
    }
    assert(v@.subrange(0, v.len() as int) == v@);
    r
}

/// Copies a list of formal arguments.
pub fn clone_params(v: &Vec<FormalArgument>) -> (r: Vec<FormalArgument>)
    ensures
        params_view(r@) == params_view(v@),
    decreases v@, 1int,
{
    let mut r: Vec<FormalArgument> = Vec::new();
    let mut i: usize = 0;
    while i < v.len()
        invariant
            i <= v.len(),
            params_view(r@) == params_view(v@.subrange(0, i as int)),
        decreases v.len() - i,
    {
        let x = FormalArgument { argument_name: v[i].argument_name.clone(), argument_type: clone_type(&v[i].argument_type) };
        let ghost old_r = r@;
        r.push(x);
        assert(v@.subrange(0, i + 1).drop_last() == v@.subrange(0, i as int));
        assert(r@.drop_last() == old_r);
        i = i + 1;
    }
    assert(v@.subrange(0, v.len() as int) == v@);
    r
}

/// Copies a vector of statements.
pub fn clone_stmts(v: &Vec<Statement>) -> (r: Vec<Statement>)
    ensures
        stmts_view(r@) == stmts_view(v@),
    decreases v@, 1int,
{
    let mut r: Vec<Statement> = Vec::new();
    let mut i: usize = 0;
    while i < v.len()
        invariant
            i <= v.len(),
            stmts_view(r@) == stmts_view(v@.subrange(0, i as int)),
        decreases v.len() - i,
    {
        let x = clone_stmt(&v[i]);
        let ghost old_r = r@;
        r.push(x);
        assert(v@.subrange(0, i + 1).drop_last() == v@.subrange(0, i as int));
        assert(r@.drop_last() == old_r);
        i = i + 1;
    }
    assert(v@.subrange(0, v.len() as int) == v@);
    r
}

/// Copies the branches of an if chain.
pub fn clone_branches(v: &Vec<(Box<Expression>, Box<Statement>)>) -> (r: Vec<(Box<Expression>, Box<Statement>)>)
    ensures
        branches_view(r@) == branches_view(v@),
    decreases v@, 1int,
{
    let mut r: Vec<(Box<Expression>, Box<Statement>)> = Vec::new();
    let mut i: usize = 0;
    while i < v.len()
        invariant
            i <= v.len(),
            branches_view(r@) == branches_view(v@.subrange(0, i as int)),
        decreases v.len() - i,
    {
        let x = (Box::new(clone_expr(&v[i].0)), Box::new(clone_stmt(&v[i].1)));
        let ghost old_r = r@;
        r.push(x);
        assert(v@.subrange(0, i + 1).drop_last() == v@.subrange(0, i as int));
        assert(r@.drop_last() == old_r);
        i = i + 1;
    }
    assert(v@.subrange(0, v.len() as int) == v@);
    r
}

/// Copies the arms of a match.
pub fn clone_arms(v: &Vec<(Expression, Statement)>) -> (r: Vec<(Expression, Statement)>)
    ensures
        arms_view(r@) == arms_view(v@),
    decreases v@, 1int,
{
    let mut r: Vec<(Expression, Statement)> = Vec::new();
    let mut i: usize = 0;
    while i < v.len()
        invariant
            i <= v.len(),
            arms_view(r@) == arms_view(v@.subrange(0, i as int)),
        decreases v.len() - i,
    {
        let x = (clone_expr(&v[i].0), clone_stmt(&v[i].1));
        let ghost old_r = r@;
        r.push(x);
        assert(v@.subrange(0, i + 1).drop_last() == v@.subrange(0, i as int));
        assert(r@.drop_last() == old_r);
        i = i + 1;
    }
    assert(v@.subrange(0, v.len() as int) == v@);
    r
}

/// Copies a type.
pub fn clone_type(t: &Type) -> (r: Type)
    ensures
        r@ == t@,
    decreases t, 0int,
{
    match t {
        Type::TInteger => Type::TInteger,
        Type::TBool => Type::TBool,
        Type::TReal => Type::TReal,
        Type::TString => Type::TString,
        Type::TVoid => Type::TVoid,
        Type::TFunction(r, a) => Type::TFunction(Box::new(clone_type(r)), clone_types(a)),
        Type::TList(b) => Type::TList(Box::new(clone_type(b))),
        Type::TTuple(v) => Type::TTuple(clone_types(v)),
        Type::TMaybe(b) => Type::TMaybe(Box::new(clone_type(b))),
        Type::TResult(o, e) => Type::TResult(Box::new(clone_type(o)), Box::new(clone_type(e))),
        Type::TUnion(v) => Type::TUnion(clone_types(v)),
        Type::TAny => Type::TAny,
        Type::TAlgebraicData(n, c) => Type::TAlgebraicData(n.clone(), clone_ctors(c)),
    }
}

/// Copies an expression.
pub fn clone_expr(e: &Expression) -> (r: Expression)
    ensures
        r@ == e@,
    decreases e, 0int,
{
    match e {
        Expression::CTrue => Expression::CTrue,
        Expression::CFalse => Expression::CFalse,
        Expression::CInt(i) => Expression::CInt(*i),
        Expression::CReal(s) => Expression::CReal(s.clone()),
        Expression::CString(s) => Expression::CString(s.clone()),
        Expression::CVoid => Expression::CVoid,
        Expression::Var(n) => Expression::Var(n.clone()),
        Expression::FuncCall(n, a) => Expression::FuncCall(n.clone(), clone_exprs(a)),
        Expression::Add(l, r) => Expression::Add(Box::new(clone_expr(l)), Box::new(clone_expr(r))),
        Expression::Sub(l, r) => Expression::Sub(Box::new(clone_expr(l)), Box::new(clone_expr(r))),
        Expression::Mul(l, r) => Expression::Mul(Box::new(clone_expr(l)), Box::new(clone_expr(r))),
        Expression::Div(l, r) => Expression::Div(Box::new(clone_expr(l)), Box::new(clone_expr(r))),
        Expression::And(l, r) => Expression::And(Box::new(clone_expr(l)), Box::new(clone_expr(r))),
        Expression::Or(l, r) => Expression::Or(Box::new(clone_expr(l)), Box::new(clone_expr(r))),
        Expression::EQ(l, r) => Expression::EQ(Box::new(clone_expr(l)), Box::new(clone_expr(r))),
        Expression::NEQ(l, r) => Expression::NEQ(Box::new(clone_expr(l)), Box::new(clone_expr(r))),
        Expression::GT(l, r) => Expression::GT(Box::new(clone_expr(l)), Box::new(clone_expr(r))),
        Expression::LT(l, r) => Expression::LT(Box::new(clone_expr(l)), Box::new(clone_expr(r))),
        Expression::GTE(l, r) => Expression::GTE(Box::new(clone_expr(l)), Box::new(clone_expr(r))),
        Expression::LTE(l, r) => Expression::LTE(Box::new(clone_expr(l)), Box::new(clone_expr(r))),
        Expression::Not(x) => Expression::Not(Box::new(clone_expr(x))),
        Expression::COk(x) => Expression::COk(Box::new(clone_expr(x))),
        Expression::CErr(x) => Expression::CErr(Box::new(clone_expr(x))),
        Expression::CJust(x) => Expression::CJust(Box::new(clone_expr(x))),
        Expression::Unwrap(x) => Expression::Unwrap(Box::new(clone_expr(x))),
        Expression::IsError(x) => Expression::IsError(Box::new(clone_expr(x))),
        Expression::IsNothing(x) => Expression::IsNothing(Box::new(clone_expr(x))),
        Expression::Propagate(x) => Expression::Propagate(Box::new(clone_expr(x))),
        Expression::CNothing => Expression::CNothing,
        Expression::Lambda(f) => Expression::Lambda(clone_function(f)),
        Expression::ListValue(v) => Expression::ListValue(clone_exprs(v)),
        Expression::Tuple(v) => Expression::Tuple(clone_exprs(v)),
        Expression::Constructor(n, v) => Expression::Constructor(n.clone(), clone_boxed_exprs(v)),
    }
}

/// Copies a function definition.
pub fn clone_function(f: &Function) -> (r: Function)
    ensures
        r@ == f@,
    decreases f, 0int,
{
    Function {
        name: f.name.clone(),
        kind: clone_type(&f.kind),
        params: clone_params(&f.params),
        body: clone_opt_stmt(&f.body),
    }
}

/// Copies an optional boxed statement.
pub fn clone_opt_stmt(s: &Option<Box<Statement>>) -> (r: Option<Box<Statement>>)
    ensures
        opt_stmt_view(r) == opt_stmt_view(*s),
    decreases s, 0int,
{
    match s {
        Some(b) => Some(Box::new(clone_stmt(b))),
        None => None,
    }
}

/// Copies a statement.
pub fn clone_stmt(s: &Statement) -> (r: Statement)
    ensures
        r@ == s@,
    decreases s, 0int,
{
    match s {
        Statement::VarDeclaration(n, e) => Statement::VarDeclaration(n.clone(), Box::new(clone_expr(e))),
        Statement::ValDeclaration(n, e) => Statement::ValDeclaration(n.clone(), Box::new(clone_expr(e))),
        Statement::Assignment(n, e) => Statement::Assignment(n.clone(), Box::new(clone_expr(e))),
        Statement::IfThenElse(c, t, e) => Statement::IfThenElse(
            Box::new(clone_expr(c)),
            Box::new(clone_stmt(t)),
            clone_opt_stmt(e),
        ),
        Statement::IfChain { branches, else_branch } => Statement::IfChain {
            branches: clone_branches(branches),
            else_branch: clone_opt_stmt(else_branch),
        },
        Statement::While(c, b) => Statement::While(Box::new(clone_expr(c)), Box::new(clone_stmt(b))),
        Statement::For(n, e, b) => Statement::For(n.clone(), Box::new(clone_expr(e)), Box::new(clone_stmt(b))),
        Statement::Block(v) => Statement::Block(clone_stmts(v)),
        Statement::Sequence(a, b) => Statement::Sequence(Box::new(clone_stmt(a)), Box::new(clone_stmt(b))),
        Statement::Assert(a, m) => Statement::Assert(Box::new(clone_expr(a)), Box::new(clone_expr(m))),
        Statement::AssertTrue(a, m) => Statement::AssertTrue(Box::new(clone_expr(a)), Box::new(clone_expr(m))),
        Statement::AssertFalse(a, m) => Statement::AssertFalse(Box::new(clone_expr(a)), Box::new(clone_expr(m))),
        Statement::AssertEQ(a, b, m) => Statement::AssertEQ(Box::new(clone_expr(a)), Box::new(clone_expr(b)), Box::new(clone_expr(m))),
        Statement::AssertNEQ(a, b, m) => Statement::AssertNEQ(Box::new(clone_expr(a)), Box::new(clone_expr(b)), Box::new(clone_expr(m))),
        Statement::TestDef(f) => Statement::TestDef(clone_function(f)),
        Statement::ModTestDef(n, b) => Statement::ModTestDef(n.clone(), Box::new(clone_stmt(b))),
        Statement::AssertFails(m) => Statement::AssertFails(m.clone()),
        Statement::FuncDef(f) => Statement::FuncDef(clone_function(f)),
        Statement::Return(e) => Statement::Return(Box::new(clone_expr(e))),
        Statement::TypeDeclaration(n, c) => Statement::TypeDeclaration(n.clone(), clone_ctors(c)),
        Statement::Match(e, arms) => Statement::Match(Box::new(clone_expr(e)), clone_arms(arms)),
    }
}

} // verus!

verus! {

impl Clone for Type {
    fn clone(&self) -> (r: Self)
        ensures
            r@ == self@,
    {
        clone_type(self)
    }
}

impl Clone for Expression {
    fn clone(&self) -> (r: Self)
        ensures
            r@ == self@,
    {
        clone_expr(self)
    }
}

impl Clone for Statement {
    fn clone(&self) -> (r: Self)
        ensures
            r@ == self@,
    {
        clone_stmt(self)
    }
}

impl Clone for Function {
    fn clone(&self) -> (r: Self)
        ensures
            r@ == self@,
    {
        clone_function(self)
    }
}

impl Clone for FormalArgument {
    fn clone(&self) -> (r: Self)
        ensures
            r.argument_name@ == self.argument_name@,
            r.argument_type@ == self.argument_type@,
    {
        FormalArgument {
            argument_name: self.argument_name.clone(),
            argument_type: clone_type(&self.argument_type),
        }
    }
}

impl Clone for FuncSignature {
    fn clone(&self) -> (r: Self)
        ensures
            r@ == self@,
    {
        FuncSignature { name: self.name.clone(), argument_types: clone_types(&self.argument_types) }
    }
}

/// The view of a sequence of types is taken element by element.
pub proof fn lemma_types_view(s: Seq<Type>)
    ensures
        types_view(s).len() == s.len(),
        forall|i: int| 0 <= i < s.len() ==> #[trigger] types_view(s)[i] == s[i]@,
    decreases s.len(),
{
    if s.len() > 0 {
        lemma_types_view(s.drop_last());
    }
}

/// The view of a list of constructors is taken element by element.
pub proof fn lemma_ctors_view(s: Seq<(Name, Vec<Type>)>)
    ensures
        ctors_view(s).len() == s.len(),
        forall|i: int|
            0 <= i < s.len() ==> #[trigger] ctors_view(s)[i] == (s[i].0@, types_view(s[i].1@)),
    decreases s.len(),
{
    if s.len() > 0 {
        lemma_ctors_view(s.drop_last());
    }
}

/// The view of a sequence of expressions is taken element by element.
pub proof fn lemma_exprs_view(s: Seq<Expression>)
    ensures
        exprs_view(s).len() == s.len(),
        forall|i: int| 0 <= i < s.len() ==> #[trigger] exprs_view(s)[i] == s[i]@,
    decreases s.len(),
{
    if s.len() > 0 {
        lemma_exprs_view(s.drop_last());
    }
}

/// The view of a sequence of boxed expressions is taken element by element.
pub proof fn lemma_boxed_exprs_view(s: Seq<Box<Expression>>)
    ensures
        boxed_exprs_view(s).len() == s.len(),
        forall|i: int| 0 <= i < s.len() ==> #[trigger] boxed_exprs_view(s)[i] == (*s[i])@,
    decreases s.len(),
{
    if s.len() > 0 {
        lemma_boxed_exprs_view(s.drop_last());
    }
}

/// The view of the branches of a conditional chain is taken element by
/// element.
pub proof fn lemma_branches_view(s: Seq<(Box<Expression>, Box<Statement>)>)
    ensures
        branches_view(s).len() == s.len(),
        forall|i: int|
            0 <= i < s.len() ==> #[trigger] branches_view(s)[i] == ((*s[i].0)@, (*s[i].1)@),
    decreases s.len(),
{
    if s.len() > 0 {
        lemma_branches_view(s.drop_last());
    }
}

/// The view of the arms of a match is taken element by element.
pub proof fn lemma_arms_view(s: Seq<(Expression, Statement)>)
    ensures
        arms_view(s).len() == s.len(),
        forall|i: int| 0 <= i < s.len() ==> #[trigger] arms_view(s)[i] == (s[i].0@, s[i].1@),
    decreases s.len(),
{
    if s.len() > 0 {
        lemma_arms_view(s.drop_last());
    }
}

/// The view of a sequence of statements is taken element by element.
pub proof fn lemma_stmts_view(s: Seq<Statement>)
    ensures
        stmts_view(s).len() == s.len(),
        forall|i: int| 0 <= i < s.len() ==> #[trigger] stmts_view(s)[i] == s[i]@,
    decreases s.len(),
{
    if s.len() > 0 {
        lemma_stmts_view(s.drop_last());
    }
}

/// The view of a list of formal arguments is taken element by element.
pub proof fn lemma_params_view(s: Seq<FormalArgument>)
    ensures
        params_view(s).len() == s.len(),
        forall|i: int|
            0 <= i < s.len() ==> #[trigger] params_view(s)[i] == (
                s[i].argument_name@,
                s[i].argument_type@,
            ),
    decreases s.len(),
{
    if s.len() > 0 {
        lemma_params_view(s.drop_last());
    }
}

/// Decides whether two sequences of types are equal.
pub fn types_equal(a: &Vec<Type>, b: &Vec<Type>) -> (r: bool)
    ensures
        r == (types_view(a@) == types_view(b@)),
    decreases a@, 1int,
{
    proof {
        lemma_types_view(a@);
        lemma_types_view(b@);
    }
    if a.len() != b.len() {
        return false;
    }
    let mut i: usize = 0;
    while i < a.len()
        invariant
            a.len() == b.len(),
            i <= a.len(),
            types_view(a@).len() == a.len(),
            types_view(b@).len() == b.len(),
            forall|j: int| 0 <= j < a.len() ==> #[trigger] types_view(a@)[j] == a@[j]@,
            forall|j: int| 0 <= j < b.len() ==> #[trigger] types_view(b@)[j] == b@[j]@,
            forall|j: int| 0 <= j < i ==> types_view(a@)[j] == types_view(b@)[j],
        decreases a.len() - i,
    {
        if !type_equal(&a[i], &b[i]) {
            assert(types_view(a@)[i as int] != types_view(b@)[i as int]);
            return false;
        }
        i = i + 1;
    }
    assert(types_view(a@) =~= types_view(b@));
    true
}

/// Decides whether two constructor lists are equal.
pub fn ctors_equal(a: &Vec<(Name, Vec<Type>)>, b: &Vec<(Name, Vec<Type>)>) -> (r: bool)
    ensures
        r == (ctors_view(a@) == ctors_view(b@)),
    decreases a@, 1int,
{
    proof {
        lemma_ctors_view(a@);
        lemma_ctors_view(b@);
    }
    if a.len() != b.len() {
        return false;
    }
    let mut i: usize = 0;
    while i < a.len()
        invariant
            a.len() == b.len(),
            i <= a.len(),
            ctors_view(a@).len() == a.len(),
            ctors_view(b@).len() == b.len(),
            forall|j: int|
                0 <= j < a.len() ==> #[trigger] ctors_view(a@)[j] == (
                    a@[j].0@,
                    types_view(a@[j].1@),
                ),
            forall|j: int|
                0 <= j < b.len() ==> #[trigger] ctors_view(b@)[j] == (
                    b@[j].0@,
                    types_view(b@[j].1@),
                ),
            forall|j: int| 0 <= j < i ==> ctors_view(a@)[j] == ctors_view(b@)[j],
        decreases a.len() - i,
    {
        let same_name = a[i].0 == b[i].0;
        if !same_name || !types_equal(&a[i].1, &b[i].1) {
            assert(ctors_view(a@)[i as int] != ctors_view(b@)[i as int]);
            return false;
        }
        i = i + 1;
    }
    assert(ctors_view(a@) =~= ctors_view(b@));
    true
}

/// Decides whether two types are equal.
pub fn type_equal(a: &Type, b: &Type) -> (r: bool)
    ensures
        r == (a@ == b@),
    decreases a, 0int,
{
    match (a, b) {
        (Type::TInteger, Type::TInteger) => true,
        (Type::TBool, Type::TBool) => true,
        (Type::TReal, Type::TReal) => true,
        (Type::TString, Type::TString) => true,
        (Type::TVoid, Type::TVoid) => true,
        (Type::TAny, Type::TAny) => true,
        (Type::TFunction(r1, a1), Type::TFunction(r2, a2)) => type_equal(r1, r2) && types_equal(
            a1,
            a2,
        ),
        (Type::TList(x), Type::TList(y)) => type_equal(x, y),
        (Type::TTuple(x), Type::TTuple(y)) => types_equal(x, y),
        (Type::TMaybe(x), Type::TMaybe(y)) => type_equal(x, y),
        (Type::TResult(o1, e1), Type::TResult(o2, e2)) => type_equal(o1, o2) && type_equal(e1, e2),
        (Type::TUnion(x), Type::TUnion(y)) => types_equal(x, y),
        (Type::TAlgebraicData(n1, c1), Type::TAlgebraicData(n2, c2)) => {
            let same = *n1 == *n2;
            same && ctors_equal(c1, c2)
        },
        _ => false,
    }
}

} // verus!

verus! {

/// The argument types of a list of formal arguments (viewed).
pub open spec fn param_types(params: Seq<(Seq<char>, TypeV)>) -> Seq<TypeV> {
    params.map_values(|p: (Seq<char>, TypeV)| p.1)
}

impl Function {
    /// The function that stands for the top level of a program: named
    /// `__main__`, returning void, with no parameters and no body.
    pub fn new() -> (r: Function)
        ensures
            r@ == (FunctionV { name: "__main__"@, kind: TypeV::TVoid, params: seq![], body: None }),
    {
        let r = Function {
            name: String::from_str("__main__"),
            kind: Type::TVoid,
            params: Vec::new(),
            body: None,
        };
        assert(params_view(r.params@) =~= seq![]);
        r
    }
}

impl FuncSignature {
    /// The empty signature: no name and no argument types.
    pub fn new() -> (r: FuncSignature)
        ensures
            r@ == (FuncSignatureV { name: seq![], argument_types: seq![] }),
    {
        let r = FuncSignature { name: String::new(), argument_types: Vec::new() };
        assert(types_view(r.argument_types@) =~= seq![]);
        r
    }

    /// The signature of a function: its name and the types of its parameters
    /// in order.
    pub fn from_func(func: &Function) -> (r: FuncSignature)
        ensures
            r@ == (FuncSignatureV { name: func@.name, argument_types: param_types(func@.params) }),
    {
        let mut types: Vec<Type> = Vec::new();
        let mut i: usize = 0;
        proof {
            lemma_params_view(func.params@);
        }
        while i < func.params.len()
            invariant
                i <= func.params.len(),
                params_view(func.params@).len() == func.params.len(),
                forall|j: int|
                    0 <= j < func.params.len() ==> #[trigger] params_view(func.params@)[j] == (
                        func.params@[j].argument_name@,
                        func.params@[j].argument_type@,
                    ),
                types_view(types@) == param_types(params_view(func.params@)).subrange(0, i as int),
            decreases func.params.len() - i,
        {
            let t = clone_type(&func.params[i].argument_type);
            let ghost old_types = types@;
            types.push(t);
            assert(types@.drop_last() == old_types);
            assert(param_types(params_view(func.params@)).subrange(0, i + 1) =~= param_types(
                params_view(func.params@),
            ).subrange(0, i as int).push(t@));
            i = i + 1;
        }
        assert(param_types(params_view(func.params@)).subrange(0, i as int) =~= param_types(
            params_view(func.params@),
        ));
        FuncSignature { name: func.name.clone(), argument_types: types }
    }
}

impl FormalArgument {
    /// A formal argument with the given name and type.
    pub fn new(argument_name: Name, argument_type: Type) -> (r: Self)
        ensures
            r.argument_name == argument_name,
            r.argument_type == argument_type,
    {
        FormalArgument { argument_name, argument_type }
    }
}

} // verus!
