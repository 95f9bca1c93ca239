//! The abstract syntax: operators, expressions, statements, and a program,
//! together with their mathematical images.

use vstd::prelude::*;

verus! {

/// An operator in prefix position.
#[derive(Debug, Clone, Copy, PartialEq, Eq)]
pub enum PrefixOperator {
    Plus,
    Minus,
    Bang,
}

/// An operator between two operands.
#[derive(Debug, Clone, Copy, PartialEq, Eq)]
pub enum InfixOperator {
    Assign,
    Equal,
    NotEqual,
    GreaterThan,
    LowerThan,
    GreaterThanOrEqual,
    LowerThanOrEqual,
    Plus,
    Minus,
    Mul,
    Div,
    Pow,
}

/// An operator in postfix position.
#[derive(Debug, Clone, Copy, PartialEq, Eq)]
pub enum SuffixOperator {
    Bang,
}

/// An operator tag together with the position it applies in; the position
/// fixes its arity.
#[derive(Debug, Clone, Copy, PartialEq, Eq)]
pub enum Operator {
    Prefix(PrefixOperator),
    Infix(InfixOperator),
    Suffix(SuffixOperator),
}

impl Operator {
    /// How many operand expressions this operator consumes.
    pub open spec fn arity(self) -> nat {
        match self {
            Operator::Prefix(_) => 1,
            Operator::Infix(_) => 2,
            Operator::Suffix(_) => 1,
        }
    }

    /// How many operand expressions this operator consumes.
    pub fn number_of_parameters(&self) -> (n: u16)
        ensures
            n as nat == self.arity(),
    {
        match self {
            Operator::Prefix(_) => 1,
            Operator::Infix(_) => 2,
            Operator::Suffix(_) => 1,
        }
    }
}

/// An expression: a literal, an identifier occurrence, an applied operator
/// with its operands, a function literal, a call, or a block.
#[derive(Debug, PartialEq, Eq)]
pub enum Expression {
    Ident(String),
    Int(isize),
    Boolean(bool),
    Function { params: Vec<String>, body: Box<Expression> },
    PrefixExpression { operator: Operator, right: Box<Expression> },
    InfixExpression { left: Box<Expression>, op: Operator, right: Box<Expression> },
    CallExpression { lambda: Box<Expression>, parameters: Vec<Expression> },
    BlockExpression(Vec<Statement>),
    Unit,
}

/// A statement: a bare expression, a `let` binding, or a `return`.
#[derive(Debug, PartialEq, Eq)]
pub enum Statement {
    Expr(Expression),
    Let { name: String, value: Expression },
    Return(Expression),
}

/// A whole program: the list of statements of the outermost block.
#[derive(Debug, PartialEq, Eq)]
pub struct Program {
    pub global: Vec<Statement>,
}

/// The mathematical image of an `Expression`.
pub enum ExprV {
    Ident(Seq<char>),
    Int(int),
    Boolean(bool),
    Function { params: Seq<Seq<char>>, body: Box<ExprV> },
    PrefixExpression { operator: Operator, right: Box<ExprV> },
    InfixExpression { left: Box<ExprV>, op: Operator, right: Box<ExprV> },
    CallExpression { lambda: Box<ExprV>, parameters: Seq<ExprV> },
    BlockExpression(Seq<StmtV>),
    Unit,
}

/// The mathematical image of a `Statement`.
pub enum StmtV {
    Expr(ExprV),
    Let { name: Seq<char>, value: ExprV },
    Return(ExprV),
}

/// The mathematical image of an expression.
pub open spec fn expr_view(e: &Expression) -> ExprV
    decreases e,
{
    match e {
        Expression::Ident(s) => ExprV::Ident(s@),
        Expression::Int(n) => ExprV::Int(*n as int),
        Expression::Boolean(b) => ExprV::Boolean(*b),
        Expression::Function { params, body } => ExprV::Function {
            params: Seq::new(params@.len(), |i: int| params@[i]@),
            body: Box::new(expr_view(&**body)),
        },
        Expression::PrefixExpression { operator, right } => ExprV::PrefixExpression {
            operator: *operator,
            right: Box::new(expr_view(&**right)),
        },
        Expression::InfixExpression { left, op, right } => ExprV::InfixExpression {
            left: Box::new(expr_view(&**left)),
            op: *op,
            right: Box::new(expr_view(&**right)),
        },
        Expression::CallExpression { lambda, parameters } => ExprV::CallExpression {
            lambda: Box::new(expr_view(&**lambda)),
            parameters: exprs_view(parameters@),
        },
        Expression::BlockExpression(stmts) => ExprV::BlockExpression(stmts_view(stmts@)),
        Expression::Unit => ExprV::Unit,
    }
}

/// The mathematical image of a statement.
pub open spec fn stmt_view(s: &Statement) -> StmtV
    decreases s,
{
    match s {
        Statement::Expr(e) => StmtV::Expr(expr_view(e)),
        Statement::Let { name, value } => StmtV::Let { name: name@, value: expr_view(value) },
        Statement::Return(e) => StmtV::Return(expr_view(e)),
    }
}

/// The mathematical images of a sequence of expressions, in order.
pub open spec fn exprs_view(es: Seq<Expression>) -> Seq<ExprV>
    decreases es,
{
    if es.len() == 0 {
        Seq::empty()
    } else {
        seq![expr_view(&es[0])] + exprs_view(es.drop_first())
    }
}

/// The mathematical images of a sequence of statements, in order.
pub open spec fn stmts_view(ss: Seq<Statement>) -> Seq<StmtV>
    decreases ss,
{
    if ss.len() == 0 {
        Seq::empty()
    } else {
        seq![stmt_view(&ss[0])] + stmts_view(ss.drop_first())
    }
}

/// The element-wise reading of `stmts_view`.
pub proof fn lemma_stmts_view_index(ss: Seq<Statement>)
    ensures
        stmts_view(ss).len() == ss.len(),
        forall|i: int| 0 <= i < ss.len() ==> stmts_view(ss)[i] == stmt_view(&ss[i]),
    decreases ss,
{
    if ss.len() > 0 {
        lemma_stmts_view_index(ss.drop_first());
    }
}

/// The element-wise reading of `exprs_view`.
pub proof fn lemma_exprs_view_index(es: Seq<Expression>)
    ensures
        exprs_view(es).len() == es.len(),
        forall|i: int| 0 <= i < es.len() ==> exprs_view(es)[i] == expr_view(&es[i]),
    decreases es,
{
    if es.len() > 0 {
        lemma_exprs_view_index(es.drop_first());
    }
}

impl View for Expression {
    type V = ExprV;

    open spec fn view(&self) -> ExprV {
        expr_view(self)
    }
}

impl View for Statement {
    type V = StmtV;

    open spec fn view(&self) -> StmtV {
        stmt_view(self)
    }
}

impl View for Program {
    type V = Seq<StmtV>;

    open spec fn view(&self) -> Seq<StmtV> {
        stmts_view(self.global@)
    }
}

} // verus!
