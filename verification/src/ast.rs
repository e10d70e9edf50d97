//! The syntax tree that the parser builds.
use vstd::prelude::*;

verus! {

/// The operators of l9 expressions.
#[derive(Debug, Clone, Copy, PartialEq, Eq, Structural)]
pub enum Operation {
    Add,
    Sub,
    Mul,
    Div,
    Equal,
    NotEqual,
    Less,
    LessOrEqual,
    Greater,
    GreaterOrEqual,
    Not,
}

/// An expression. A number literal holds the IEEE-754 binary64 bit pattern of
/// its value.
#[derive(Debug, PartialEq)]
pub enum Expression {
    NumberLiteral(u64),
    BooleanLiteral(bool),
    Variable(String),
    Unary(Operation, Box<Expression>),
    Binary(Operation, Box<Expression>, Box<Expression>),
}

impl Expression {
    pub fn number(bits: u64) -> (e: Expression)
        ensures
            e == Expression::NumberLiteral(bits),
    {
        Expression::NumberLiteral(bits)
    }

    pub fn unary(op: Operation, rhs: Expression) -> (e: Expression)
        ensures
            e == Expression::Unary(op, Box::new(rhs)),
    {
        Expression::Unary(op, Box::new(rhs))
    }

    pub fn binary(op: Operation, lhs: Expression, rhs: Expression) -> (e: Expression)
        ensures
            e == Expression::Binary(op, Box::new(lhs), Box::new(rhs)),
    {
        Expression::Binary(op, Box::new(lhs), Box::new(rhs))
    }
}

/// A statement.
#[derive(Debug, PartialEq)]
pub enum Statement {
    Print(Expression),
    Block(Vec<Statement>),
    Declaration(String, Option<Expression>),
    Assignment(String, Expression),
    If(Expression, Box<Statement>, Option<Box<Statement>>),
    While(Expression, Box<Statement>),
}

/// The mathematical value of a statement: a block holds a sequence of
/// statement values.
pub enum StatementModel {
    Print(Expression),
    Block(Seq<StatementModel>),
    Declaration(String, Option<Expression>),
    Assignment(String, Expression),
    If(Expression, Box<StatementModel>, Option<Box<StatementModel>>),
    While(Expression, Box<StatementModel>),
}

impl Statement {
    /// The value of this statement.
    pub open spec fn model(self) -> StatementModel
        decreases self,
    {
        match self {
            Statement::Print(e) => StatementModel::Print(e),
            Statement::Block(v) => StatementModel::Block(models(v@)),
            Statement::Declaration(n, e) => StatementModel::Declaration(n, e),
            Statement::Assignment(n, e) => StatementModel::Assignment(n, e),
            Statement::If(c, t, e) => StatementModel::If(
                c,
                Box::new((*t).model()),
                match e {
                    Some(b) => Some(Box::new((*b).model())),
                    None => None,
                },
            ),
            Statement::While(c, b) => StatementModel::While(c, Box::new((*b).model())),
        }
    }
}

/// The values of a sequence of statements.
pub open spec fn models(s: Seq<Statement>) -> Seq<StatementModel>
    decreases s,
{
    if s.len() == 0 {
        Seq::empty()
    } else {
        models(s.drop_last()).push(s.last().model())
    }
}

/// A program: the statements in the order in which they were parsed.
#[derive(Debug, PartialEq)]
pub struct Program {
    pub statements: Vec<Statement>,
}

impl Program {
    /// The values of the statements of this program.
    pub open spec fn model(self) -> Seq<StatementModel> {
        models(self.statements@)
    }

    pub fn add_statement(&mut self, statement: Statement)
        ensures
            final(self).statements@ == old(self).statements@.push(statement),
    {
        self.statements.push(statement);
    }
}

impl Default for Program {
    fn default() -> (p: Program)
        ensures
            p.statements@ == Seq::<Statement>::empty(),
    {
        Program { statements: Vec::new() }
    }
}

} // verus!
