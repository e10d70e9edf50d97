//! Parser for the l9 language: a recursive descent parser for statements
//! and a Pratt parser for expressions.
//!
//! Each parsing function is specified by a spec function of the same name
//! (prefixed `spec_`) from the tokens that are left to the value it returns
//! and the tokens that are left afterwards, on success and on failure.
use vstd::prelude::*;

use crate::ast::{models, Expression, Operation, Program, Statement, StatementModel};
use crate::lexer::{end_of_file, SourceToken, Token};
use crate::source::Position;

verus! {

/// Why a token sequence is not a program.
#[derive(Debug, Clone, PartialEq)]
pub enum ParsingError {
    Unknown(Position),
    UnexpectedToken(Token, Position),
    MissingOperand(Position),
    UnknownOperation(Position),
    MissingClosingParentheses(Position),
}

/// What a parsing step gives back: its result, and the tokens left after it.
pub type Parsed<T> = (Result<T, ParsingError>, Seq<SourceToken>);

// ---------------------------------------------------------------------------
// Reading tokens
// ---------------------------------------------------------------------------

/// The next token; past the last one, the end-of-file token.
pub open spec fn next_token(s: Seq<SourceToken>) -> SourceToken {
    if s.len() == 0 {
        end_of_file()
    } else {
        s[0]
    }
}

/// The tokens left after reading the next one. Reading past the last token
/// reads nothing.
pub open spec fn after_next(s: Seq<SourceToken>) -> Seq<SourceToken> {
    if s.len() == 0 {
        s
    } else {
        s.drop_first()
    }
}

/// Whether two token kinds are equal, comparing identifiers by their text
/// and numbers by their bit patterns.
pub open spec fn same_token(a: Token, b: Token) -> bool {
    match (a, b) {
        (Token::Identifier(x), Token::Identifier(y)) => x@ == y@,
        (Token::Number(x), Token::Number(y)) => x == y,
        _ => a == b,
    }
}

/// Reads the next token and fails unless it is `expected`.
pub open spec fn spec_consume(s: Seq<SourceToken>, expected: Token) -> Parsed<()> {
    let t = next_token(s);
    if same_token(t.kind, expected) {
        (Ok(()), after_next(s))
    } else {
        (Err(ParsingError::UnexpectedToken(t.kind, t.source)), after_next(s))
    }
}

// ---------------------------------------------------------------------------
// Expressions
// ---------------------------------------------------------------------------

/// The operator that a token stands for between two operands.
pub open spec fn infix_operator(kind: Token) -> Option<Operation> {
    match kind {
        Token::Plus => Some(Operation::Add),
        Token::Minus => Some(Operation::Sub),
        Token::Star => Some(Operation::Mul),
        Token::Slash => Some(Operation::Div),
        Token::EqualEqual => Some(Operation::Equal),
        Token::BangEqual => Some(Operation::NotEqual),
        Token::Less => Some(Operation::Less),
        Token::LessEqual => Some(Operation::LessOrEqual),
        Token::Greater => Some(Operation::Greater),
        Token::GreaterEqual => Some(Operation::GreaterOrEqual),
        _ => None,
    }
}

/// The tokens at which an expression ends.
pub open spec fn ends_expression(kind: Token) -> bool {
    kind is EndOfFile || kind is RParen || kind is Semicolon
}

/// Left and right binding power of an infix operator: comparisons bind
/// loosest, then addition and subtraction, then multiplication and division.
pub open spec fn binding_power(op: Operation) -> Option<(u8, u8)> {
    match op {
        Operation::Add | Operation::Sub => Some((3, 4)),
        Operation::Mul | Operation::Div => Some((5, 6)),
        Operation::Equal | Operation::NotEqual => Some((1, 2)),
        Operation::Less | Operation::LessOrEqual => Some((1, 2)),
        Operation::Greater | Operation::GreaterOrEqual => Some((1, 2)),
        Operation::Not => None,
    }
}

/// The binding power of a prefix operator.
pub open spec fn prefix_power() -> u8 {
    7
}

/// An expression whose operators all bind at least `min_binding` to the left.
pub open spec fn spec_expression(s: Seq<SourceToken>, min_binding: u8) -> Parsed<Expression>
    decreases s.len(), 1int,
{
    let (primary, rest) = spec_primary(s);
    match primary {
        Ok(lhs) => if rest.len() < s.len() {
            spec_infix(rest, min_binding, lhs)
        } else {
            (Err(ParsingError::Unknown(Position::origin())), rest)
        },
        Err(e) => (Err(e), rest),
    }
}

/// The operand that an expression starts with.
pub open spec fn spec_primary(s: Seq<SourceToken>) -> Parsed<Expression>
    decreases s.len(), 0int,
{
    let t = next_token(s);
    let rest = after_next(s);
    match t.kind {
        Token::Number(n) => (Ok(Expression::NumberLiteral(n)), rest),
        Token::True => (Ok(Expression::BooleanLiteral(true)), rest),
        Token::False => (Ok(Expression::BooleanLiteral(false)), rest),
        Token::Minus => {
            let (operand, rest2) = spec_expression(rest, prefix_power());
            match operand {
                Ok(e) => (Ok(Expression::Unary(Operation::Sub, Box::new(e))), rest2),
                Err(e) => (Err(e), rest2),
            }
        },
        Token::Bang => {
            let (operand, rest2) = spec_expression(rest, prefix_power());
            match operand {
                Ok(e) => (Ok(Expression::Unary(Operation::Not, Box::new(e))), rest2),
                Err(e) => (Err(e), rest2),
            }
        },
        Token::Identifier(name) => (Ok(Expression::Variable(name)), rest),
        Token::LParen => {
            let (inner, rest2) = spec_expression(rest, 0);
            match inner {
                Ok(e) => if next_token(rest2).kind is RParen {
                    (Ok(e), after_next(rest2))
                } else {
                    (Err(ParsingError::MissingClosingParentheses(t.source)), after_next(rest2))
                },
                Err(e) => (Err(e), rest2),
            }
        },
        k => (Err(ParsingError::UnexpectedToken(k, t.source)), rest),
    }
}

/// The infix operations that follow the operand `lhs`, as long as their
/// operators bind at least `min_binding` to the left.
pub open spec fn spec_infix(s: Seq<SourceToken>, min_binding: u8, lhs: Expression) -> Parsed<
    Expression,
>
    decreases s.len(), 0int,
{
    let t = next_token(s);
    if ends_expression(t.kind) {
        (Ok(lhs), s)
    } else {
        match infix_operator(t.kind) {
            None => (Err(ParsingError::UnknownOperation(t.source)), s),
            Some(op) => match binding_power(op) {
                None => (Ok(lhs), s),
                Some((left, right)) => if left < min_binding {
                    (Ok(lhs), s)
                } else {
                    let (operand, rest) = spec_expression(after_next(s), right);
                    match operand {
                        Err(_) => (Err(ParsingError::MissingOperand(t.source)), rest),
                        Ok(rhs) => if rest.len() < s.len() {
                            spec_infix(
                                rest,
                                min_binding,
                                Expression::Binary(op, Box::new(lhs), Box::new(rhs)),
                            )
                        } else {
                            (Err(ParsingError::Unknown(Position::origin())), rest)
                        },
                    }
                },
            },
        }
    }
}

/// Parsing an expression reads no tokens that are not there, and reads at
/// least one on success.
pub proof fn lemma_expression_reads(s: Seq<SourceToken>, min_binding: u8)
    ensures
        spec_expression(s, min_binding).1.len() <= s.len(),
        spec_expression(s, min_binding).0 is Ok ==> spec_expression(s, min_binding).1.len()
            < s.len(),
    decreases s.len(), 1int,
{
    lemma_primary_reads(s);
    let (primary, rest) = spec_primary(s);
    if let Ok(lhs) = primary {
        lemma_infix_reads(rest, min_binding, lhs);
    }
}

/// Parsing an operand reads no tokens that are not there, and reads at least
/// one on success.
pub proof fn lemma_primary_reads(s: Seq<SourceToken>)
    ensures
        spec_primary(s).1.len() <= s.len(),
        spec_primary(s).0 is Ok ==> spec_primary(s).1.len() < s.len(),
    decreases s.len(), 0int,
{
    let t = next_token(s);
    let rest = after_next(s);
    match t.kind {
        Token::Minus | Token::Bang => {
            lemma_expression_reads(rest, prefix_power());
        },
        Token::LParen => {
            lemma_expression_reads(rest, 0);
        },
        _ => {},
    }
}

/// The infix loop reads no tokens that are not there.
pub proof fn lemma_infix_reads(s: Seq<SourceToken>, min_binding: u8, lhs: Expression)
    ensures
        spec_infix(s, min_binding, lhs).1.len() <= s.len(),
    decreases s.len(), 0int,
{
    let t = next_token(s);
    if !ends_expression(t.kind) {
        if let Some(op) = infix_operator(t.kind) {
            if let Some((left, right)) = binding_power(op) {
                if left >= min_binding {
                    lemma_expression_reads(after_next(s), right);
                    let (operand, rest) = spec_expression(after_next(s), right);
                    if let Ok(rhs) = operand {
                        if rest.len() < s.len() {
                            lemma_infix_reads(
                                rest,
                                min_binding,
                                Expression::Binary(op, Box::new(lhs), Box::new(rhs)),
                            );
                        }
                    }
                }
            }
        }
    }
}

// ---------------------------------------------------------------------------
// Statements
// ---------------------------------------------------------------------------

/// The value of a parsed statement, with the error unchanged.
pub open spec fn model_of(r: Result<Statement, ParsingError>) -> Result<StatementModel, ParsingError> {
    match r {
        Ok(s) => Ok(s.model()),
        Err(e) => Err(e),
    }
}

/// What a parsing step gives back when the tokens left did not get fewer
/// where they must have; the lemmas below show that this never happens.
pub open spec fn stalled<T>(rest: Seq<SourceToken>) -> Parsed<T> {
    (Err(ParsingError::Unknown(Position::origin())), rest)
}

/// A statement.
pub open spec fn spec_statement(s: Seq<SourceToken>) -> Parsed<StatementModel>
    decreases s.len(), 0int,
{
    let t = next_token(s);
    let rest = after_next(s);
    match t.kind {
        Token::Print => {
            let (expr, rest1) = spec_expression(rest, 0);
            match expr {
                Err(e) => (Err(e), rest1),
                Ok(x) => {
                    let (semicolon, rest2) = spec_consume(rest1, Token::Semicolon);
                    match semicolon {
                        Ok(_) => (Ok(StatementModel::Print(x)), rest2),
                        Err(e) => (Err(e), rest2),
                    }
                },
            }
        },
        Token::LeftCurly => spec_block(rest, Seq::empty()),
        Token::Let => {
            let (declaration, rest1) = spec_declaration(rest);
            let (semicolon, rest2) = spec_consume(rest1, Token::Semicolon);
            match semicolon {
                Ok(_) => (declaration, rest2),
                Err(e) => (Err(e), rest2),
            }
        },
        Token::If => spec_if(rest),
        Token::While => spec_while(rest),
        Token::Identifier(name) => {
            let (assignment, rest1) = spec_assignment(rest, name, t.source);
            let (semicolon, rest2) = spec_consume(rest1, Token::Semicolon);
            match semicolon {
                Ok(_) => (assignment, rest2),
                Err(e) => (Err(e), rest2),
            }
        },
        _ => (Err(ParsingError::Unknown(t.source)), rest),
    }
}

/// The statements of a block after its opening brace, up to and including
/// the closing brace; `done` holds the statements parsed so far.
pub open spec fn spec_block(s: Seq<SourceToken>, done: Seq<StatementModel>) -> Parsed<
    StatementModel,
>
    decreases s.len(), 1int,
{
    let t = next_token(s);
    if t.kind is RightCurly || t.kind is EndOfFile {
        let (closing, rest) = spec_consume(s, Token::RightCurly);
        match closing {
            Ok(_) => (Ok(StatementModel::Block(done)), rest),
            Err(e) => (Err(e), rest),
        }
    } else {
        let (statement, rest) = spec_statement(s);
        match statement {
            Err(e) => (Err(e), rest),
            Ok(x) => if rest.len() < s.len() {
                spec_block(rest, done.push(x))
            } else {
                stalled(rest)
            },
        }
    }
}

/// A variable declaration after `let`, without its semicolon.
pub open spec fn spec_declaration(s: Seq<SourceToken>) -> Parsed<StatementModel> {
    let t = next_token(s);
    let rest = after_next(s);
    match t.kind {
        Token::Identifier(name) => if rest.len() > 0 && rest[0].kind is Equal {
            let (expr, rest2) = spec_expression(rest.drop_first(), 0);
            match expr {
                Ok(x) => (Ok(StatementModel::Declaration(name, Some(x))), rest2),
                Err(e) => (Err(e), rest2),
            }
        } else {
            (Ok(StatementModel::Declaration(name, None)), rest)
        },
        k => (Err(ParsingError::UnexpectedToken(k, t.source)), rest),
    }
}

/// An assignment to the variable `name`, read at `at`, after the name and
/// without its semicolon.
pub open spec fn spec_assignment(s: Seq<SourceToken>, name: String, at: Position) -> Parsed<
    StatementModel,
> {
    let t = next_token(s);
    let rest = after_next(s);
    if t.kind is Equal {
        let (expr, rest2) = spec_expression(rest, 0);
        match expr {
            Ok(x) => (Ok(StatementModel::Assignment(name, x)), rest2),
            Err(e) => (Err(e), rest2),
        }
    } else {
        (Err(ParsingError::Unknown(at)), rest)
    }
}

/// A parenthesized condition.
pub open spec fn spec_condition(s: Seq<SourceToken>) -> Parsed<Expression> {
    let (open, rest1) = spec_consume(s, Token::LParen);
    match open {
        Err(e) => (Err(e), rest1),
        Ok(_) => {
            let (condition, rest2) = spec_expression(rest1, 0);
            match condition {
                Err(e) => (Err(e), rest2),
                Ok(c) => {
                    let (close, rest3) = spec_consume(rest2, Token::RParen);
                    match close {
                        Err(e) => (Err(e), rest3),
                        Ok(_) => (Ok(c), rest3),
                    }
                },
            }
        },
    }
}

/// An `if` statement after `if`.
pub open spec fn spec_if(s: Seq<SourceToken>) -> Parsed<StatementModel>
    decreases s.len(), 1int,
{
    let (condition, rest1) = spec_condition(s);
    match condition {
        Err(e) => (Err(e), rest1),
        Ok(c) => if rest1.len() < s.len() {
            let (then_branch, rest2) = spec_statement(rest1);
            match then_branch {
                Err(e) => (Err(e), rest2),
                Ok(t) => if rest2.len() > 0 && rest2[0].kind is Else {
                    let rest3 = rest2.drop_first();
                    if rest3.len() < s.len() {
                        let (else_branch, rest4) = spec_statement(rest3);
                        match else_branch {
                            Err(e) => (Err(e), rest4),
                            Ok(e) => (
                                Ok(StatementModel::If(c, Box::new(t), Some(Box::new(e)))),
                                rest4,
                            ),
                        }
                    } else {
                        stalled(rest3)
                    }
                } else {
                    (Ok(StatementModel::If(c, Box::new(t), None)), rest2)
                },
            }
        } else {
            stalled(rest1)
        },
    }
}

/// A `while` statement after `while`.
pub open spec fn spec_while(s: Seq<SourceToken>) -> Parsed<StatementModel>
    decreases s.len(), 1int,
{
    let (condition, rest1) = spec_condition(s);
    match condition {
        Err(e) => (Err(e), rest1),
        Ok(c) => if rest1.len() < s.len() {
            let (body, rest2) = spec_statement(rest1);
            match body {
                Err(e) => (Err(e), rest2),
                Ok(b) => (Ok(StatementModel::While(c, Box::new(b))), rest2),
            }
        } else {
            stalled(rest1)
        },
    }
}

/// The statements of a program, up to the last token; `done` holds the
/// statements parsed so far.
pub open spec fn spec_program(s: Seq<SourceToken>, done: Seq<StatementModel>) -> Parsed<
    Seq<StatementModel>,
>
    decreases s.len(),
{
    if s.len() == 0 {
        (Ok(done), s)
    } else {
        let (statement, rest) = spec_statement(s);
        match statement {
            Err(e) => (Err(e), rest),
            Ok(x) => if rest.len() < s.len() {
                spec_program(rest, done.push(x))
            } else {
                stalled(rest)
            },
        }
    }
}

/// Consuming a token reads at most the next one, and reads it on success.
pub proof fn lemma_consume_reads(s: Seq<SourceToken>, expected: Token)
    requires
        !(expected is EndOfFile),
    ensures
        spec_consume(s, expected).1.len() <= s.len(),
        spec_consume(s, expected).0 is Ok ==> spec_consume(s, expected).1.len() < s.len(),
{
}

/// Parsing a condition reads no tokens that are not there, and reads at least
/// one on success.
pub proof fn lemma_condition_reads(s: Seq<SourceToken>)
    ensures
        spec_condition(s).1.len() <= s.len(),
        spec_condition(s).0 is Ok ==> spec_condition(s).1.len() < s.len(),
{
    let (open, rest1) = spec_consume(s, Token::LParen);
    if open is Ok {
        lemma_expression_reads(rest1, 0);
        lemma_consume_reads(spec_expression(rest1, 0).1, Token::RParen);
    }
}

/// Parsing a statement reads no tokens that are not there, and reads at least
/// one on success.
pub proof fn lemma_statement_reads(s: Seq<SourceToken>)
    ensures
        spec_statement(s).1.len() <= s.len(),
        spec_statement(s).0 is Ok ==> spec_statement(s).1.len() < s.len(),
    decreases s.len(), 0int,
{
    let t = next_token(s);
    let rest = after_next(s);
    match t.kind {
        Token::Print => {
            lemma_expression_reads(rest, 0);
            lemma_consume_reads(spec_expression(rest, 0).1, Token::Semicolon);
        },
        Token::LeftCurly => {
            lemma_block_reads(rest, Seq::empty());
        },
        Token::Let => {
            let rest2 = after_next(rest);
            if rest2.len() > 0 {
                lemma_expression_reads(rest2.drop_first(), 0);
            }
            lemma_consume_reads(spec_declaration(rest).1, Token::Semicolon);
        },
        Token::If => {
            lemma_if_reads(rest);
        },
        Token::While => {
            lemma_while_reads(rest);
        },
        Token::Identifier(name) => {
            lemma_expression_reads(after_next(rest), 0);
            lemma_consume_reads(spec_assignment(rest, name, t.source).1, Token::Semicolon);
        },
        _ => {},
    }
}

/// Parsing the rest of a block reads no tokens that are not there, and reads
/// at least one on success.
pub proof fn lemma_block_reads(s: Seq<SourceToken>, done: Seq<StatementModel>)
    ensures
        spec_block(s, done).1.len() <= s.len(),
        spec_block(s, done).0 is Ok ==> spec_block(s, done).1.len() < s.len(),
    decreases s.len(), 1int,
{
    let t = next_token(s);
    if !(t.kind is RightCurly || t.kind is EndOfFile) {
        lemma_statement_reads(s);
        let (statement, rest) = spec_statement(s);
        if let Ok(x) = statement {
            lemma_block_reads(rest, done.push(x));
        }
    }
}

/// Parsing an `if` statement reads no tokens that are not there, and reads at
/// least one on success.
pub proof fn lemma_if_reads(s: Seq<SourceToken>)
    ensures
        spec_if(s).1.len() <= s.len(),
        spec_if(s).0 is Ok ==> spec_if(s).1.len() < s.len(),
    decreases s.len(), 1int,
{
    lemma_condition_reads(s);
    let (condition, rest1) = spec_condition(s);
    if condition is Ok {
        lemma_statement_reads(rest1);
        let rest2 = spec_statement(rest1).1;
        if rest2.len() > 0 {
            lemma_statement_reads(rest2.drop_first());
        }
    }
}

/// Parsing a `while` statement reads no tokens that are not there, and reads
/// at least one on success.
pub proof fn lemma_while_reads(s: Seq<SourceToken>)
    ensures
        spec_while(s).1.len() <= s.len(),
        spec_while(s).0 is Ok ==> spec_while(s).1.len() < s.len(),
    decreases s.len(), 1int,
{
    lemma_condition_reads(s);
    let (condition, rest1) = spec_condition(s);
    if condition is Ok {
        lemma_statement_reads(rest1);
    }
}

// ---------------------------------------------------------------------------
// The parser
// ---------------------------------------------------------------------------

/// The tokens of `stack` in the order in which they are popped.
pub open spec fn popping_order(stack: Seq<SourceToken>) -> Seq<SourceToken> {
    Seq::new(stack.len(), |i: int| stack[stack.len() - 1 - i])
}

/// A parser over a sequence of tokens. Its view is the sequence of tokens
/// that it has not read yet.
#[derive(Debug)]
pub struct Parser {
    /// The tokens not read yet, the next one last.
    stack: Vec<SourceToken>,
}

impl View for Parser {
    type V = Seq<SourceToken>;

    closed spec fn view(&self) -> Seq<SourceToken> {
        popping_order(self.stack@)
    }
}

/// Whether `kind` equals `expected`: the same kind of token, with the same
/// identifier text or number bit pattern.
fn is_kind(kind: &Token, expected: &Token) -> (r: bool)
    ensures
        r == same_token(*kind, *expected),
{
    match expected {
        Token::Identifier(name) => match kind {
            Token::Identifier(n) => *n == *name,
            _ => false,
        },
        Token::Number(bits) => match kind {
            Token::Number(b) => *b == *bits,
            _ => false,
        },
        Token::Print => matches!(kind, Token::Print),
        Token::Let => matches!(kind, Token::Let),
        Token::If => matches!(kind, Token::If),
        Token::Else => matches!(kind, Token::Else),
        Token::While => matches!(kind, Token::While),
        Token::True => matches!(kind, Token::True),
        Token::False => matches!(kind, Token::False),
        Token::Plus => matches!(kind, Token::Plus),
        Token::Minus => matches!(kind, Token::Minus),
        Token::Star => matches!(kind, Token::Star),
        Token::Slash => matches!(kind, Token::Slash),
        Token::Bang => matches!(kind, Token::Bang),
        Token::Equal => matches!(kind, Token::Equal),
        Token::EqualEqual => matches!(kind, Token::EqualEqual),
        Token::BangEqual => matches!(kind, Token::BangEqual),
        Token::Less => matches!(kind, Token::Less),
        Token::LessEqual => matches!(kind, Token::LessEqual),
        Token::Greater => matches!(kind, Token::Greater),
        Token::GreaterEqual => matches!(kind, Token::GreaterEqual),
        Token::LParen => matches!(kind, Token::LParen),
        Token::RParen => matches!(kind, Token::RParen),
        Token::LeftCurly => matches!(kind, Token::LeftCurly),
        Token::RightCurly => matches!(kind, Token::RightCurly),
        Token::Semicolon => matches!(kind, Token::Semicolon),
        Token::EndOfFile => matches!(kind, Token::EndOfFile),
    }
}

/// The operator that a token stands for between two operands.
fn infix_operator_of(kind: &Token) -> (r: Option<Operation>)
    ensures
        r == infix_operator(*kind),
{
    match kind {
        Token::Plus => Some(Operation::Add),
        Token::Minus => Some(Operation::Sub),
        Token::Star => Some(Operation::Mul),
        Token::Slash => Some(Operation::Div),
        Token::EqualEqual => Some(Operation::Equal),
        Token::BangEqual => Some(Operation::NotEqual),
        Token::Less => Some(Operation::Less),
        Token::LessEqual => Some(Operation::LessOrEqual),
        Token::Greater => Some(Operation::Greater),
        Token::GreaterEqual => Some(Operation::GreaterOrEqual),
        _ => None,
    }
}

/// Whether an expression ends at a token of this kind.
fn is_expression_end(kind: &Token) -> (r: bool)
    ensures
        r == ends_expression(*kind),
{
    match kind {
        Token::EndOfFile | Token::RParen | Token::Semicolon => true,
        _ => false,
    }
}

impl Parser {
    /// A parser that reads `tokens` from the first to the last.
    pub fn new(tokens: Vec<SourceToken>) -> (p: Parser)
        ensures
            p@ == tokens@,
    {
        let mut tokens = tokens;
        let ghost all = tokens@;
        let mut stack: Vec<SourceToken> = Vec::new();
        while tokens.len() > 0
            invariant
                tokens@ == all.take(tokens.len() as int),
                tokens.len() <= all.len(),
                stack@.len() + tokens.len() == all.len(),
                popping_order(stack@) == all.skip(tokens.len() as int),
            decreases tokens.len(),
        {
            let ghost old_stack = stack@;
            match tokens.pop() {
                Some(t) => {
                    assert(t == all[tokens.len() as int]);
                    stack.push(t);
                },
                None => {},
            }
            assert(tokens@ =~= all.take(tokens.len() as int));
            assert forall|i: int| 0 <= i < stack@.len() implies #[trigger] popping_order(stack@)[i]
                == all.skip(tokens.len() as int)[i] by {
                if i > 0 {
                    assert(popping_order(stack@)[i] == popping_order(old_stack)[i - 1]);
                }
            }
            assert(popping_order(stack@) =~= all.skip(tokens.len() as int));
        }
        assert(all.skip(0) =~= all);
        Parser { stack }
    }


    /// Parses statements up to the last token.
    pub fn parse_program(&mut self) -> (r: Result<Program, ParsingError>)
        ensures
            (match r {
                Ok(p) => Ok(p.model()),
                Err(e) => Err(e),
            }, final(self)@) == spec_program(old(self)@, Seq::empty()),
            r is Ok ==> final(self)@.len() == 0,
    {
        let ghost s0 = self@;
        let mut program = Program::default();
        assert(program.model() =~= Seq::<StatementModel>::empty());
        while self.peek().is_some()
            invariant
                s0 == old(self)@,
                spec_program(self@, program.model()) == spec_program(s0, Seq::empty()),
            decreases self@.len(),
        {
            let ghost done = program.model();
            proof {
                lemma_statement_reads(self@);
            }
            let statement = match self.statement() {
                Ok(st) => st,
                Err(e) => {
                    return Err(e);
                },
            };
            let ghost x = statement.model();
            let ghost prev = program.statements@;
            program.add_statement(statement);
            assert(program.statements@.drop_last() =~= prev);
            assert(program.model() == done.push(x));
        }
        Ok(program)
    }

    /// Parses one statement.
    pub fn parse(&mut self) -> (r: Result<Statement, ParsingError>)
        ensures
            (model_of(r), final(self)@) == spec_statement(old(self)@),
    {
        self.statement()
    }

    /// A statement.
    pub fn statement(&mut self) -> (r: Result<Statement, ParsingError>)
        ensures
            (model_of(r), final(self)@) == spec_statement(old(self)@),
        decreases old(self)@.len(), 0int,
    {
        let token = self.advance();
        match token.kind {
            Token::Print => {
                let expr = match self.expression(0) {
                    Ok(e) => e,
                    Err(e) => {
                        return Err(e);
                    },
                };
                match self.consume(Token::Semicolon) {
                    Ok(_) => Ok(Statement::Print(expr)),
                    Err(e) => Err(e),
                }
            },
            Token::LeftCurly => self.block_statement(),
            Token::Let => {
                let declaration = self.variable_declaration();
                match self.consume(Token::Semicolon) {
                    Ok(_) => declaration,
                    Err(e) => Err(e),
                }
            },
            Token::If => self.if_statement(),
            Token::While => self.while_statement(),
            Token::Identifier(name) => {
                let assignment = self.variable_assignment(token.source, name);
                match self.consume(Token::Semicolon) {
                    Ok(_) => assignment,
                    Err(e) => Err(e),
                }
            },
            _ => Err(ParsingError::Unknown(token.source)),
        }
    }

    /// An assignment to `name`, read at `at`, after the name.
    fn variable_assignment(&mut self, at: Position, name: String) -> (r: Result<
        Statement,
        ParsingError,
    >)
        ensures
            (model_of(r), final(self)@) == spec_assignment(old(self)@, name, at),
    {
        let token = self.advance();
        match token.kind {
            Token::Equal => match self.expression(0) {
                Ok(expr) => Ok(Statement::Assignment(name, expr)),
                Err(e) => Err(e),
            },
            _ => Err(ParsingError::Unknown(at)),
        }
    }

    /// The statements of a block, after its opening brace, up to and
    /// including the closing brace.
    fn block_statement(&mut self) -> (r: Result<Statement, ParsingError>)
        ensures
            (model_of(r), final(self)@) == spec_block(old(self)@, Seq::empty()),
        decreases old(self)@.len(), 1int,
    {
        let ghost s0 = self@;
        let mut statements: Vec<Statement> = Vec::new();
        assert(models(statements@) =~= Seq::<StatementModel>::empty());
        loop
            invariant
                s0 == old(self)@,
                self@.len() <= s0.len(),
                spec_block(self@, models(statements@)) == spec_block(s0, Seq::empty()),
            decreases self@.len(),
        {
            let stop = match self.peek() {
                Some(t) => matches!(t.kind, Token::RightCurly | Token::EndOfFile),
                None => true,
            };
            if stop {
                return match self.consume(Token::RightCurly) {
                    Ok(_) => Ok(Statement::Block(statements)),
                    Err(e) => Err(e),
                };
            }
            let ghost done = models(statements@);
            proof {
                lemma_statement_reads(self@);
            }
            let statement = match self.statement() {
                Ok(st) => st,
                Err(e) => {
                    return Err(e);
                },
            };
            let ghost x = statement.model();
            let ghost prev = statements@;
            statements.push(statement);
            assert(statements@.drop_last() =~= prev);
            assert(models(statements@) == done.push(x));
        }
    }

    /// A variable declaration after `let`, without its semicolon.
    fn variable_declaration(&mut self) -> (r: Result<Statement, ParsingError>)
        ensures
            (model_of(r), final(self)@) == spec_declaration(old(self)@),
    {
        let token = self.advance();
        let name = match token.kind {
            Token::Identifier(name) => name,
            k => {
                return Err(ParsingError::UnexpectedToken(k, token.source));
            },
        };
        if self.advance_if(Token::Equal) {
            match self.expression(0) {
                Ok(expr) => Ok(Statement::Declaration(name, Some(expr))),
                Err(e) => Err(e),
            }
        } else {
            Ok(Statement::Declaration(name, None))
        }
    }

    /// A parenthesized condition.
    fn condition(&mut self) -> (r: Result<Expression, ParsingError>)
        ensures
            (r, final(self)@) == spec_condition(old(self)@),
    {
        match self.consume(Token::LParen) {
            Ok(_) => {},
            Err(e) => {
                return Err(e);
            },
        }
        let condition = match self.expression(0) {
            Ok(c) => c,
            Err(e) => {
                return Err(e);
            },
        };
        match self.consume(Token::RParen) {
            Ok(_) => Ok(condition),
            Err(e) => Err(e),
        }
    }

    /// An `if` statement after `if`.
    fn if_statement(&mut self) -> (r: Result<Statement, ParsingError>)
        ensures
            (model_of(r), final(self)@) == spec_if(old(self)@),
        decreases old(self)@.len(), 1int,
    {
        proof {
            lemma_condition_reads(self@);
        }
        let condition = match self.condition() {
            Ok(c) => c,
            Err(e) => {
                return Err(e);
            },
        };
        proof {
            lemma_statement_reads(self@);
        }
        let then_branch = match self.statement() {
            Ok(st) => st,
            Err(e) => {
                return Err(e);
            },
        };
        let else_branch = if self.advance_if(Token::Else) {
            match self.statement() {
                Ok(st) => Some(Box::new(st)),
                Err(e) => {
                    return Err(e);
                },
            }
        } else {
            None
        };
        Ok(Statement::If(condition, Box::new(then_branch), else_branch))
    }

    /// A `while` statement after `while`.
    fn while_statement(&mut self) -> (r: Result<Statement, ParsingError>)
        ensures
            (model_of(r), final(self)@) == spec_while(old(self)@),
        decreases old(self)@.len(), 1int,
    {
        proof {
            lemma_condition_reads(self@);
        }
        let condition = match self.condition() {
            Ok(c) => c,
            Err(e) => {
                return Err(e);
            },
        };
        let body = match self.statement() {
            Ok(st) => st,
            Err(e) => {
                return Err(e);
            },
        };
        Ok(Statement::While(condition, Box::new(body)))
    }

    /// Reads the next token; past the last one, the end-of-file token.
    fn advance(&mut self) -> (t: SourceToken)
        ensures
            t == next_token(old(self)@),
            final(self)@ == after_next(old(self)@),
    {
        match self.stack.pop() {
            Some(t) => {
                assert(self@ =~= old(self)@.drop_first());
                t
            },
            None => SourceToken { kind: Token::EndOfFile, source: Position { line: 0, column: 0 } },
        }
    }

    /// Reads the next token if it equals `token`.
    fn advance_if(&mut self, token: Token) -> (r: bool)
        ensures
            r == (old(self)@.len() > 0 && same_token(old(self)@[0].kind, token)),
            final(self)@ == (if r {
                after_next(old(self)@)
            } else {
                old(self)@
            }),
    {
        let matched = match self.peek() {
            Some(t) => is_kind(&t.kind, &token),
            None => false,
        };
        if matched {
            self.advance();
        }
        matched
    }

    /// The next token, without reading it; `None` past the last one.
    fn peek(&self) -> (t: Option<&SourceToken>)
        ensures
            t is None <==> self@.len() == 0,
            t matches Some(t) ==> *t == self@[0],
    {
        let n = self.stack.len();
        if n == 0 {
            None
        } else {
            Some(&self.stack[n - 1])
        }
    }

    /// Reads the next token and fails unless it equals `expected`.
    fn consume(&mut self, expected: Token) -> (r: Result<(), ParsingError>)
        ensures
            (r, final(self)@) == spec_consume(old(self)@, expected),
    {
        let token = self.advance();
        if is_kind(&token.kind, &expected) {
            Ok(())
        } else {
            Err(ParsingError::UnexpectedToken(token.kind, token.source))
        }
    }

    /// Left and right binding power of an infix operator.
    fn infix_binding(&self, op: &Operation) -> (r: Option<(u8, u8)>)
        ensures
            r == binding_power(*op),
    {
        match op {
            Operation::Add | Operation::Sub => Some((3, 4)),
            Operation::Mul | Operation::Div => Some((5, 6)),
            Operation::Equal | Operation::NotEqual => Some((1, 2)),
            Operation::Less | Operation::LessOrEqual => Some((1, 2)),
            Operation::Greater | Operation::GreaterOrEqual => Some((1, 2)),
            Operation::Not => None,
        }
    }

    /// The binding power of the prefix operator `token`.
    fn prefix_binding(&self, token: &SourceToken) -> (r: Result<u8, ParsingError>)
        ensures
            r == (if token.kind is Minus || token.kind is Bang {
                Ok(prefix_power())
            } else {
                Err(ParsingError::UnknownOperation(token.source))
            }),
    {
        match token.kind {
            Token::Minus | Token::Bang => Ok(7),
            _ => Err(ParsingError::UnknownOperation(token.source)),
        }
    }

    /// An expression whose operators all bind at least `min_binding` to the
    /// left.
    pub fn expression(&mut self, min_binding: u8) -> (r: Result<Expression, ParsingError>)
        ensures
            (r, final(self)@) == spec_expression(old(self)@, min_binding),
        decreases old(self)@.len(),
    {
        let ghost s0 = self@;
        proof {
            lemma_primary_reads(s0);
        }
        let token = self.advance();
        let source = token.source;
        let mut lhs = match token.kind {
            Token::Number(n) => Expression::number(n),
            Token::True => Expression::BooleanLiteral(true),
            Token::False => Expression::BooleanLiteral(false),
            Token::Minus => {
                let binding = match self.prefix_binding(&token) {
                    Ok(b) => b,
                    Err(e) => {
                        return Err(e);
                    },
                };
                match self.expression(binding) {
                    Ok(rhs) => Expression::unary(Operation::Sub, rhs),
                    Err(e) => {
                        return Err(e);
                    },
                }
            },
            Token::Bang => {
                let binding = match self.prefix_binding(&token) {
                    Ok(b) => b,
                    Err(e) => {
                        return Err(e);
                    },
                };
                match self.expression(binding) {
                    Ok(rhs) => Expression::unary(Operation::Not, rhs),
                    Err(e) => {
                        return Err(e);
                    },
                }
            },
            Token::Identifier(name) => Expression::Variable(name),
            Token::LParen => {
                let expr = match self.expression(0) {
                    Ok(e) => e,
                    Err(e) => {
                        return Err(e);
                    },
                };
                let closing = self.advance();
                match closing.kind {
                    Token::RParen => expr,
                    _ => {
                        return Err(ParsingError::MissingClosingParentheses(source));
                    },
                }
            },
            t => {
                return Err(ParsingError::UnexpectedToken(t, source));
            },
        };
        assert(spec_primary(s0) == (Ok::<Expression, ParsingError>(lhs), self@));
        loop
            invariant
                s0 == old(self)@,
                self@.len() < s0.len(),
                spec_infix(self@, min_binding, lhs) == spec_expression(s0, min_binding),
            decreases self@.len(),
        {
            let (ends, operator, position) = match self.peek() {
                Some(t) => (is_expression_end(&t.kind), infix_operator_of(&t.kind), t.source),
                None => (true, None, Position { line: 0, column: 0 }),
            };
            if ends {
                return Ok(lhs);
            }
            let op = match operator {
                Some(op) => op,
                None => {
                    return Err(ParsingError::UnknownOperation(position));
                },
            };
            match self.infix_binding(&op) {
                Some((left, right)) => {
                    if left < min_binding {
                        return Ok(lhs);
                    }
                    self.advance();
                    proof {
                        lemma_expression_reads(self@, right);
                    }
                    let rhs = match self.expression(right) {
                        Ok(e) => e,
                        Err(_) => {
                            return Err(ParsingError::MissingOperand(position));
                        },
                    };
                    lhs = Expression::binary(op, lhs, rhs);
                },
                None => {
                    return Ok(lhs);
                },
            }
        }
    }
}

} // verus!
