//! Properties of the parser and of the virtual machine as a whole, stated
//! over the specifications that their functions are verified against.
use vstd::prelude::*;

use crate::ast::{Expression, Operation, StatementModel};
use crate::lexer::{SourceToken, Token};
use crate::source::Position;
use crate::parser::{
    lemma_primary_reads, lemma_statement_reads, spec_block, lemma_expression_reads, same_token, spec_program, spec_statement, after_next, binding_power, ends_expression, infix_operator, next_token, spec_expression,
    spec_infix, spec_primary, ParsingError,
};
use crate::value::ValueType;
use crate::vm::opcode::Op;
use crate::vm::vm::{Fault, spec_load_global, spec_step, spec_store_global, Machine, Step};

verus! {

/// The expression that a single operand token stands for.
pub open spec fn operand_of(kind: Token) -> Option<Expression> {
    match kind {
        Token::Number(n) => Some(Expression::NumberLiteral(n)),
        Token::True => Some(Expression::BooleanLiteral(true)),
        Token::False => Some(Expression::BooleanLiteral(false)),
        Token::Identifier(name) => Some(Expression::Variable(name)),
        _ => None,
    }
}

/// The tokens end an expression: there are none left, or the next one is
/// `;`, `)` or the end of the file.
pub open spec fn at_end(rest: Seq<SourceToken>) -> bool {
    rest.len() == 0 || rest[0].kind is Semicolon || rest[0].kind is RParen
        || rest[0].kind is EndOfFile
}

/// The left binding power of an infix operator.
pub open spec fn left_power(op: Operation) -> u8 {
    binding_power(op).unwrap().0
}

proof fn lemma_powers(op: Operation)
    requires
        !(op is Not),
    ensures
        binding_power(op) is Some,
        binding_power(op).unwrap().1 == binding_power(op).unwrap().0 + 1,
        binding_power(op).unwrap().0 <= 5,
{
}

proof fn lemma_operator_is_binary(kind: Token)
    requires
        infix_operator(kind) is Some,
    ensures
        !(infix_operator(kind).unwrap() is Not),
        !ends_expression(kind),
{
}

/// An operand token reads as its expression.
proof fn lemma_operand(s: Seq<SourceToken>)
    requires
        s.len() > 0,
        operand_of(s[0].kind) is Some,
    ensures
        spec_primary(s) == (Ok::<Expression, ParsingError>(operand_of(s[0].kind).unwrap()), s.drop_first()),
{
}

/// An operand followed by the end of an expression reads as the operand.
proof fn lemma_operand_at_end(s: Seq<SourceToken>, min_binding: u8)
    requires
        s.len() > 0,
        operand_of(s[0].kind) is Some,
        at_end(s.drop_first()),
    ensures
        spec_expression(s, min_binding) == (Ok::<Expression, ParsingError>(operand_of(s[0].kind).unwrap()), s.drop_first()),
{
    lemma_operand(s);
}

/// Of two infix operators between three operands, the one that binds more
/// tightly takes the middle operand; when they bind equally tightly the
/// first one does, so that operators of one level group to the left.
pub proof fn law_infix_grouping(
    a: SourceToken,
    o1: SourceToken,
    b: SourceToken,
    o2: SourceToken,
    c: SourceToken,
    rest: Seq<SourceToken>,
)
    requires
        operand_of(a.kind) is Some,
        operand_of(b.kind) is Some,
        operand_of(c.kind) is Some,
        infix_operator(o1.kind) is Some,
        infix_operator(o2.kind) is Some,
        at_end(rest),
    ensures
        ({
            let op1 = infix_operator(o1.kind).unwrap();
            let op2 = infix_operator(o2.kind).unwrap();
            let x = operand_of(a.kind).unwrap();
            let y = operand_of(b.kind).unwrap();
            let z = operand_of(c.kind).unwrap();
            spec_expression(seq![a, o1, b, o2, c] + rest, 0) == (
                Ok::<Expression, ParsingError>(
                    if left_power(op2) <= left_power(op1) {
                        Expression::Binary(
                            op2,
                            Box::new(Expression::Binary(op1, Box::new(x), Box::new(y))),
                            Box::new(z),
                        )
                    } else {
                        Expression::Binary(
                            op1,
                            Box::new(x),
                            Box::new(Expression::Binary(op2, Box::new(y), Box::new(z))),
                        )
                    },
                ),
                rest,
            )
        }),
{
    let op1 = infix_operator(o1.kind).unwrap();
    let op2 = infix_operator(o2.kind).unwrap();
    lemma_operator_is_binary(o1.kind);
    lemma_operator_is_binary(o2.kind);
    lemma_powers(op1);
    lemma_powers(op2);
    let (l1, r1) = binding_power(op1).unwrap();
    let (l2, r2) = binding_power(op2).unwrap();
    let x = operand_of(a.kind).unwrap();
    let y = operand_of(b.kind).unwrap();
    let z = operand_of(c.kind).unwrap();
    let s0 = seq![a, o1, b, o2, c] + rest;
    let s1 = seq![o1, b, o2, c] + rest;
    let s2 = seq![b, o2, c] + rest;
    let s3 = seq![o2, c] + rest;
    let s4 = seq![c] + rest;
    assert(s0.drop_first() =~= s1);
    assert(s1.drop_first() =~= s2);
    assert(s2.drop_first() =~= s3);
    assert(s3.drop_first() =~= s4);
    assert(s4.drop_first() =~= rest);
    assert(s0[0] == a && s1[0] == o1 && s2[0] == b && s3[0] == o2 && s4[0] == c);
    lemma_operand(s0);
    lemma_operand(s2);
    lemma_operand_at_end(s4, r2);
    assert(next_token(s1) == o1 && next_token(s3) == o2);
    assert(after_next(s1) == s2 && after_next(s3) == s4);
    if l2 <= l1 {
        assert(spec_infix(s3, r1, y) == (Ok::<Expression, ParsingError>(y), s3));
        assert(spec_expression(s2, r1) == (Ok::<Expression, ParsingError>(y), s3));
        let first = Expression::Binary(op1, Box::new(x), Box::new(y));
        assert(spec_infix(s1, 0, x) == spec_infix(s3, 0, first));
        let both = Expression::Binary(op2, Box::new(first), Box::new(z));
        assert(spec_infix(rest, 0, both) == (Ok::<Expression, ParsingError>(both), rest));
        assert(spec_infix(s3, 0, first) == spec_infix(rest, 0, both));
    } else {
        let second = Expression::Binary(op2, Box::new(y), Box::new(z));
        assert(spec_infix(rest, r1, second) == (Ok::<Expression, ParsingError>(second), rest));
        assert(spec_infix(s3, r1, y) == spec_infix(rest, r1, second));
        assert(spec_expression(s2, r1) == (Ok::<Expression, ParsingError>(second), rest));
        let both = Expression::Binary(op1, Box::new(x), Box::new(second));
        assert(spec_infix(rest, 0, both) == (Ok::<Expression, ParsingError>(both), rest));
        assert(spec_infix(s1, 0, x) == spec_infix(rest, 0, both));
    }
}

/// An infix operator with no operand after it fails with a missing operand
/// at the operator's position.
pub proof fn law_missing_operand(a: SourceToken, o: SourceToken, rest: Seq<SourceToken>)
    requires
        operand_of(a.kind) is Some,
        infix_operator(o.kind) is Some,
        at_end(rest),
    ensures
        spec_expression(seq![a, o] + rest, 0) == (
            Err::<Expression, ParsingError>(ParsingError::MissingOperand(o.source)),
            after_next(rest),
        ),
{
    let op = infix_operator(o.kind).unwrap();
    lemma_operator_is_binary(o.kind);
    lemma_powers(op);
    let (l, r) = binding_power(op).unwrap();
    let s0 = seq![a, o] + rest;
    let s1 = seq![o] + rest;
    assert(s0.drop_first() =~= s1);
    assert(s1.drop_first() =~= rest);
    assert(s0[0] == a && s1[0] == o);
    lemma_operand(s0);
    assert(next_token(s1) == o && after_next(s1) == rest);
    assert(spec_expression(rest, r).0 is Err);
}

/// A prefix minus binds more tightly than any infix operator.
pub proof fn law_prefix_binds_tightest(
    minus: SourceToken,
    a: SourceToken,
    o: SourceToken,
    b: SourceToken,
    rest: Seq<SourceToken>,
)
    requires
        minus.kind is Minus,
        operand_of(a.kind) is Some,
        infix_operator(o.kind) is Some,
        operand_of(b.kind) is Some,
        at_end(rest),
    ensures
        spec_expression(seq![minus, a, o, b] + rest, 0) == (
            Ok::<Expression, ParsingError>(
                Expression::Binary(
                    infix_operator(o.kind).unwrap(),
                    Box::new(
                        Expression::Unary(Operation::Sub, Box::new(operand_of(a.kind).unwrap())),
                    ),
                    Box::new(operand_of(b.kind).unwrap()),
                ),
            ),
            rest,
        ),
{
    let op = infix_operator(o.kind).unwrap();
    lemma_operator_is_binary(o.kind);
    lemma_powers(op);
    let (l, r) = binding_power(op).unwrap();
    let x = operand_of(a.kind).unwrap();
    let y = operand_of(b.kind).unwrap();
    let s0 = seq![minus, a, o, b] + rest;
    let s1 = seq![a, o, b] + rest;
    let s2 = seq![o, b] + rest;
    let s3 = seq![b] + rest;
    assert(s0.drop_first() =~= s1);
    assert(s1.drop_first() =~= s2);
    assert(s2.drop_first() =~= s3);
    assert(s3.drop_first() =~= rest);
    assert(s0[0] == minus && s1[0] == a && s2[0] == o && s3[0] == b);
    lemma_operand(s1);
    lemma_operand_at_end(s3, r);
    assert(next_token(s2) == o && after_next(s2) == s3);
    assert(spec_infix(s2, 7, x) == (Ok::<Expression, ParsingError>(x), s2));
    assert(spec_expression(s1, 7) == (Ok::<Expression, ParsingError>(x), s2));
    let negated = Expression::Unary(Operation::Sub, Box::new(x));
    assert(spec_primary(s0) == (Ok::<Expression, ParsingError>(negated), s2));
    let both = Expression::Binary(op, Box::new(negated), Box::new(y));
    assert(spec_infix(rest, 0, both) == (Ok::<Expression, ParsingError>(both), rest));
    assert(spec_infix(s2, 0, negated) == spec_infix(rest, 0, both));
}

/// Parentheses group an operation, whatever binding power the operator
/// after them has.
pub proof fn law_parentheses_group(
    open: SourceToken,
    a: SourceToken,
    o1: SourceToken,
    b: SourceToken,
    close: SourceToken,
    o2: SourceToken,
    c: SourceToken,
    rest: Seq<SourceToken>,
)
    requires
        open.kind is LParen,
        close.kind is RParen,
        operand_of(a.kind) is Some,
        operand_of(b.kind) is Some,
        operand_of(c.kind) is Some,
        infix_operator(o1.kind) is Some,
        infix_operator(o2.kind) is Some,
        at_end(rest),
    ensures
        spec_expression(seq![open, a, o1, b, close, o2, c] + rest, 0) == (
            Ok::<Expression, ParsingError>(
                Expression::Binary(
                    infix_operator(o2.kind).unwrap(),
                    Box::new(
                        Expression::Binary(
                            infix_operator(o1.kind).unwrap(),
                            Box::new(operand_of(a.kind).unwrap()),
                            Box::new(operand_of(b.kind).unwrap()),
                        ),
                    ),
                    Box::new(operand_of(c.kind).unwrap()),
                ),
            ),
            rest,
        ),
{
    let op1 = infix_operator(o1.kind).unwrap();
    let op2 = infix_operator(o2.kind).unwrap();
    lemma_operator_is_binary(o1.kind);
    lemma_operator_is_binary(o2.kind);
    lemma_powers(op1);
    lemma_powers(op2);
    let (l1, r1) = binding_power(op1).unwrap();
    let (l2, r2) = binding_power(op2).unwrap();
    let x = operand_of(a.kind).unwrap();
    let y = operand_of(b.kind).unwrap();
    let z = operand_of(c.kind).unwrap();
    let s0 = seq![open, a, o1, b, close, o2, c] + rest;
    let s1 = seq![a, o1, b, close, o2, c] + rest;
    let s2 = seq![o1, b, close, o2, c] + rest;
    let s3 = seq![b, close, o2, c] + rest;
    let s4 = seq![close, o2, c] + rest;
    let s5 = seq![o2, c] + rest;
    let s6 = seq![c] + rest;
    assert(s0.drop_first() =~= s1);
    assert(s1.drop_first() =~= s2);
    assert(s2.drop_first() =~= s3);
    assert(s3.drop_first() =~= s4);
    assert(s4.drop_first() =~= s5);
    assert(s5.drop_first() =~= s6);
    assert(s6.drop_first() =~= rest);
    assert(s0[0] == open && s1[0] == a && s2[0] == o1 && s3[0] == b && s4[0] == close);
    assert(s5[0] == o2 && s6[0] == c);
    lemma_operand(s1);
    lemma_operand(s3);
    lemma_operand_at_end(s6, r2);
    assert(next_token(s2) == o1 && after_next(s2) == s3);
    assert(next_token(s4) == close && after_next(s4) == s5);
    assert(next_token(s5) == o2 && after_next(s5) == s6);
    assert(spec_infix(s4, r1, y) == (Ok::<Expression, ParsingError>(y), s4));
    assert(spec_expression(s3, r1) == (Ok::<Expression, ParsingError>(y), s4));
    let inner = Expression::Binary(op1, Box::new(x), Box::new(y));
    assert(spec_infix(s4, 0, inner) == (Ok::<Expression, ParsingError>(inner), s4));
    assert(spec_infix(s2, 0, x) == spec_infix(s4, 0, inner));
    assert(spec_expression(s1, 0) == (Ok::<Expression, ParsingError>(inner), s4));
    assert(spec_primary(s0) == (Ok::<Expression, ParsingError>(inner), s5));
    let both = Expression::Binary(op2, Box::new(inner), Box::new(z));
    assert(spec_infix(rest, 0, both) == (Ok::<Expression, ParsingError>(both), rest));
    assert(spec_infix(s5, 0, inner) == spec_infix(rest, 0, both));
}

/// Popping right after pushing `value` gives back `value` and leaves the
/// stack as it was before the push.
pub proof fn law_pop_after_push(stack: Seq<ValueType>, value: ValueType)
    ensures
        stack.push(value).len() > 0,
        stack.push(value).last() == value,
        stack.push(value).drop_last() == stack,
{
    assert(stack.push(value).drop_last() =~= stack);
}

/// Reading a slot of the stack right after setting it gives the value that
/// was set, and setting one slot leaves the others and the height as they
/// were.
pub proof fn law_read_after_set(stack: Seq<ValueType>, offset: int, value: ValueType)
    requires
        0 <= offset < stack.len(),
    ensures
        stack.update(offset, value)[offset] == value,
        stack.update(offset, value).len() == stack.len(),
        forall|i: int|
            0 <= i < stack.len() && i != offset ==> #[trigger] stack.update(offset, value)[i]
                == stack[i],
{
}

/// When the instruction pointer is past the last instruction, a step halts
/// and changes nothing.
pub proof fn law_halted(m: Machine)
    requires
        m.ip >= m.code.len(),
    ensures
        spec_step(m) == (Ok::<Step, crate::vm::vm::Fault>(Step::Halted), m),
{
}

/// The instructions other than jumps move the instruction pointer to the
/// next instruction, whether they succeed or fail; no instruction changes
/// the program.
pub proof fn law_straight_line(m: Machine)
    requires
        m.ip < m.code.len() <= usize::MAX,
    ensures
        spec_step(m).1.code == m.code,
        !(m.code[m.ip as int] is Jump) && !(m.code[m.ip as int] is JumpIfFalse) ==> spec_step(
            m,
        ).1.ip == m.ip + 1,
{
}

/// Storing the top value into a global variable and then loading the same
/// variable leaves the stack as it was, and the variable holds the value.
pub proof fn law_global_round_trip(m: Machine, store: String, load: String)
    requires
        m.ip + 1 < m.code.len() <= usize::MAX,
        m.code[m.ip as int] == Op::StoreGlobal(store),
        m.code[m.ip + 1] == Op::LoadGlobal(load),
        store@ == load@,
        m.stack.len() > 0,
    ensures
        spec_step(m).0 == Ok::<Step, crate::vm::vm::Fault>(Step::Continue),
        spec_step(spec_step(m).1).0 == Ok::<Step, crate::vm::vm::Fault>(Step::Continue),
        spec_step(spec_step(m).1).1.stack == m.stack,
        spec_step(spec_step(m).1).1.globals == m.globals.insert(store@, m.stack.last()),
        spec_step(spec_step(m).1).1.ip == m.ip + 2,
{
    let m1 = spec_step(m).1;
    assert(m1.globals.dom().contains(load@));
    assert(m1.stack.push(m.stack.last()) =~= m.stack);
}

/// Storing the top value into a slot of the stack and then loading that
/// slot pushes a copy of the value.
pub proof fn law_local_round_trip(m: Machine, offset: usize)
    requires
        m.ip + 1 < m.code.len() <= usize::MAX,
        m.code[m.ip as int] == Op::StoreLocal(offset),
        m.code[m.ip + 1] == Op::LoadLocal(offset),
        offset < m.stack.len(),
    ensures
        spec_step(m).0 == Ok::<Step, crate::vm::vm::Fault>(Step::Continue),
        spec_step(spec_step(m).1).0 == Ok::<Step, crate::vm::vm::Fault>(Step::Continue),
        spec_step(spec_step(m).1).1.stack == m.stack.update(offset as int, m.stack.last()).push(
            m.stack.last(),
        ),
        spec_step(spec_step(m).1).1.ip == m.ip + 2,
{
}

/// Negating a boolean twice gives it back.
pub proof fn law_double_negation(m: Machine)
    requires
        m.ip + 1 < m.code.len() <= usize::MAX,
        m.code[m.ip as int] == Op::Not,
        m.code[m.ip + 1] == Op::Not,
        m.stack.len() > 0,
        m.stack.last() is Bool,
    ensures
        spec_step(m).0 == Ok::<Step, crate::vm::vm::Fault>(Step::Continue),
        spec_step(spec_step(m).1).0 == Ok::<Step, crate::vm::vm::Fault>(Step::Continue),
        spec_step(spec_step(m).1).1.stack == m.stack,
        spec_step(spec_step(m).1).1.ip == m.ip + 2,
{
    let m1 = spec_step(m).1;
    assert(m1.stack.drop_last() =~= m.stack.drop_last());
    assert(m.stack.drop_last().push(m.stack.last()) =~= m.stack);
}

/// The token of an operator.
pub open spec fn operator_token(op: Operation) -> Token {
    match op {
        Operation::Add => Token::Plus,
        Operation::Sub => Token::Minus,
        Operation::Mul => Token::Star,
        Operation::Div => Token::Slash,
        Operation::Equal => Token::EqualEqual,
        Operation::NotEqual => Token::BangEqual,
        Operation::Less => Token::Less,
        Operation::LessOrEqual => Token::LessEqual,
        Operation::Greater => Token::Greater,
        Operation::GreaterOrEqual => Token::GreaterEqual,
        Operation::Not => Token::Bang,
    }
}

/// A token of the given kind, at the origin.
pub open spec fn token(kind: Token) -> SourceToken {
    SourceToken { kind, source: Position::origin() }
}

/// An expression that l9 can write: its prefix operators are `-` and `!`,
/// and its infix operators are the others.
pub open spec fn writable(e: Expression) -> bool
    decreases e,
{
    match e {
        Expression::Unary(op, x) => (op is Sub || op is Not) && writable(*x),
        Expression::Binary(op, l, r) => !(op is Not) && writable(*l) && writable(*r),
        _ => true,
    }
}

/// The tokens of an expression with each infix operation in parentheses.
pub open spec fn written(e: Expression) -> Seq<SourceToken>
    decreases e,
{
    match e {
        Expression::NumberLiteral(n) => seq![token(Token::Number(n))],
        Expression::BooleanLiteral(b) => seq![
            token(
                if b {
                    Token::True
                } else {
                    Token::False
                },
            ),
        ],
        Expression::Variable(name) => seq![token(Token::Identifier(name))],
        Expression::Unary(op, x) => seq![token(operator_token(op))] + written(*x),
        Expression::Binary(op, l, r) => seq![token(Token::LParen)] + written(*l) + seq![
            token(operator_token(op)),
        ] + written(*r) + seq![token(Token::RParen)],
    }
}

/// The tokens can follow an operand: there are none left, or the next one
/// ends an expression or is an infix operator.
pub open spec fn follows_operand(rest: Seq<SourceToken>) -> bool {
    at_end(rest) || infix_operator(next_token(rest).kind) is Some
}

/// A written expression reads back as an operand, whatever operator follows.
proof fn lemma_primary_written(e: Expression, rest: Seq<SourceToken>)
    requires
        writable(e),
        follows_operand(rest),
    ensures
        spec_primary(written(e) + rest) == (Ok::<Expression, ParsingError>(e), rest),
    decreases e,
{
    let s = written(e) + rest;
    match e {
        Expression::Unary(op, x) => {
            let inner = written(*x) + rest;
            assert(s[0] == token(operator_token(op)));
            assert(s.drop_first() =~= inner);
            lemma_primary_written(*x, rest);
            if at_end(rest) {
                assert(spec_infix(rest, 7, *x) == (Ok::<Expression, ParsingError>(*x), rest));
            } else {
                let o = infix_operator(next_token(rest).kind).unwrap();
                lemma_operator_is_binary(next_token(rest).kind);
                lemma_powers(o);
                assert(spec_infix(rest, 7, *x) == (Ok::<Expression, ParsingError>(*x), rest));
            }
            assert(spec_expression(inner, 7) == (Ok::<Expression, ParsingError>(*x), rest));
        },
        Expression::Binary(op, l, r) => {
            let close = seq![token(Token::RParen)] + rest;
            let after_op = written(*r) + close;
            let t1 = seq![token(operator_token(op))] + after_op;
            let inner = written(*l) + t1;
            assert(s =~= seq![token(Token::LParen)] + inner);
            assert(s[0] == token(Token::LParen));
            assert(s.drop_first() =~= inner);
            assert(t1[0] == token(operator_token(op)));
            assert(t1.drop_first() =~= after_op);
            assert(close[0] == token(Token::RParen));
            assert(close.drop_first() =~= rest);
            assert(infix_operator(operator_token(op)) == Some(op));
            lemma_powers(op);
            let (left, right) = binding_power(op).unwrap();
            lemma_primary_written(*l, t1);
            lemma_primary_written(*r, close);
            assert(spec_infix(close, right, *r) == (Ok::<Expression, ParsingError>(*r), close));
            assert(spec_expression(after_op, right) == (Ok::<Expression, ParsingError>(*r), close));
            let both = Expression::Binary(op, l, r);
            assert(spec_infix(close, 0, both) == (Ok::<Expression, ParsingError>(both), close));
            assert(spec_infix(t1, 0, *l) == spec_infix(close, 0, both));
            assert(spec_expression(inner, 0) == (Ok::<Expression, ParsingError>(both), close));
        },
        Expression::NumberLiteral(n) => {
            assert(s.drop_first() =~= rest);
        },
        Expression::BooleanLiteral(b) => {
            assert(s.drop_first() =~= rest);
        },
        Expression::Variable(name) => {
            assert(s.drop_first() =~= rest);
        },
    }
}

/// Every expression that l9 can write, written with each infix operation in
/// parentheses, reads back as itself, and reading stops where the
/// expression ends.
pub proof fn law_written_expression_reads_back(e: Expression, rest: Seq<SourceToken>)
    requires
        writable(e),
        at_end(rest),
    ensures
        spec_expression(written(e) + rest, 0) == (Ok::<Expression, ParsingError>(e), rest),
{
    lemma_primary_written(e, rest);
    lemma_primary_reads(written(e) + rest);
}

/// The tokens of the segments from the `i`-th on, followed by `tail`.
pub open spec fn segments_from(
    segments: Seq<Seq<SourceToken>>,
    i: int,
    tail: Seq<SourceToken>,
) -> Seq<SourceToken> {
    segments.subrange(i, segments.len() as int).flatten() + tail
}

/// A program is read one statement after another: when the tokens are
/// segments each of which reads as a statement (with the later segments
/// after it), the program holds those statements in order and goes on with
/// the tokens after the segments. So with no tokens after them the program
/// is exactly those statements, and when the tokens after them start a
/// statement that fails, the program fails with that statement's error.
pub proof fn law_program_reads_statements_in_turn(
    segments: Seq<Seq<SourceToken>>,
    statements: Seq<StatementModel>,
    tail: Seq<SourceToken>,
    done: Seq<StatementModel>,
)
    requires
        segments.len() == statements.len(),
        forall|i: int|
            0 <= i < segments.len() ==> #[trigger] spec_statement(segments_from(segments, i, tail))
                == (Ok::<StatementModel, ParsingError>(statements[i]), segments_from(
                segments,
                i + 1,
                tail,
            )),
    ensures
        spec_program(segments.flatten() + tail, done) == spec_program(tail, done + statements),
        tail.len() == 0 ==> spec_program(segments.flatten() + tail, done) == (
            Ok::<Seq<StatementModel>, ParsingError>(done + statements),
            tail,
        ),
        tail.len() > 0 && spec_statement(tail).0 is Err ==> spec_program(
            segments.flatten() + tail,
            done,
        ) == (
            Err::<Seq<StatementModel>, ParsingError>(spec_statement(tail).0->Err_0),
            spec_statement(tail).1,
        ),
    decreases segments.len(),
{
    let n = segments.len() as int;
    if n == 0 {
        assert(segments.flatten() + tail =~= tail);
        assert(done + statements =~= done);
    } else {
        let first = segments_from(segments, 0, tail);
        let rest = segments_from(segments, 1, tail);
        assert(segments.subrange(0, n) =~= segments);
        assert(segments.subrange(1, n) =~= segments.drop_first());
        assert(segments.flatten() + tail =~= first);
        assert(spec_statement(first) == (
            Ok::<StatementModel, ParsingError>(statements[0]),
            rest,
        ));
        lemma_statement_reads(first);
        let later = segments.drop_first();
        assert forall|i: int| 0 <= i < later.len() implies #[trigger] spec_statement(
            segments_from(later, i, tail),
        ) == (Ok::<StatementModel, ParsingError>(statements.drop_first()[i]), segments_from(
            later,
            i + 1,
            tail,
        )) by {
            assert(later.subrange(i, later.len() as int) =~= segments.subrange(i + 1, n));
            assert(later.subrange(i + 1, later.len() as int) =~= segments.subrange(i + 2, n));
            assert(spec_statement(segments_from(segments, i + 1, tail)) == (
                Ok::<StatementModel, ParsingError>(statements[i + 1]),
                segments_from(segments, i + 2, tail),
            ));
        }
        assert(later.subrange(0, later.len() as int) =~= later);
        law_program_reads_statements_in_turn(
            later,
            statements.drop_first(),
            tail,
            done.push(statements[0]),
        );
        assert(later.flatten() + tail =~= rest);
        assert(done.push(statements[0]) + statements.drop_first() =~= done + statements);
    }
}

/// Whether an instruction can move the instruction pointer backwards.
pub open spec fn jumps_backward(op: Op) -> bool {
    match op {
        Op::Jump(offset) => offset < 0,
        Op::JumpIfFalse(offset) => offset < 0,
        _ => false,
    }
}

/// An instruction that cannot jump backwards moves the instruction pointer
/// forwards, whether it succeeds or fails. Handing back a computed value
/// (`Vm::resume`) does not move it, so a program without backward jumps
/// halts after at most as many steps as it has instructions, or fails.
pub proof fn law_forward_progress(m: Machine)
    requires
        m.ip < m.code.len() <= usize::MAX,
        !jumps_backward(m.code[m.ip as int]),
    ensures
        spec_step(m).1.ip > m.ip,
        spec_step(m).1.code == m.code,
{
}

/// Storing the top value into a global variable and loading that variable
/// right away succeeds, leaves the stack as it was, and leaves the variable
/// holding the value.
pub proof fn law_store_then_load_global(m: Machine, name: Seq<char>)
    requires
        m.stack.len() > 0,
    ensures
        spec_store_global(name, m).0 == Ok::<Step, crate::vm::vm::Fault>(Step::Continue),
        spec_load_global(name, spec_store_global(name, m).1) == (
            Ok::<Step, crate::vm::vm::Fault>(Step::Continue),
            m.with_globals(m.globals.insert(name, m.stack.last())),
        ),
{
    let m1 = spec_store_global(name, m).1;
    assert(m1.globals.dom().contains(name));
    assert(m1.stack.push(m.stack.last()) =~= m.stack);
}

/// The state after one step, with `answer` handed back when the step asked
/// for a computation (as the caller does with `Vm::resume`).
pub open spec fn after_step(m: Machine, answer: ValueType) -> Machine {
    let (r, next) = spec_step(m);
    if r matches Ok(Step::Arithmetic(_, _, _)) {
        next.pushed(answer)
    } else {
        next
    }
}

/// Runs at most `n` steps from `m`, answering the `k`-th step's request for
/// a computation with `answers(k)`, and stopping at the first step that
/// halts or fails. Gives `Halted`, the error, or `Continue` when `n` steps
/// were not enough.
pub open spec fn spec_run(m: Machine, answers: spec_fn(nat) -> ValueType, n: nat) -> Result<
    Step,
    Fault,
>
    decreases n,
{
    if n == 0 {
        Ok(Step::Continue)
    } else {
        match spec_step(m).0 {
            Ok(Step::Halted) => Ok(Step::Halted),
            Err(e) => Err(e),
            _ => spec_run(after_step(m, answers(0)), |k: nat| answers(k + 1), (n - 1) as nat),
        }
    }
}

/// No instruction of the program jumps backwards.
pub open spec fn no_backward_jumps(code: Seq<Op>) -> bool {
    forall|i: int| 0 <= i < code.len() ==> !jumps_backward(#[trigger] code[i])
}

/// A program without backward jumps halts or fails within one step more than
/// it has instructions left, whatever values the caller hands back for the
/// computations it asks for.
pub proof fn law_run_without_backward_jumps_ends(
    m: Machine,
    answers: spec_fn(nat) -> ValueType,
    n: nat,
)
    requires
        m.code.len() <= usize::MAX,
        no_backward_jumps(m.code),
        n >= m.code.len() - m.ip + 1,
        n >= 1,
    ensures
        spec_run(m, answers, n) == Ok::<Step, Fault>(Step::Halted) || spec_run(
            m,
            answers,
            n,
        ) is Err,
    decreases n,
{
    if m.ip < m.code.len() {
        law_forward_progress(m);
        let r = spec_step(m).0;
        if !(r matches Ok(Step::Halted)) && !(r is Err) {
            let next = after_step(m, answers(0));
            assert(next.ip == spec_step(m).1.ip && next.code == m.code);
            law_run_without_backward_jumps_ends(next, |k: nat| answers(k + 1), (n - 1) as nat);
        }
    }
}

/// The operation that an infix operator token stands for.
pub open spec fn operation_named(kind: Token) -> Option<Operation> {
    match kind {
        Token::Plus => Some(Operation::Add),
        Token::Minus => Some(Operation::Sub),
        Token::Star => Some(Operation::Mul),
        Token::Slash => Some(Operation::Div),
        Token::EqualEqual => Some(Operation::Equal),
        Token::BangEqual => Some(Operation::NotEqual),
        Token::Less => Some(Operation::Less),
        Token::LessEqual => Some(Operation::LessOrEqual),
        Token::Greater => Some(Operation::Greater),
        Token::GreaterEqual => Some(Operation::GreaterOrEqual),
        _ => None,
    }
}

/// The precedence level of an infix operator token: `*` and `/` bind most
/// tightly, then `+` and `-`, then the comparisons.
pub open spec fn precedence(kind: Token) -> int {
    match kind {
        Token::Star | Token::Slash => 3,
        Token::Plus | Token::Minus => 2,
        _ => 1,
    }
}

/// Operator precedence and associativity: of `a o1 b o2 c`, the second
/// operator takes `b` exactly when it binds more tightly than the first;
/// operators of one level group to the left. So `1 + 6 / 2` reads as
/// `1 + (6 / 2)`, `1 / 6 + 2` as `(1 / 6) + 2`, `1 - 6 + 2` as `(1 - 6) + 2`
/// and `1 < 6 + 2` as `1 < (6 + 2)`.
pub proof fn law_precedence(
    a: SourceToken,
    o1: SourceToken,
    b: SourceToken,
    o2: SourceToken,
    c: SourceToken,
    rest: Seq<SourceToken>,
)
    requires
        operand_of(a.kind) is Some,
        operand_of(b.kind) is Some,
        operand_of(c.kind) is Some,
        operation_named(o1.kind) is Some,
        operation_named(o2.kind) is Some,
        at_end(rest),
    ensures
        ({
            let op1 = operation_named(o1.kind).unwrap();
            let op2 = operation_named(o2.kind).unwrap();
            let x = operand_of(a.kind).unwrap();
            let y = operand_of(b.kind).unwrap();
            let z = operand_of(c.kind).unwrap();
            spec_expression(seq![a, o1, b, o2, c] + rest, 0) == (
                Ok::<Expression, ParsingError>(
                    if precedence(o2.kind) > precedence(o1.kind) {
                        Expression::Binary(
                            op1,
                            Box::new(x),
                            Box::new(Expression::Binary(op2, Box::new(y), Box::new(z))),
                        )
                    } else {
                        Expression::Binary(
                            op2,
                            Box::new(Expression::Binary(op1, Box::new(x), Box::new(y))),
                            Box::new(z),
                        )
                    },
                ),
                rest,
            )
        }),
{
    assert(infix_operator(o1.kind) == operation_named(o1.kind));
    assert(infix_operator(o2.kind) == operation_named(o2.kind));
    let op1 = operation_named(o1.kind).unwrap();
    let op2 = operation_named(o2.kind).unwrap();
    assert((left_power(op2) <= left_power(op1)) == (precedence(o2.kind) <= precedence(
        o1.kind,
    )));
    law_infix_grouping(a, o1, b, o2, c, rest);
}

/// `!` negates the operand after it.
pub proof fn law_bang_negates(bang: SourceToken, a: SourceToken, rest: Seq<SourceToken>)
    requires
        bang.kind is Bang,
        operand_of(a.kind) is Some,
        at_end(rest),
    ensures
        spec_expression(seq![bang, a] + rest, 0) == (
            Ok::<Expression, ParsingError>(
                Expression::Unary(Operation::Not, Box::new(operand_of(a.kind).unwrap())),
            ),
            rest,
        ),
{
    let s0 = seq![bang, a] + rest;
    let s1 = seq![a] + rest;
    assert(s0.drop_first() =~= s1);
    assert(s1.drop_first() =~= rest);
    assert(s0[0] == bang && s1[0] == a);
    lemma_operand_at_end(s1, 7);
    lemma_primary_reads(s0);
}

/// A statement that reads successfully does not start with `}` or the end of
/// the file.
proof fn lemma_statement_start(s: Seq<SourceToken>)
    requires
        spec_statement(s).0 is Ok,
    ensures
        !(next_token(s).kind is RightCurly) && !(next_token(s).kind is EndOfFile),
{
}

/// The statements of a block are read one after another, as those of a
/// program are.
proof fn lemma_block_reads_statements_in_turn(
    segments: Seq<Seq<SourceToken>>,
    statements: Seq<StatementModel>,
    tail: Seq<SourceToken>,
    done: Seq<StatementModel>,
)
    requires
        segments.len() == statements.len(),
        forall|i: int|
            0 <= i < segments.len() ==> #[trigger] spec_statement(segments_from(segments, i, tail))
                == (Ok::<StatementModel, ParsingError>(statements[i]), segments_from(
                segments,
                i + 1,
                tail,
            )),
    ensures
        spec_block(segments.flatten() + tail, done) == spec_block(tail, done + statements),
    decreases segments.len(),
{
    let n = segments.len() as int;
    if n == 0 {
        assert(segments.flatten() + tail =~= tail);
        assert(done + statements =~= done);
    } else {
        let first = segments_from(segments, 0, tail);
        let rest = segments_from(segments, 1, tail);
        assert(segments.subrange(0, n) =~= segments);
        assert(segments.subrange(1, n) =~= segments.drop_first());
        assert(segments.flatten() + tail =~= first);
        assert(spec_statement(first) == (
            Ok::<StatementModel, ParsingError>(statements[0]),
            rest,
        ));
        lemma_statement_reads(first);
        lemma_statement_start(first);
        let later = segments.drop_first();
        assert forall|i: int| 0 <= i < later.len() implies #[trigger] spec_statement(
            segments_from(later, i, tail),
        ) == (Ok::<StatementModel, ParsingError>(statements.drop_first()[i]), segments_from(
            later,
            i + 1,
            tail,
        )) by {
            assert(later.subrange(i, later.len() as int) =~= segments.subrange(i + 1, n));
            assert(later.subrange(i + 1, later.len() as int) =~= segments.subrange(i + 2, n));
            assert(spec_statement(segments_from(segments, i + 1, tail)) == (
                Ok::<StatementModel, ParsingError>(statements[i + 1]),
                segments_from(segments, i + 2, tail),
            ));
        }
        assert(later.subrange(0, later.len() as int) =~= later);
        lemma_block_reads_statements_in_turn(
            later,
            statements.drop_first(),
            tail,
            done.push(statements[0]),
        );
        assert(later.flatten() + tail =~= rest);
        assert(done.push(statements[0]) + statements.drop_first() =~= done + statements);
    }
}

/// A block holds every statement between its braces, in order: when the
/// tokens after `{` are segments each of which reads as a statement (with
/// the later segments after it), followed by `}`, the block reads as a block
/// of exactly those statements, and reading stops after the `}`.
pub proof fn law_block_reads_statements_in_turn(
    open: SourceToken,
    segments: Seq<Seq<SourceToken>>,
    statements: Seq<StatementModel>,
    close: SourceToken,
    rest: Seq<SourceToken>,
)
    requires
        open.kind is LeftCurly,
        close.kind is RightCurly,
        segments.len() == statements.len(),
        forall|i: int|
            0 <= i < segments.len() ==> #[trigger] spec_statement(
                segments_from(segments, i, seq![close] + rest),
            ) == (Ok::<StatementModel, ParsingError>(statements[i]), segments_from(
                segments,
                i + 1,
                seq![close] + rest,
            )),
    ensures
        spec_statement(seq![open] + segments.flatten() + seq![close] + rest) == (
            Ok::<StatementModel, ParsingError>(StatementModel::Block(statements)),
            rest,
        ),
{
    let tail = seq![close] + rest;
    let inner = segments.flatten() + tail;
    let s = seq![open] + segments.flatten() + seq![close] + rest;
    assert(s =~= seq![open] + inner);
    assert(s[0] == open);
    assert(s.drop_first() =~= inner);
    lemma_block_reads_statements_in_turn(segments, statements, tail, Seq::empty());
    assert(Seq::<StatementModel>::empty() + statements =~= statements);
    assert(tail[0] == close);
    assert(tail.drop_first() =~= rest);
}

/// An operand followed by a token that neither ends an expression nor is an
/// infix operator fails with an unknown operation at that token.
pub proof fn law_unknown_operation(a: SourceToken, t: SourceToken, rest: Seq<SourceToken>)
    requires
        operand_of(a.kind) is Some,
        operation_named(t.kind) is None,
        !at_end(seq![t]),
    ensures
        spec_expression(seq![a, t] + rest, 0) == (
            Err::<Expression, ParsingError>(ParsingError::UnknownOperation(t.source)),
            seq![t] + rest,
        ),
{
    let s0 = seq![a, t] + rest;
    let s1 = seq![t] + rest;
    assert(s0.drop_first() =~= s1);
    assert(s0[0] == a && s1[0] == t);
    lemma_operand(s0);
    assert(infix_operator(t.kind) == operation_named(t.kind));
}

/// A token that starts no statement fails with an unknown statement at that
/// token.
pub proof fn law_unknown_statement(t: SourceToken, rest: Seq<SourceToken>)
    requires
        !(t.kind is Print || t.kind is LeftCurly || t.kind is Let || t.kind is If
            || t.kind is While || t.kind is Identifier),
    ensures
        spec_statement(seq![t] + rest) == (
            Err::<StatementModel, ParsingError>(ParsingError::Unknown(t.source)),
            rest,
        ),
{
    assert((seq![t] + rest)[0] == t);
    assert((seq![t] + rest).drop_first() =~= rest);
}

/// `print e;` prints the expression `e`; without the `;` it fails at the
/// token found in its place.
pub proof fn law_print_statement(
    print: SourceToken,
    e: Seq<SourceToken>,
    x: Expression,
    end: SourceToken,
    rest: Seq<SourceToken>,
)
    requires
        print.kind is Print,
        spec_expression(e + seq![end] + rest, 0) == (Ok::<Expression, ParsingError>(x), seq![
            end,
        ] + rest),
    ensures
        end.kind is Semicolon ==> spec_statement(seq![print] + e + seq![end] + rest) == (
            Ok::<StatementModel, ParsingError>(StatementModel::Print(x)),
            rest,
        ),
        !(end.kind is Semicolon) ==> spec_statement(seq![print] + e + seq![end] + rest) == (
            Err::<StatementModel, ParsingError>(
                ParsingError::UnexpectedToken(end.kind, end.source),
            ),
            rest,
        ),
{
    let s = seq![print] + e + seq![end] + rest;
    let tail = seq![end] + rest;
    assert(s[0] == print);
    assert(s.drop_first() =~= e + tail);
    assert(e + seq![end] + rest =~= e + tail);
    assert(tail[0] == end);
    assert(tail.drop_first() =~= rest);
}

/// `let name = e;` declares `name` with the value of `e`.
pub proof fn law_let_with_value(
    let_: SourceToken,
    id: SourceToken,
    name: String,
    eq: SourceToken,
    e: Seq<SourceToken>,
    x: Expression,
    semi: SourceToken,
    rest: Seq<SourceToken>,
)
    requires
        let_.kind is Let,
        id.kind == Token::Identifier(name),
        eq.kind is Equal,
        semi.kind is Semicolon,
        spec_expression(e + seq![semi] + rest, 0) == (Ok::<Expression, ParsingError>(x), seq![
            semi,
        ] + rest),
    ensures
        spec_statement(seq![let_, id, eq] + e + seq![semi] + rest) == (
            Ok::<StatementModel, ParsingError>(StatementModel::Declaration(name, Some(x))),
            rest,
        ),
{
    let s = seq![let_, id, eq] + e + seq![semi] + rest;
    let tail = seq![semi] + rest;
    let s1 = seq![id, eq] + e + tail;
    let s2 = seq![eq] + e + tail;
    assert(s[0] == let_ && s1[0] == id && s2[0] == eq);
    assert(s.drop_first() =~= s1);
    assert(s1.drop_first() =~= s2);
    assert(s2.drop_first() =~= e + tail);
    assert(e + seq![semi] + rest =~= e + tail);
    assert(tail[0] == semi);
    assert(tail.drop_first() =~= rest);
}

/// `let name;` declares `name` without a value.
pub proof fn law_let_without_value(
    let_: SourceToken,
    id: SourceToken,
    name: String,
    semi: SourceToken,
    rest: Seq<SourceToken>,
)
    requires
        let_.kind is Let,
        id.kind == Token::Identifier(name),
        semi.kind is Semicolon,
    ensures
        spec_statement(seq![let_, id, semi] + rest) == (
            Ok::<StatementModel, ParsingError>(StatementModel::Declaration(name, None)),
            rest,
        ),
{
    let s = seq![let_, id, semi] + rest;
    let s1 = seq![id, semi] + rest;
    let s2 = seq![semi] + rest;
    assert(s[0] == let_ && s1[0] == id && s2[0] == semi);
    assert(s.drop_first() =~= s1);
    assert(s1.drop_first() =~= s2);
    assert(s2.drop_first() =~= rest);
}

/// `name = e;` assigns the value of `e` to `name`.
pub proof fn law_assignment(
    id: SourceToken,
    name: String,
    eq: SourceToken,
    e: Seq<SourceToken>,
    x: Expression,
    semi: SourceToken,
    rest: Seq<SourceToken>,
)
    requires
        id.kind == Token::Identifier(name),
        eq.kind is Equal,
        semi.kind is Semicolon,
        spec_expression(e + seq![semi] + rest, 0) == (Ok::<Expression, ParsingError>(x), seq![
            semi,
        ] + rest),
    ensures
        spec_statement(seq![id, eq] + e + seq![semi] + rest) == (
            Ok::<StatementModel, ParsingError>(StatementModel::Assignment(name, x)),
            rest,
        ),
{
    let s = seq![id, eq] + e + seq![semi] + rest;
    let tail = seq![semi] + rest;
    let s1 = seq![eq] + e + tail;
    assert(s[0] == id && s1[0] == eq);
    assert(s.drop_first() =~= s1);
    assert(s1.drop_first() =~= e + tail);
    assert(e + seq![semi] + rest =~= e + tail);
    assert(tail[0] == semi);
    assert(tail.drop_first() =~= rest);
}

/// `if (c) t` and `if (c) t else f`: the condition, the branch taken when it
/// holds, and the branch taken otherwise, if there is an `else`.
pub proof fn law_if_statement(
    if_: SourceToken,
    open: SourceToken,
    c: Seq<SourceToken>,
    condition: Expression,
    close: SourceToken,
    body: Seq<SourceToken>,
    then_branch: StatementModel,
    after: Seq<SourceToken>,
)
    requires
        if_.kind is If,
        open.kind is LParen,
        close.kind is RParen,
        spec_expression(c + seq![close] + body, 0) == (
            Ok::<Expression, ParsingError>(condition),
            seq![close] + body,
        ),
        spec_statement(body) == (Ok::<StatementModel, ParsingError>(then_branch), after),
    ensures
        !(after.len() > 0 && after[0].kind is Else) ==> spec_statement(
            seq![if_, open] + c + seq![close] + body,
        ) == (
            Ok::<StatementModel, ParsingError>(
                StatementModel::If(condition, Box::new(then_branch), None),
            ),
            after,
        ),
        after.len() > 0 && after[0].kind is Else && spec_statement(after.drop_first()).0 is Ok
            ==> spec_statement(seq![if_, open] + c + seq![close] + body) == (
            Ok::<StatementModel, ParsingError>(
                StatementModel::If(
                    condition,
                    Box::new(then_branch),
                    Some(Box::new(spec_statement(after.drop_first()).0->Ok_0)),
                ),
            ),
            spec_statement(after.drop_first()).1,
        ),
{
    let s = seq![if_, open] + c + seq![close] + body;
    let s1 = seq![open] + c + seq![close] + body;
    let inner = c + seq![close] + body;
    let tail = seq![close] + body;
    assert(s[0] == if_ && s1[0] == open && tail[0] == close);
    assert(s.drop_first() =~= s1);
    assert(s1.drop_first() =~= inner);
    assert(tail.drop_first() =~= body);
    lemma_expression_reads(inner, 0);
    lemma_statement_reads(body);
    if after.len() > 0 {
        lemma_statement_reads(after.drop_first());
    }
}

/// `while (c) b`: the condition and the body.
pub proof fn law_while_statement(
    while_: SourceToken,
    open: SourceToken,
    c: Seq<SourceToken>,
    condition: Expression,
    close: SourceToken,
    body: Seq<SourceToken>,
    b: StatementModel,
    after: Seq<SourceToken>,
)
    requires
        while_.kind is While,
        open.kind is LParen,
        close.kind is RParen,
        spec_expression(c + seq![close] + body, 0) == (
            Ok::<Expression, ParsingError>(condition),
            seq![close] + body,
        ),
        spec_statement(body) == (Ok::<StatementModel, ParsingError>(b), after),
    ensures
        spec_statement(seq![while_, open] + c + seq![close] + body) == (
            Ok::<StatementModel, ParsingError>(StatementModel::While(condition, Box::new(b))),
            after,
        ),
{
    let s = seq![while_, open] + c + seq![close] + body;
    let s1 = seq![open] + c + seq![close] + body;
    let inner = c + seq![close] + body;
    let tail = seq![close] + body;
    assert(s[0] == while_ && s1[0] == open && tail[0] == close);
    assert(s.drop_first() =~= s1);
    assert(s1.drop_first() =~= inner);
    assert(tail.drop_first() =~= body);
    lemma_expression_reads(inner, 0);
}

/// A token that cannot start an expression fails as an unexpected token,
/// naming the token and where it is.
pub proof fn law_unexpected_start(t: SourceToken, rest: Seq<SourceToken>)
    requires
        operand_of(t.kind) is None,
        !(t.kind is Minus || t.kind is Bang || t.kind is LParen),
    ensures
        spec_expression(seq![t] + rest, 0) == (
            Err::<Expression, ParsingError>(ParsingError::UnexpectedToken(t.kind, t.source)),
            rest,
        ),
{
    assert((seq![t] + rest)[0] == t);
    assert((seq![t] + rest).drop_first() =~= rest);
}

/// A parenthesis that is not closed after its expression fails at the
/// opening parenthesis.
pub proof fn law_unclosed_parenthesis(
    open: SourceToken,
    a: SourceToken,
    t: SourceToken,
    rest: Seq<SourceToken>,
)
    requires
        open.kind is LParen,
        operand_of(a.kind) is Some,
        t.kind is Semicolon || t.kind is EndOfFile,
    ensures
        spec_expression(seq![open, a, t] + rest, 0) == (
            Err::<Expression, ParsingError>(ParsingError::MissingClosingParentheses(open.source)),
            rest,
        ),
{
    let s0 = seq![open, a, t] + rest;
    let s1 = seq![a, t] + rest;
    let s2 = seq![t] + rest;
    assert(s0[0] == open && s1[0] == a && s2[0] == t);
    assert(s0.drop_first() =~= s1);
    assert(s1.drop_first() =~= s2);
    assert(s2.drop_first() =~= rest);
    lemma_operand_at_end(s1, 0);
}

/// An identifier that starts a statement must be followed by `=`; otherwise
/// the statement fails at the identifier.
pub proof fn law_assignment_needs_equal(
    id: SourceToken,
    t: SourceToken,
    semi: SourceToken,
    rest: Seq<SourceToken>,
)
    requires
        id.kind is Identifier,
        !(t.kind is Equal),
        semi.kind is Semicolon,
    ensures
        spec_statement(seq![id, t, semi] + rest) == (
            Err::<StatementModel, ParsingError>(ParsingError::Unknown(id.source)),
            rest,
        ),
{
    let s = seq![id, t, semi] + rest;
    let s1 = seq![t, semi] + rest;
    let s2 = seq![semi] + rest;
    assert(s[0] == id && s1[0] == t && s2[0] == semi);
    assert(s.drop_first() =~= s1);
    assert(s1.drop_first() =~= s2);
    assert(s2.drop_first() =~= rest);
}

/// A declaration needs a name after `let`; otherwise it fails at the token
/// found in its place.
pub proof fn law_declaration_needs_name(
    let_: SourceToken,
    t: SourceToken,
    semi: SourceToken,
    rest: Seq<SourceToken>,
)
    requires
        let_.kind is Let,
        !(t.kind is Identifier),
        semi.kind is Semicolon,
    ensures
        spec_statement(seq![let_, t, semi] + rest) == (
            Err::<StatementModel, ParsingError>(ParsingError::UnexpectedToken(t.kind, t.source)),
            rest,
        ),
{
    let s = seq![let_, t, semi] + rest;
    let s1 = seq![t, semi] + rest;
    let s2 = seq![semi] + rest;
    assert(s[0] == let_ && s1[0] == t && s2[0] == semi);
    assert(s.drop_first() =~= s1);
    assert(s1.drop_first() =~= s2);
    assert(s2.drop_first() =~= rest);
}

/// Tokens are equal when they are of the same kind and hold the same
/// identifier text or the same number bit pattern.
pub proof fn law_token_equality(a: Token, b: Token)
    ensures
        (a is Identifier && b is Identifier) ==> (same_token(a, b) <==> a->Identifier_0@
            == b->Identifier_0@),
        (a is Number && b is Number) ==> (same_token(a, b) <==> a->Number_0 == b->Number_0),
        !(a is Identifier && b is Identifier) && !(a is Number && b is Number) ==> (same_token(
            a,
            b,
        ) <==> a == b),
        same_token(a, b) ==> same_token(b, a),
{
}

} // verus!
