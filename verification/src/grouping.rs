//! How operators group: theorems about the grammar.

use vstd::prelude::*;
use crate::ast::{ExpressionView, IdentifierView};
use crate::grammar::{
    arguments_loop, boxed, done, infix_loop, is_binary, level, parse_call_arguments,
    parse_expression, parse_infix, parse_prefix, precedence_of, remaining, Precedence,
};
use crate::lexer::token_at;
use crate::text::decimal_i64;
use crate::token::{spelling, TokenType, TokenView};

verus! {

/// Whether a token is an expression by itself: a name, a boolean, or an
/// integer that fits.
pub open spec fn is_atom(t: TokenView) -> bool {
    t.kind == TokenType::Ident || t.kind == TokenType::True || t.kind == TokenType::False || (
    t.kind == TokenType::Int && decimal_i64(t.lexeme) is Some)
}

/// The expression that an atom is.
pub open spec fn atom(t: TokenView) -> ExpressionView {
    match t.kind {
        TokenType::Ident => ExpressionView::Identifier(
            IdentifierView { token: t, value: t.lexeme },
        ),
        TokenType::Int => ExpressionView::IntegerLiteral {
            token: t,
            value: decimal_i64(t.lexeme).unwrap(),
        },
        TokenType::True => ExpressionView::Bool { token: t, value: true },
        _ => ExpressionView::Bool { token: t, value: false },
    }
}

/// The binary operation of the operator token `op` on two expressions.
pub open spec fn binary(
    op: TokenView,
    left: ExpressionView,
    right: ExpressionView,
) -> ExpressionView {
    ExpressionView::Infix {
        token: op,
        operator: spelling(op.kind),
        left: Some(Box::new(left)),
        right: Some(Box::new(right)),
    }
}

/// The prefix operation of the operator token `op` on an expression.
pub open spec fn unary(op: TokenView, right: ExpressionView) -> ExpressionView {
    ExpressionView::Prefix { token: op, operator: spelling(op.kind), right: Some(Box::new(right)) }
}

/// Whether a token ends an expression that is parsed at the binding power
/// `prec`: a semicolon, or a token that binds no more strongly.
pub open spec fn stops(prec: Precedence, next: TokenView) -> bool {
    next.kind == TokenType::Semicolon || level(prec) >= level(precedence_of(next.kind))
}

/// An atom before a token that ends the expression is the whole expression.
pub proof fn lemma_atom(s: Seq<TokenView>, i: int, prec: Precedence, errors: Seq<Seq<char>>)
    requires
        is_atom(token_at(s, i)),
        stops(prec, token_at(s, i + 1)),
    ensures
        parse_expression(s, i, prec, errors) == done(atom(token_at(s, i)), 0, errors),
{
    assert(parse_prefix(s, i, errors) == done(atom(token_at(s, i)), 0, errors));
    assert(infix_loop(s, i, prec, atom(token_at(s, i)), errors) == done(
        atom(token_at(s, i)),
        0,
        errors,
    ));
}

/// A binary operator behind the expression `left`, whose last token is at
/// position `j`, takes the atom behind it as its right operand where the
/// token behind the atom binds no more strongly than the operator.
pub proof fn lemma_binary_step(
    s: Seq<TokenView>,
    j: int,
    left: ExpressionView,
    errors: Seq<Seq<char>>,
)
    requires
        is_binary(token_at(s, j + 1).kind),
        is_atom(token_at(s, j + 2)),
        stops(precedence_of(token_at(s, j + 1).kind), token_at(s, j + 3)),
    ensures
        parse_infix(s, j + 1, left, errors) == done(
            binary(token_at(s, j + 1), left, atom(token_at(s, j + 2))),
            1,
            errors,
        ),
{
    lemma_atom(s, j + 2, precedence_of(token_at(s, j + 1).kind), errors);
}

/// Operators of one binding power group to the left: `a + b - c` is
/// `(a + b) - c`, for atoms `a`, `b` and `c` and binary operators of equal
/// binding power, where no token that continues an expression follows.
pub proof fn lemma_left_associative(s: Seq<TokenView>, i: int, errors: Seq<Seq<char>>)
    requires
        is_atom(token_at(s, i)),
        is_binary(token_at(s, i + 1).kind),
        is_atom(token_at(s, i + 2)),
        is_binary(token_at(s, i + 3).kind),
        is_atom(token_at(s, i + 4)),
        precedence_of(token_at(s, i + 1).kind) == precedence_of(token_at(s, i + 3).kind),
        stops(Precedence::Lowest, token_at(s, i + 5)),
    ensures
        parse_expression(s, i, Precedence::Lowest, errors) == done(
            binary(
                token_at(s, i + 3),
                binary(token_at(s, i + 1), atom(token_at(s, i)), atom(token_at(s, i + 2))),
                atom(token_at(s, i + 4)),
            ),
            4,
            errors,
        ),
{
    let a = atom(token_at(s, i));
    let first = binary(token_at(s, i + 1), a, atom(token_at(s, i + 2)));
    let whole = binary(token_at(s, i + 3), first, atom(token_at(s, i + 4)));
    assert(parse_prefix(s, i, errors) == done(a, 0, errors));
    lemma_binary_step(s, i, a, errors);
    lemma_binary_step(s, i + 2, first, errors);
    assert(infix_loop(s, i + 4, Precedence::Lowest, whole, errors) == done(whole, 0, errors));
    assert(infix_loop(s, i + 2, Precedence::Lowest, first, errors) == done(whole, 2, errors));
    assert(infix_loop(s, i, Precedence::Lowest, a, errors) == done(whole, 4, errors));
}

/// A stronger operator behind a weaker one takes the operand between them:
/// `a + b * c` is `a + (b * c)`, for atoms `a`, `b` and `c`, where no token
/// that continues an expression follows.
pub proof fn lemma_stronger_operator_binds_first(
    s: Seq<TokenView>,
    i: int,
    errors: Seq<Seq<char>>,
)
    requires
        is_atom(token_at(s, i)),
        is_binary(token_at(s, i + 1).kind),
        is_atom(token_at(s, i + 2)),
        is_binary(token_at(s, i + 3).kind),
        is_atom(token_at(s, i + 4)),
        level(precedence_of(token_at(s, i + 1).kind)) < level(
            precedence_of(token_at(s, i + 3).kind),
        ),
        stops(Precedence::Lowest, token_at(s, i + 5)),
    ensures
        parse_expression(s, i, Precedence::Lowest, errors) == done(
            binary(
                token_at(s, i + 1),
                atom(token_at(s, i)),
                binary(token_at(s, i + 3), atom(token_at(s, i + 2)), atom(token_at(s, i + 4))),
            ),
            4,
            errors,
        ),
{
    let a = atom(token_at(s, i));
    let b = atom(token_at(s, i + 2));
    let weak = precedence_of(token_at(s, i + 1).kind);
    let second = binary(token_at(s, i + 3), b, atom(token_at(s, i + 4)));
    let whole = binary(token_at(s, i + 1), a, second);
    assert(parse_prefix(s, i, errors) == done(a, 0, errors));
    assert(parse_prefix(s, i + 2, errors) == done(b, 0, errors));
    lemma_binary_step(s, i + 2, b, errors);
    assert(infix_loop(s, i + 4, weak, second, errors) == done(second, 0, errors));
    assert(infix_loop(s, i + 2, weak, b, errors) == done(second, 2, errors));
    assert(parse_expression(s, i + 2, weak, errors) == done(second, 2, errors));
    assert(parse_infix(s, i + 1, a, errors) == done(whole, 3, errors));
    assert(infix_loop(s, i + 4, Precedence::Lowest, whole, errors) == done(whole, 0, errors));
    assert(infix_loop(s, i, Precedence::Lowest, a, errors) == done(whole, 4, errors));
}

/// A prefix operator binds more strongly than any binary operator: `-a * b`
/// is `(-a) * b`, for atoms `a` and `b`, where no token that continues an
/// expression follows.
pub proof fn lemma_prefix_binds_before_binary(s: Seq<TokenView>, i: int, errors: Seq<Seq<char>>)
    requires
        token_at(s, i).kind == TokenType::Bang || token_at(s, i).kind == TokenType::Minus,
        is_atom(token_at(s, i + 1)),
        is_binary(token_at(s, i + 2).kind),
        is_atom(token_at(s, i + 3)),
        stops(Precedence::Lowest, token_at(s, i + 4)),
    ensures
        parse_expression(s, i, Precedence::Lowest, errors) == done(
            binary(
                token_at(s, i + 2),
                unary(token_at(s, i), atom(token_at(s, i + 1))),
                atom(token_at(s, i + 3)),
            ),
            3,
            errors,
        ),
{
    let operand = atom(token_at(s, i + 1));
    let negated = unary(token_at(s, i), operand);
    let whole = binary(token_at(s, i + 2), negated, atom(token_at(s, i + 3)));
    lemma_atom(s, i + 1, Precedence::Prefix, errors);
    assert(parse_prefix(s, i, errors) == done(negated, 1, errors));
    lemma_binary_step(s, i + 1, negated, errors);
    assert(infix_loop(s, i + 3, Precedence::Lowest, whole, errors) == done(whole, 0, errors));
    assert(infix_loop(s, i + 1, Precedence::Lowest, negated, errors) == done(whole, 2, errors));
}

/// The call of the expression `function` with the one argument `argument`,
/// where `paren` is the opening parenthesis.
pub open spec fn call_of(
    paren: TokenView,
    function: ExpressionView,
    argument: ExpressionView,
) -> ExpressionView {
    ExpressionView::Call {
        token: paren,
        function: Some(Box::new(function)),
        arguments: Some(seq![argument]),
    }
}

/// A call binds more strongly than a prefix operator: `!f(x)` is `!(f(x))`,
/// for atoms `f` and `x`, where no token that continues an expression
/// follows.
pub proof fn lemma_call_binds_before_prefix(s: Seq<TokenView>, i: int, errors: Seq<Seq<char>>)
    requires
        token_at(s, i).kind == TokenType::Bang || token_at(s, i).kind == TokenType::Minus,
        is_atom(token_at(s, i + 1)),
        token_at(s, i + 2).kind == TokenType::LParen,
        is_atom(token_at(s, i + 3)),
        token_at(s, i + 4).kind == TokenType::RParen,
        stops(Precedence::Lowest, token_at(s, i + 5)),
    ensures
        parse_expression(s, i, Precedence::Lowest, errors) == done(
            unary(
                token_at(s, i),
                call_of(token_at(s, i + 2), atom(token_at(s, i + 1)), atom(token_at(s, i + 3))),
            ),
            4,
            errors,
        ),
{
    let f = atom(token_at(s, i + 1));
    let x = atom(token_at(s, i + 3));
    let call = call_of(token_at(s, i + 2), f, x);
    let whole = unary(token_at(s, i), call);
    lemma_atom(s, i + 3, Precedence::Lowest, errors);
    assert(arguments_loop(s, i + 3, seq![x], errors) == done(seq![x], 1, errors));
    assert(parse_call_arguments(s, i + 2, errors) == done(seq![x], 2, errors));
    assert(parse_infix(s, i + 2, f, errors) == done(call, 2, errors));
    assert(parse_prefix(s, i + 1, errors) == done(f, 0, errors));
    assert(infix_loop(s, i + 4, Precedence::Prefix, call, errors) == done(call, 0, errors));
    assert(infix_loop(s, i + 1, Precedence::Prefix, f, errors) == done(call, 3, errors));
    assert(parse_expression(s, i + 1, Precedence::Prefix, errors) == done(call, 3, errors));
    assert(parse_prefix(s, i, errors) == done(whole, 4, errors));
    assert(infix_loop(s, i + 4, Precedence::Lowest, whole, errors) == done(whole, 0, errors));
}

/// Whether an expression is an operation that binds more strongly than
/// `prec`: a binary operation whose operator does, or a call.
pub open spec fn binds_above(e: ExpressionView, prec: Precedence) -> bool {
    match e {
        ExpressionView::Infix { token, .. } => is_binary(token.kind) && level(prec) < level(
            precedence_of(token.kind),
        ),
        ExpressionView::Call { .. } => level(prec) < level(Precedence::Call),
        _ => false,
    }
}

/// What continues an expression at the binding power `prec` leaves the
/// expression as it is or makes an operation of it that binds more strongly
/// than `prec`.
pub proof fn lemma_continuation_binds_above(
    s: Seq<TokenView>,
    j: int,
    prec: Precedence,
    left: ExpressionView,
    errors: Seq<Seq<char>>,
)
    ensures
        match infix_loop(s, j, prec, left, errors).node {
            Some(e) => e == left || binds_above(e, prec),
            None => true,
        },
    decreases remaining(s, j),
{
    let peek = token_at(s, j + 1);
    if peek.kind != TokenType::Semicolon && level(prec) < level(precedence_of(peek.kind)) {
        let step = parse_infix(s, j + 1, left, errors);
        match step.node {
            Some(e) => {
                lemma_continuation_binds_above(s, j + 1 + step.used, prec, e, step.errors);
            },
            None => {},
        }
    }
}

/// An expression parsed at the binding power `prec` is what starts it, or
/// an operation that binds more strongly than `prec`.
pub proof fn lemma_expression_binds_above(
    s: Seq<TokenView>,
    i: int,
    prec: Precedence,
    errors: Seq<Seq<char>>,
)
    ensures
        match parse_expression(s, i, prec, errors).node {
            Some(e) => Some(e) == parse_prefix(s, i, errors).node || binds_above(e, prec),
            None => true,
        },
{
    let first = parse_prefix(s, i, errors);
    match first.node {
        Some(left) => {
            lemma_continuation_binds_above(s, i + first.used, prec, left, first.errors);
        },
        None => {},
    }
}

/// A binary operator makes of the expression before it the operation on
/// that expression and on what is parsed behind the operator at the
/// operator's own binding power. The right operand is therefore what starts
/// an expression there, or an operation that binds more strongly than the
/// operator: never a bare operation of the same or a weaker binding power,
/// so that operators of one binding power group to the left.
pub proof fn lemma_operator_takes_stronger_right_operand(
    s: Seq<TokenView>,
    k: int,
    left: ExpressionView,
    errors: Seq<Seq<char>>,
)
    requires
        is_binary(token_at(s, k).kind),
    ensures
        parse_infix(s, k, left, errors).node == Some(
            ExpressionView::Infix {
                token: token_at(s, k),
                operator: spelling(token_at(s, k).kind),
                left: Some(Box::new(left)),
                right: boxed(
                    parse_expression(s, k + 1, precedence_of(token_at(s, k).kind), errors).node,
                ),
            },
        ),
        match parse_expression(s, k + 1, precedence_of(token_at(s, k).kind), errors).node {
            Some(right) => Some(right) == parse_prefix(s, k + 1, errors).node || binds_above(
                right,
                precedence_of(token_at(s, k).kind),
            ),
            None => true,
        },
{
    lemma_expression_binds_above(s, k + 1, precedence_of(token_at(s, k).kind), errors);
}

} // verus!
