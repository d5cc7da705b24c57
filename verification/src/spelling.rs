//! Programs as they are spelled, and the theorem that a program parses
//! without error to the tree that its tokens spell.
//!
//! In a spelling, an operand stands in parentheses where it binds too
//! weakly to stand bare, and may stand in parentheses anywhere. A statement
//! ends with a semicolon, which an expression statement may go without
//! before a token that does not continue the expression, and a `let` or a
//! `return` at the end of input.

use vstd::prelude::*;
use crate::ast::{BlockView, ExpressionView, IdentifierView, StatementView};
use crate::derivation::{
    arguments_are, arguments_continue, block_continues, block_is, lemma_atom_starts, lemma_block,
    lemma_block_end, lemma_block_statement, lemma_conditional, lemma_expression_statement,
    lemma_first_argument, lemma_first_parameter, lemma_function_literal, lemma_group,
    lemma_last_argument, lemma_last_parameter, lemma_let_statement, lemma_next_argument,
    lemma_next_parameter, lemma_no_arguments, lemma_no_parameters, lemma_one_block,
    lemma_open_expression_statement, lemma_prefix_operation, lemma_program_end,
    lemma_program_statement, lemma_reads_binary, lemma_reads_call, lemma_reads_start,
    lemma_reads_whole, lemma_return_nothing, lemma_return_statement, lemma_two_blocks,
    parameters_are, parameters_continue, parses_to, program_continues, reads, statement_is,
};
use crate::grammar::{
    identifier_at, is_binary, level, parse_program, precedence_of, remaining, starts_expression,
    Precedence,
};
use crate::grouping::stops;
use crate::lexer::token_at;
use crate::text::decimal_i64;
use crate::token::{bare, spelling, TokenType, TokenView};

verus! {

/// Whether a token spells an identifier node.
pub open spec fn spells_identifier(t: TokenView, n: IdentifierView) -> bool {
    t == n.token && t.kind == TokenType::Ident && n.value == t.lexeme
}

/// Whether a token spells a name or a literal.
pub open spec fn spells_atom(t: TokenView, e: ExpressionView) -> bool {
    match e {
        ExpressionView::Identifier(n) => spells_identifier(t, n),
        ExpressionView::IntegerLiteral { token, value } => t == token && t.kind == TokenType::Int
            && decimal_i64(t.lexeme) == Some(value),
        ExpressionView::Bool { token, value } => t == token && (if value {
            t.kind == TokenType::True
        } else {
            t.kind == TokenType::False
        }),
        _ => false,
    }
}

/// How strongly an expression holds together when it stands bare: a binary
/// operation as strongly as its operator binds, a call as strongly as calls
/// bind, and everything else more strongly than any operator.
pub open spec fn strength(e: ExpressionView) -> nat {
    match e {
        ExpressionView::Infix { token, .. } => level(precedence_of(token.kind)),
        ExpressionView::Call { .. } => level(Precedence::Call),
        _ => level(Precedence::Call) + 1,
    }
}

/// The position behind the spelling of an expression that starts at
/// position `i` and has to hold together with the strength `need` at
/// least: the expression bare, if it is strong enough and spelled so, else
/// between parentheses.
pub open spec fn spells(s: Seq<TokenView>, i: int, e: ExpressionView, need: nat) -> Option<int>
    decreases e, 1 + remaining(s, i),
{
    let open = if strength(e) >= need {
        spells_bare(s, i, e)
    } else {
        None
    };
    if open is Some {
        open
    } else if token_at(s, i).kind == TokenType::LParen {
        match spells(s, i + 1, e, 1) {
            Some(j) => if token_at(s, j).kind == TokenType::RParen {
                Some(j + 1)
            } else {
                None
            },
            None => None,
        }
    } else {
        None
    }
}

/// The position behind the bare spelling of an expression that starts at
/// position `i`. The operand of a prefix operator holds together more
/// strongly than prefix operators bind, the left operand of a binary
/// operator as strongly as the operator binds, its right operand more
/// strongly, and a callee as strongly as calls bind; and behind an operation
/// stands no token that would continue its last operand.
pub open spec fn spells_bare(s: Seq<TokenView>, i: int, e: ExpressionView) -> Option<int>
    decreases e, 0nat,
{
    match e {
        ExpressionView::Prefix { token, operator, right: Some(operand) } => {
            if token_at(s, i) == token && (token.kind == TokenType::Bang || token.kind
                == TokenType::Minus) && operator == spelling(token.kind) {
                match spells(s, i + 1, *operand, level(Precedence::Prefix) + 1) {
                    Some(j) => if stops(Precedence::Prefix, token_at(s, j)) {
                        Some(j)
                    } else {
                        None
                    },
                    None => None,
                }
            } else {
                None
            }
        },
        ExpressionView::Infix { token, operator, left: Some(first), right: Some(second) } => {
            match spells(s, i, *first, level(precedence_of(token.kind))) {
                Some(a) => if token_at(s, a) == token && is_binary(token.kind) && operator
                    == spelling(token.kind) {
                    match spells(s, a + 1, *second, level(precedence_of(token.kind)) + 1) {
                        Some(j) => if stops(precedence_of(token.kind), token_at(s, j)) {
                            Some(j)
                        } else {
                            None
                        },
                        None => None,
                    }
                } else {
                    None
                },
                None => None,
            }
        },
        ExpressionView::If { token, condition: Some(test), first: Some(then), second } => {
            if token_at(s, i) == token && token.kind == TokenType::If && token_at(s, i + 1).kind
                == TokenType::LParen {
                match spells(s, i + 2, *test, 1) {
                    Some(j) => if token_at(s, j).kind == TokenType::RParen {
                        match spells_block(s, j + 1, then) {
                            Some(k) => match second {
                                Some(otherwise) => if token_at(s, k).kind == TokenType::Else {
                                    spells_block(s, k + 1, otherwise)
                                } else {
                                    None
                                },
                                None => if token_at(s, k).kind != TokenType::Else {
                                    Some(k)
                                } else {
                                    None
                                },
                            },
                            None => None,
                        }
                    } else {
                        None
                    },
                    None => None,
                }
            } else {
                None
            }
        },
        ExpressionView::FunctionLiteral { token, parameters: Some(names), body: Some(block) } => {
            if token_at(s, i) == token && token.kind == TokenType::Function && token_at(
                s,
                i + 1,
            ).kind == TokenType::LParen {
                match spells_parameters(s, i + 2, names) {
                    Some(j) => spells_block(s, j, block),
                    None => None,
                }
            } else {
                None
            }
        },
        ExpressionView::Call { token, function: Some(callee), arguments: Some(list) } => {
            match spells(s, i, *callee, level(Precedence::Call)) {
                Some(a) => if token_at(s, a) == token && token.kind == TokenType::LParen {
                    spells_arguments(s, a, list)
                } else {
                    None
                },
                None => None,
            }
        },
        _ => if spells_atom(token_at(s, i), e) {
            Some(i + 1)
        } else {
            None
        },
    }
}

/// The position behind the closing parenthesis of the argument list whose
/// opening parenthesis is at position `a`.
pub open spec fn spells_arguments(s: Seq<TokenView>, a: int, list: Seq<ExpressionView>) -> Option<
    int,
>
    decreases list, list.len() + 1,
{
    if list.len() == 0 {
        if token_at(s, a + 1).kind == TokenType::RParen {
            Some(a + 2)
        } else {
            None
        }
    } else {
        match spells(s, a + 1, list[0], 1) {
            Some(first) => spells_more_arguments(s, first, list, 1),
            None => None,
        }
    }
}

/// The position behind the closing parenthesis of an argument list, where
/// position `q` is behind the argument with index `n - 1`: a comma and an
/// argument for each argument that is left, and the closing parenthesis.
pub open spec fn spells_more_arguments(
    s: Seq<TokenView>,
    q: int,
    list: Seq<ExpressionView>,
    n: nat,
) -> Option<int>
    decreases list, list.len() - n,
{
    if n >= list.len() {
        if token_at(s, q).kind == TokenType::RParen {
            Some(q + 1)
        } else {
            None
        }
    } else if token_at(s, q).kind == TokenType::Comma {
        match spells(s, q + 1, list[n as int], 1) {
            Some(j) => spells_more_arguments(s, j, list, n + 1),
            None => None,
        }
    } else {
        None
    }
}

/// The position behind the closing parenthesis of a parameter list, where
/// position `q` is behind the parameter with index `n - 1`.
pub open spec fn spells_more_parameters(
    s: Seq<TokenView>,
    q: int,
    names: Seq<IdentifierView>,
    n: nat,
) -> Option<int>
    decreases names.len() - n,
{
    if n >= names.len() {
        if token_at(s, q).kind == TokenType::RParen {
            Some(q + 1)
        } else {
            None
        }
    } else if token_at(s, q).kind == TokenType::Comma && spells_identifier(
        token_at(s, q + 1),
        names[n as int],
    ) {
        spells_more_parameters(s, q + 2, names, n + 1)
    } else {
        None
    }
}

/// The position behind the closing parenthesis of a parameter list whose
/// first parameter, if it has one, is at position `i`.
pub open spec fn spells_parameters(s: Seq<TokenView>, i: int, names: Seq<IdentifierView>) -> Option<
    int,
> {
    if names.len() == 0 {
        if token_at(s, i).kind == TokenType::RParen {
            Some(i + 1)
        } else {
            None
        }
    } else if spells_identifier(token_at(s, i), names[0]) {
        spells_more_parameters(s, i + 1, names, 1)
    } else {
        None
    }
}

/// The position behind the closing brace of a block whose opening brace is
/// at position `i`.
pub open spec fn spells_block(s: Seq<TokenView>, i: int, b: BlockView) -> Option<int>
    decreases b, 0nat,
{
    if token_at(s, i) == b.token && b.token.kind == TokenType::LBrace {
        match spells_statements(s, i + 1, b.statements, 0) {
            Some(k) => if token_at(s, k).kind == TokenType::RBrace {
                Some(k + 1)
            } else {
                None
            },
            None => None,
        }
    } else {
        None
    }
}

/// The position behind the statements of `list` from index `n` on, the
/// first of which starts at position `i`.
pub open spec fn spells_statements(
    s: Seq<TokenView>,
    i: int,
    list: Seq<StatementView>,
    n: nat,
) -> Option<int>
    decreases list, list.len() - n,
{
    if n >= list.len() {
        Some(i)
    } else {
        match spells_statement(s, i, list[n as int]) {
            Some(j) => spells_statements(s, j, list, n + 1),
            None => None,
        }
    }
}

/// Whether a token of this category ends a `let` or a `return`: a semicolon,
/// or the end of input.
pub open spec fn ends_statement(kind: TokenType) -> bool {
    kind == TokenType::Semicolon || kind == TokenType::Eof
}

/// The position behind a statement that starts at position `i`. The
/// statement ends with a semicolon. A `let` or a `return` may go without
/// one at the end of input, which then counts as its last token; an
/// expression statement may go without one before a token that does not
/// continue the expression.
pub open spec fn spells_statement(s: Seq<TokenView>, i: int, st: StatementView) -> Option<int>
    decreases st, 0nat,
{
    match st {
        StatementView::Let { token, name, value: Some(e) } => {
            if token == bare(TokenType::Let) && token_at(s, i).kind == TokenType::Let
                && spells_identifier(token_at(s, i + 1), name) && token_at(s, i + 2).kind
                == TokenType::Assign {
                match spells(s, i + 3, e, 1) {
                    Some(j) => if ends_statement(token_at(s, j).kind) {
                        Some(j + 1)
                    } else {
                        None
                    },
                    None => None,
                }
            } else {
                None
            }
        },
        StatementView::Return { token, return_value } => {
            if token == bare(TokenType::Return) && token_at(s, i).kind == TokenType::Return {
                match return_value {
                    Some(e) => match spells(s, i + 1, e, 1) {
                        Some(j) => if ends_statement(token_at(s, j).kind) {
                            Some(j + 1)
                        } else {
                            None
                        },
                        None => None,
                    },
                    None => if token_at(s, i + 1).kind == TokenType::Semicolon {
                        Some(i + 2)
                    } else if token_at(s, i + 1).kind == TokenType::Eof {
                        Some(i + 3)
                    } else {
                        None
                    },
                }
            } else {
                None
            }
        },
        StatementView::Expression { token, expression: Some(e) } => {
            if token == token_at(s, i) {
                match spells(s, i, e, 1) {
                    Some(j) => if token_at(s, j).kind == TokenType::Semicolon {
                        Some(j + 1)
                    } else if stops(Precedence::Lowest, token_at(s, j)) {
                        Some(j)
                    } else {
                        None
                    },
                    None => None,
                }
            } else {
                None
            }
        },
        _ => None,
    }
}

/// Whether the tokens from position `i` to the end of input spell the
/// statements of `list`.
pub open spec fn spells_program(s: Seq<TokenView>, i: int, list: Seq<StatementView>) -> bool {
    match spells_statements(s, i, list, 0) {
        Some(j) => token_at(s, j).kind == TokenType::Eof,
        None => false,
    }
}

/// Whether a token of this kind can end an expression.
pub open spec fn ends_expression(kind: TokenType) -> bool {
    kind == TokenType::Ident || kind == TokenType::Int || kind == TokenType::True || kind
        == TokenType::False || kind == TokenType::RParen || kind == TokenType::RBrace
}

/// The spelling of an expression is not empty, starts with a token that
/// starts expressions and ends with one that ends them.
pub proof fn lemma_shape(s: Seq<TokenView>, i: int, e: ExpressionView, need: nat)
    requires
        spells(s, i, e, need) is Some,
    ensures
        spells(s, i, e, need).unwrap() > i,
        starts_expression(token_at(s, i).kind),
        ends_expression(token_at(s, spells(s, i, e, need).unwrap() - 1).kind),
    decreases e, 1 + remaining(s, i),
{
    if strength(e) >= need && spells_bare(s, i, e) is Some {
        lemma_bare_shape(s, i, e);
    } else {
        lemma_shape(s, i + 1, e, 1);
    }
}

/// The bare spelling of an expression is not empty, starts with a token
/// that starts expressions and ends with one that ends them.
pub proof fn lemma_bare_shape(s: Seq<TokenView>, i: int, e: ExpressionView)
    requires
        spells_bare(s, i, e) is Some,
    ensures
        spells_bare(s, i, e).unwrap() > i,
        starts_expression(token_at(s, i).kind),
        ends_expression(token_at(s, spells_bare(s, i, e).unwrap() - 1).kind),
    decreases e, 0nat,
{
    match e {
        ExpressionView::Prefix { right: Some(operand), .. } => {
            lemma_shape(s, i + 1, *operand, level(Precedence::Prefix) + 1);
        },
        ExpressionView::Infix { token, left: Some(first), right: Some(second), .. } => {
            let lvl = level(precedence_of(token.kind));
            lemma_shape(s, i, *first, lvl);
            lemma_shape(s, spells(s, i, *first, lvl).unwrap() + 1, *second, lvl + 1);
        },
        ExpressionView::If { condition: Some(test), first: Some(then), second, .. } => {
            lemma_shape(s, i + 2, *test, 1);
            let j = spells(s, i + 2, *test, 1).unwrap();
            lemma_block_shape(s, j + 1, then);
            let k = spells_block(s, j + 1, then).unwrap();
            match second {
                Some(otherwise) => {
                    lemma_block_shape(s, k + 1, otherwise);
                },
                None => {},
            }
        },
        ExpressionView::FunctionLiteral { parameters: Some(names), body: Some(block), .. } => {
            lemma_parameters_shape(s, i + 2, names);
            lemma_block_shape(s, spells_parameters(s, i + 2, names).unwrap(), block);
        },
        ExpressionView::Call { function: Some(callee), arguments: Some(list), .. } => {
            lemma_shape(s, i, *callee, level(Precedence::Call));
            let a = spells(s, i, *callee, level(Precedence::Call)).unwrap();
            lemma_arguments_shape(s, a, list);
        },
        _ => {},
    }
}

/// An argument list ends with its closing parenthesis, behind its opening
/// one.
pub proof fn lemma_arguments_shape(s: Seq<TokenView>, a: int, list: Seq<ExpressionView>)
    requires
        spells_arguments(s, a, list) is Some,
    ensures
        spells_arguments(s, a, list).unwrap() > a + 1,
        token_at(s, spells_arguments(s, a, list).unwrap() - 1).kind == TokenType::RParen,
    decreases list, list.len() + 1,
{
    if list.len() > 0 {
        lemma_shape(s, a + 1, list[0], 1);
        lemma_more_arguments_shape(s, spells(s, a + 1, list[0], 1).unwrap(), list, 1);
    }
}

/// An argument list ends with its closing parenthesis, which does not come
/// before the position where the rest of the list starts.
pub proof fn lemma_more_arguments_shape(
    s: Seq<TokenView>,
    q: int,
    list: Seq<ExpressionView>,
    n: nat,
)
    requires
        spells_more_arguments(s, q, list, n) is Some,
    ensures
        spells_more_arguments(s, q, list, n).unwrap() > q,
        token_at(s, spells_more_arguments(s, q, list, n).unwrap() - 1).kind == TokenType::RParen,
        token_at(s, q).kind == TokenType::RParen || token_at(s, q).kind == TokenType::Comma,
    decreases list, list.len() - n,
{
    if n < list.len() {
        lemma_shape(s, q + 1, list[n as int], 1);
        let j = spells(s, q + 1, list[n as int], 1).unwrap();
        lemma_more_arguments_shape(s, j, list, n + 1);
    }
}

/// A parameter list ends behind the position where it starts.
pub proof fn lemma_more_parameters_shape(
    s: Seq<TokenView>,
    q: int,
    names: Seq<IdentifierView>,
    n: nat,
)
    requires
        spells_more_parameters(s, q, names, n) is Some,
    ensures
        spells_more_parameters(s, q, names, n).unwrap() > q,
    decreases names.len() - n,
{
    if n < names.len() {
        lemma_more_parameters_shape(s, q + 2, names, n + 1);
    }
}

/// A parameter list ends behind the position where it starts.
pub proof fn lemma_parameters_shape(s: Seq<TokenView>, i: int, names: Seq<IdentifierView>)
    requires
        spells_parameters(s, i, names) is Some,
    ensures
        spells_parameters(s, i, names).unwrap() > i,
{
    if names.len() > 0 {
        lemma_more_parameters_shape(s, i + 1, names, 1);
    }
}

/// The spelling of a block takes two tokens at least and ends with the
/// closing brace.
pub proof fn lemma_block_shape(s: Seq<TokenView>, i: int, b: BlockView)
    requires
        spells_block(s, i, b) is Some,
    ensures
        spells_block(s, i, b).unwrap() > i + 1,
        token_at(s, spells_block(s, i, b).unwrap() - 1).kind == TokenType::RBrace,
    decreases b, 0nat,
{
    lemma_statements_shape(s, i + 1, b.statements, 0);
}

/// Statements end at or behind the position where they start.
pub proof fn lemma_statements_shape(s: Seq<TokenView>, i: int, list: Seq<StatementView>, n: nat)
    requires
        spells_statements(s, i, list, n) is Some,
    ensures
        spells_statements(s, i, list, n).unwrap() >= i,
    decreases list, list.len() - n,
{
    if n < list.len() {
        lemma_statement_shape(s, i, list[n as int]);
        lemma_statements_shape(s, spells_statement(s, i, list[n as int]).unwrap(), list, n + 1);
    }
}

/// The spelling of a `let` statement is not empty and starts with `let`.
pub proof fn lemma_let_shape(s: Seq<TokenView>, i: int, st: StatementView)
    requires
        st is Let,
        spells_statement(s, i, st) is Some,
    ensures
        spells_statement(s, i, st).unwrap() > i,
        token_at(s, i).kind == TokenType::Let,
    decreases st, 0nat,
{
    match st {
        StatementView::Let { value: Some(e), .. } => {
            lemma_shape(s, i + 3, e, 1);
        },
        _ => {},
    }
}

/// The spelling of a `return` statement is not empty and starts with
/// `return`.
pub proof fn lemma_return_shape(s: Seq<TokenView>, i: int, st: StatementView)
    requires
        st is Return,
        spells_statement(s, i, st) is Some,
    ensures
        spells_statement(s, i, st).unwrap() > i,
        token_at(s, i).kind == TokenType::Return,
    decreases st, 0nat,
{
    match st {
        StatementView::Return { return_value: Some(e), .. } => {
            lemma_shape(s, i + 1, e, 1);
        },
        _ => {},
    }
}

/// The spelling of an expression statement is not empty and starts as an
/// expression starts.
pub proof fn lemma_expression_statement_shape(s: Seq<TokenView>, i: int, st: StatementView)
    requires
        st is Expression,
        spells_statement(s, i, st) is Some,
    ensures
        spells_statement(s, i, st).unwrap() > i,
        starts_expression(token_at(s, i).kind),
    decreases st, 0nat,
{
    match st {
        StatementView::Expression { expression: Some(e), .. } => {
            lemma_shape(s, i, e, 1);
        },
        _ => {},
    }
}

/// The spelling of a statement is not empty, and starts with `let`, with
/// `return` or as an expression starts.
pub proof fn lemma_statement_shape(s: Seq<TokenView>, i: int, st: StatementView)
    requires
        spells_statement(s, i, st) is Some,
    ensures
        spells_statement(s, i, st).unwrap() > i,
        st is Let ==> token_at(s, i).kind == TokenType::Let,
        st is Return ==> token_at(s, i).kind == TokenType::Return,
        st is Expression ==> starts_expression(token_at(s, i).kind),
    decreases st, 1nat,
{
    if st is Let {
        lemma_let_shape(s, i, st);
    } else if st is Return {
        lemma_return_shape(s, i, st);
    } else {
        lemma_expression_statement_shape(s, i, st);
    }
}

/// Parsing at a binding power below the strength that a spelling has reads
/// the expression that is spelled, and goes on from there.
pub proof fn lemma_reads(
    s: Seq<TokenView>,
    i: int,
    e: ExpressionView,
    need: nat,
    prec: Precedence,
    errors: Seq<Seq<char>>,
)
    requires
        spells(s, i, e, need) is Some,
        level(prec) < need,
    ensures
        reads(s, i, prec, e, (spells(s, i, e, need).unwrap() - 1 - i) as nat, errors),
    decreases e, 2 * remaining(s, i) + 2,
{
    lemma_shape(s, i, e, need);
    if strength(e) >= need && spells_bare(s, i, e) is Some {
        lemma_bare_reads(s, i, e, prec, errors);
    } else {
        let j = spells(s, i + 1, e, 1).unwrap();
        lemma_shape(s, i + 1, e, 1);
        lemma_parses(s, i + 1, e, 1, Precedence::Lowest, errors);
        lemma_group(s, i, e, (j - 2 - i) as nat, errors);
        lemma_reads_start(s, i, prec, e, (j - i) as nat, errors);
    }
}

/// An expression that is spelled, before a token that ends the expression,
/// parses to the expression, without error.
pub proof fn lemma_parses(
    s: Seq<TokenView>,
    i: int,
    e: ExpressionView,
    need: nat,
    prec: Precedence,
    errors: Seq<Seq<char>>,
)
    requires
        spells(s, i, e, need) is Some,
        level(prec) < need,
        stops(prec, token_at(s, spells(s, i, e, need).unwrap())),
    ensures
        parses_to(s, i, prec, e, (spells(s, i, e, need).unwrap() - 1 - i) as nat, errors),
    decreases e, 2 * remaining(s, i) + 3,
{
    lemma_shape(s, i, e, need);
    lemma_reads(s, i, e, need, prec, errors);
    lemma_reads_whole(s, i, prec, e, (spells(s, i, e, need).unwrap() - 1 - i) as nat, errors);
}

/// Parsing at a binding power below the strength of an expression reads
/// the expression in its bare spelling, and goes on from there.
pub proof fn lemma_bare_reads(
    s: Seq<TokenView>,
    i: int,
    e: ExpressionView,
    prec: Precedence,
    errors: Seq<Seq<char>>,
)
    requires
        spells_bare(s, i, e) is Some,
        level(prec) < strength(e),
    ensures
        reads(s, i, prec, e, (spells_bare(s, i, e).unwrap() - 1 - i) as nat, errors),
    decreases e, 1nat,
{
    if e is Prefix {
        lemma_prefix_reads(s, i, e, prec, errors);
    } else if e is Infix {
        lemma_infix_reads(s, i, e, prec, errors);
    } else if e is If {
        lemma_if_reads(s, i, e, prec, errors);
    } else if e is FunctionLiteral {
        lemma_function_reads(s, i, e, prec, errors);
    } else if e is Call {
        lemma_call_reads(s, i, e, prec, errors);
    } else {
        lemma_atom_starts(s, i, errors);
        lemma_reads_start(s, i, prec, e, 0, errors);
    }
}

/// Parsing reads a prefix operation in its bare spelling.
pub proof fn lemma_prefix_reads(
    s: Seq<TokenView>,
    i: int,
    e: ExpressionView,
    prec: Precedence,
    errors: Seq<Seq<char>>,
)
    requires
        e is Prefix,
        spells_bare(s, i, e) is Some,
    ensures
        reads(s, i, prec, e, (spells_bare(s, i, e).unwrap() - 1 - i) as nat, errors),
    decreases e, 0nat,
{
    let end = spells_bare(s, i, e).unwrap();
    match e {
        ExpressionView::Prefix { token, operator, right: Some(operand) } => {
            let need = level(Precedence::Prefix) + 1;
            lemma_shape(s, i + 1, *operand, need);
            lemma_parses(s, i + 1, *operand, need, Precedence::Prefix, errors);
            lemma_prefix_operation(s, i, *operand, (end - 2 - i) as nat, errors);
            lemma_reads_start(s, i, prec, e, (end - 1 - i) as nat, errors);
        },
        _ => {},
    }
}

/// Parsing at a binding power below that of the operator reads a binary
/// operation in its bare spelling.
pub proof fn lemma_infix_reads(
    s: Seq<TokenView>,
    i: int,
    e: ExpressionView,
    prec: Precedence,
    errors: Seq<Seq<char>>,
)
    requires
        e is Infix,
        spells_bare(s, i, e) is Some,
        level(prec) < strength(e),
    ensures
        reads(s, i, prec, e, (spells_bare(s, i, e).unwrap() - 1 - i) as nat, errors),
    decreases e, 0nat,
{
    let end = spells_bare(s, i, e).unwrap();
    match e {
        ExpressionView::Infix { token, operator, left: Some(first), right: Some(second) } => {
            let lvl = level(precedence_of(token.kind));
            let a = spells(s, i, *first, lvl).unwrap();
            lemma_shape(s, i, *first, lvl);
            lemma_shape(s, a + 1, *second, lvl + 1);
            lemma_reads(s, i, *first, lvl, prec, errors);
            lemma_parses(s, a + 1, *second, lvl + 1, precedence_of(token.kind), errors);
            lemma_reads_binary(
                s,
                i,
                prec,
                *first,
                (a - 1 - i) as nat,
                *second,
                (end - 2 - a) as nat,
                errors,
            );
        },
        _ => {},
    }
}

/// Parsing reads a conditional.
pub proof fn lemma_if_reads(
    s: Seq<TokenView>,
    i: int,
    e: ExpressionView,
    prec: Precedence,
    errors: Seq<Seq<char>>,
)
    requires
        e is If,
        spells_bare(s, i, e) is Some,
    ensures
        reads(s, i, prec, e, (spells_bare(s, i, e).unwrap() - 1 - i) as nat, errors),
    decreases e, 0nat,
{
    let end = spells_bare(s, i, e).unwrap();
    match e {
        ExpressionView::If { token, condition: Some(test), first: Some(then), second } => {
            let j = spells(s, i + 2, *test, 1).unwrap();
            lemma_shape(s, i + 2, *test, 1);
            lemma_parses(s, i + 2, *test, 1, Precedence::Lowest, errors);
            let k = spells_block(s, j + 1, then).unwrap();
            lemma_block_shape(s, j + 1, then);
            lemma_block_parses(s, j + 1, then, errors);
            match second {
                Some(otherwise) => {
                    lemma_block_shape(s, k + 1, otherwise);
                    lemma_block_parses(s, k + 1, otherwise, errors);
                    lemma_two_blocks(
                        s,
                        j + 1,
                        token,
                        *test,
                        then,
                        (k - 2 - j) as nat,
                        otherwise,
                        (end - 2 - k) as nat,
                        errors,
                    );
                },
                None => {
                    lemma_one_block(s, j + 1, token, *test, then, (k - 2 - j) as nat, errors);
                },
            }
            lemma_conditional(
                s,
                i,
                *test,
                (j - 3 - i) as nat,
                e,
                (end - 2 - j) as nat,
                errors,
            );
            lemma_reads_start(s, i, prec, e, (end - 1 - i) as nat, errors);
        },
        _ => {},
    }
}

/// Parsing reads a function literal.
pub proof fn lemma_function_reads(
    s: Seq<TokenView>,
    i: int,
    e: ExpressionView,
    prec: Precedence,
    errors: Seq<Seq<char>>,
)
    requires
        e is FunctionLiteral,
        spells_bare(s, i, e) is Some,
    ensures
        reads(s, i, prec, e, (spells_bare(s, i, e).unwrap() - 1 - i) as nat, errors),
    decreases e, 0nat,
{
    let end = spells_bare(s, i, e).unwrap();
    match e {
        ExpressionView::FunctionLiteral { token, parameters: Some(names), body: Some(block) } => {
            let j = spells_parameters(s, i + 2, names).unwrap();
            lemma_parameters_shape(s, i + 2, names);
            lemma_parameters_parse(s, i + 1, names, errors);
            lemma_block_shape(s, j, block);
            lemma_block_parses(s, j, block, errors);
            lemma_function_literal(
                s,
                i,
                names,
                (j - 2 - i) as nat,
                block,
                (end - 1 - j) as nat,
                errors,
            );
            lemma_reads_start(s, i, prec, e, (end - 1 - i) as nat, errors);
        },
        _ => {},
    }
}

/// Parsing at a binding power below that of calls reads a call in its bare
/// spelling.
pub proof fn lemma_call_reads(
    s: Seq<TokenView>,
    i: int,
    e: ExpressionView,
    prec: Precedence,
    errors: Seq<Seq<char>>,
)
    requires
        e is Call,
        spells_bare(s, i, e) is Some,
        level(prec) < strength(e),
    ensures
        reads(s, i, prec, e, (spells_bare(s, i, e).unwrap() - 1 - i) as nat, errors),
    decreases e, 0nat,
{
    let end = spells_bare(s, i, e).unwrap();
    match e {
        ExpressionView::Call { token, function: Some(callee), arguments: Some(list) } => {
            let need = level(Precedence::Call);
            let a = spells(s, i, *callee, need).unwrap();
            lemma_shape(s, i, *callee, need);
            lemma_reads(s, i, *callee, need, prec, errors);
            lemma_arguments_shape(s, a, list);
            lemma_arguments_parse(s, a, list, errors);
            lemma_reads_call(
                s,
                i,
                prec,
                *callee,
                (a - 1 - i) as nat,
                list,
                (end - 1 - a) as nat,
                errors,
            );
        },
        _ => {},
    }
}

/// An argument list parses to the arguments that it spells, without error.
pub proof fn lemma_arguments_parse(
    s: Seq<TokenView>,
    a: int,
    list: Seq<ExpressionView>,
    errors: Seq<Seq<char>>,
)
    requires
        token_at(s, a).kind == TokenType::LParen,
        spells_arguments(s, a, list) is Some,
    ensures
        arguments_are(s, a, list, (spells_arguments(s, a, list).unwrap() - 1 - a) as nat, errors),
    decreases list, list.len() + 1,
{
    lemma_arguments_shape(s, a, list);
    if list.len() == 0 {
        assert(list =~= Seq::<ExpressionView>::empty());
        lemma_no_arguments(s, a, errors);
    } else {
        let first = spells(s, a + 1, list[0], 1).unwrap();
        let end = spells_more_arguments(s, first, list, 1).unwrap();
        lemma_shape(s, a + 1, list[0], 1);
        lemma_more_arguments_shape(s, first, list, 1);
        lemma_parses(s, a + 1, list[0], 1, Precedence::Lowest, errors);
        lemma_more_arguments_parse(s, first, list, 1, errors);
        assert(list.take(1) =~= seq![list[0]]);
        lemma_first_argument(
            s,
            a,
            list[0],
            (first - 2 - a) as nat,
            list,
            (end - first) as nat,
            errors,
        );
    }
}

/// The rest of an argument list parses to the arguments that it spells,
/// without error.
pub proof fn lemma_more_arguments_parse(
    s: Seq<TokenView>,
    q: int,
    list: Seq<ExpressionView>,
    n: nat,
    errors: Seq<Seq<char>>,
)
    requires
        1 <= n <= list.len(),
        spells_more_arguments(s, q, list, n) is Some,
    ensures
        arguments_continue(
            s,
            q - 1,
            list.take(n as int),
            list,
            (spells_more_arguments(s, q, list, n).unwrap() - q) as nat,
            errors,
        ),
    decreases list, list.len() - n,
{
    lemma_more_arguments_shape(s, q, list, n);
    let end = spells_more_arguments(s, q, list, n).unwrap();
    if n >= list.len() {
        assert(list.take(n as int) =~= list);
        lemma_last_argument(s, q - 1, list, errors);
    } else {
        let j = spells(s, q + 1, list[n as int], 1).unwrap();
        lemma_shape(s, q + 1, list[n as int], 1);
        lemma_more_arguments_shape(s, j, list, n + 1);
        lemma_parses(s, q + 1, list[n as int], 1, Precedence::Lowest, errors);
        lemma_more_arguments_parse(s, j, list, n + 1, errors);
        assert(list.take(n as int).push(list[n as int]) =~= list.take(n as int + 1));
        lemma_next_argument(
            s,
            q - 1,
            list.take(n as int),
            list[n as int],
            (j - 2 - q) as nat,
            list,
            (end - j) as nat,
            errors,
        );
    }
}

/// The rest of a parameter list parses to the
/// parameters that it spells, without error.
pub proof fn lemma_more_parameters_parse(
    s: Seq<TokenView>,
    q: int,
    names: Seq<IdentifierView>,
    n: nat,
    errors: Seq<Seq<char>>,
)
    requires
        1 <= n <= names.len(),
        spells_more_parameters(s, q, names, n) is Some,
    ensures
        parameters_continue(
            s,
            q - 1,
            names.take(n as int),
            names,
            (spells_more_parameters(s, q, names, n).unwrap() - q) as nat,
            errors,
        ),
    decreases names.len() - n,
{
    lemma_more_parameters_shape(s, q, names, n);
    let end = spells_more_parameters(s, q, names, n).unwrap();
    if n >= names.len() {
        assert(names.take(n as int) =~= names);
        lemma_last_parameter(s, q - 1, names, errors);
    } else {
        lemma_more_parameters_shape(s, q + 2, names, n + 1);
        lemma_more_parameters_parse(s, q + 2, names, n + 1, errors);
        assert(names.take(n as int).push(identifier_at(s, q + 1)) =~= names.take(n as int + 1));
        lemma_next_parameter(
            s,
            q - 1,
            names.take(n as int),
            names,
            (end - q - 2) as nat,
            errors,
        );
    }
}

/// A parameter list, whose opening parenthesis is at
/// position `k`, parses to the parameters that it spells, without error.
pub proof fn lemma_parameters_parse(
    s: Seq<TokenView>,
    k: int,
    names: Seq<IdentifierView>,
    errors: Seq<Seq<char>>,
)
    requires
        spells_parameters(s, k + 1, names) is Some,
    ensures
        parameters_are(
            s,
            k,
            names,
            (spells_parameters(s, k + 1, names).unwrap() - 1 - k) as nat,
            errors,
        ),
{
    lemma_parameters_shape(s, k + 1, names);
    let end = spells_parameters(s, k + 1, names).unwrap();
    if names.len() == 0 {
        assert(names =~= Seq::<IdentifierView>::empty());
        lemma_no_parameters(s, k, errors);
    } else {
        lemma_more_parameters_shape(s, k + 2, names, 1);
        lemma_more_parameters_parse(s, k + 2, names, 1, errors);
        assert(names.take(1) =~= seq![identifier_at(s, k + 1)]);
        lemma_first_parameter(s, k, names, (end - k - 2) as nat, errors);
    }
}

/// A block parses to the block that it spells,
/// without error.
pub proof fn lemma_block_parses(s: Seq<TokenView>, i: int, b: BlockView, errors: Seq<Seq<char>>)
    requires
        spells_block(s, i, b) is Some,
    ensures
        block_is(s, i, b, (spells_block(s, i, b).unwrap() - 1 - i) as nat, errors),
    decreases b, 0nat,
{
    lemma_block_shape(s, i, b);
    let k = spells_statements(s, i + 1, b.statements, 0).unwrap();
    lemma_statements_shape(s, i + 1, b.statements, 0);
    lemma_block_statements_parse(s, i + 1, b.statements, 0, errors);
    assert(b.statements.take(0) =~= Seq::<StatementView>::empty());
    lemma_block(s, i, b.statements, (k - 1 - i) as nat, errors);
}

/// The statements of a block parse to the statements
/// that they spell, without error.
#[verifier::rlimit(40)]
pub proof fn lemma_block_statements_parse(
    s: Seq<TokenView>,
    i: int,
    list: Seq<StatementView>,
    n: nat,
    errors: Seq<Seq<char>>,
)
    requires
        n <= list.len(),
        spells_statements(s, i, list, n) is Some,
        token_at(s, spells_statements(s, i, list, n).unwrap()).kind == TokenType::RBrace,
    ensures
        block_continues(
            s,
            i,
            list.take(n as int),
            list,
            (spells_statements(s, i, list, n).unwrap() - i) as nat,
            errors,
        ),
    decreases list, list.len() - n,
{
    lemma_statements_shape(s, i, list, n);
    let end = spells_statements(s, i, list, n).unwrap();
    if n >= list.len() {
        assert(list.take(n as int) =~= list);
        lemma_block_end(s, i, list, errors);
    } else {
        let j = spells_statement(s, i, list[n as int]).unwrap();
        lemma_statement_shape(s, i, list[n as int]);
        lemma_statements_shape(s, j, list, n + 1);
        lemma_statement_parses(s, i, list[n as int], errors);
        lemma_block_statements_parse(s, j, list, n + 1, errors);
        assert(list.take(n as int).push(list[n as int]) =~= list.take(n as int + 1));
        lemma_block_statement(
            s,
            i,
            list.take(n as int),
            list[n as int],
            (j - 1 - i) as nat,
            list,
            (end - j) as nat,
            errors,
        );
    }
}

/// The statements of a program parse to the
/// statements that they spell, without error.
pub proof fn lemma_program_statements_parse(
    s: Seq<TokenView>,
    i: int,
    list: Seq<StatementView>,
    n: nat,
    errors: Seq<Seq<char>>,
)
    requires
        n <= list.len(),
        spells_statements(s, i, list, n) is Some,
        token_at(s, spells_statements(s, i, list, n).unwrap()).kind == TokenType::Eof,
    ensures
        program_continues(
            s,
            i,
            list.take(n as int),
            list,
            (spells_statements(s, i, list, n).unwrap() - i) as nat,
            errors,
        ),
    decreases list.len() - n,
{
    lemma_statements_shape(s, i, list, n);
    let end = spells_statements(s, i, list, n).unwrap();
    if n >= list.len() {
        assert(list.take(n as int) =~= list);
        lemma_program_end(s, i, list, errors);
    } else {
        let j = spells_statement(s, i, list[n as int]).unwrap();
        lemma_statement_shape(s, i, list[n as int]);
        lemma_statements_shape(s, j, list, n + 1);
        lemma_statement_parses(s, i, list[n as int], errors);
        lemma_program_statements_parse(s, j, list, n + 1, errors);
        assert(list.take(n as int).push(list[n as int]) =~= list.take(n as int + 1));
        lemma_program_statement(
            s,
            i,
            list.take(n as int),
            list[n as int],
            (j - 1 - i) as nat,
            list,
            (end - j) as nat,
            errors,
        );
    }
}

/// A `let` statement parses to what it spells.
pub proof fn lemma_let_parses(s: Seq<TokenView>, i: int, st: StatementView, errors: Seq<Seq<char>>)
    requires
        st is Let,
        spells_statement(s, i, st) is Some,
    ensures
        statement_is(s, i, st, (spells_statement(s, i, st).unwrap() - 1 - i) as nat, errors),
    decreases st, 0nat,
{
    match st {
        StatementView::Let { token, name, value: Some(e) } => {
            let j = spells(s, i + 3, e, 1).unwrap();
            lemma_shape(s, i + 3, e, 1);
            lemma_parses(s, i + 3, e, 1, Precedence::Lowest, errors);
            lemma_let_statement(s, i, e, (j - 4 - i) as nat, errors);
        },
        _ => {},
    }
}

/// A `return` statement parses to what it spells.
pub proof fn lemma_return_parses(
    s: Seq<TokenView>,
    i: int,
    st: StatementView,
    errors: Seq<Seq<char>>,
)
    requires
        st is Return,
        spells_statement(s, i, st) is Some,
    ensures
        statement_is(s, i, st, (spells_statement(s, i, st).unwrap() - 1 - i) as nat, errors),
    decreases st, 0nat,
{
    match st {
        StatementView::Return { token, return_value: Some(e) } => {
            let j = spells(s, i + 1, e, 1).unwrap();
            lemma_shape(s, i + 1, e, 1);
            lemma_parses(s, i + 1, e, 1, Precedence::Lowest, errors);
            lemma_return_statement(s, i, e, (j - 2 - i) as nat, errors);
        },
        StatementView::Return { token, return_value: None } => {
            lemma_return_nothing(s, i, errors);
        },
        _ => {},
    }
}

/// An expression statement parses to what it spells.
pub proof fn lemma_expression_statement_parses(
    s: Seq<TokenView>,
    i: int,
    st: StatementView,
    errors: Seq<Seq<char>>,
)
    requires
        st is Expression,
        spells_statement(s, i, st) is Some,
    ensures
        statement_is(s, i, st, (spells_statement(s, i, st).unwrap() - 1 - i) as nat, errors),
    decreases st, 0nat,
{
    match st {
        StatementView::Expression { token, expression: Some(e) } => {
            let j = spells(s, i, e, 1).unwrap();
            lemma_shape(s, i, e, 1);
            lemma_parses(s, i, e, 1, Precedence::Lowest, errors);
            if token_at(s, j).kind == TokenType::Semicolon {
                lemma_expression_statement(s, i, e, (j - 1 - i) as nat, errors);
            } else {
                lemma_open_expression_statement(s, i, e, (j - 1 - i) as nat, errors);
            }
        },
        _ => {},
    }
}

/// A statement parses to the statement that it spells, without error, and
/// leaves the current token on the last token of the statement.
pub proof fn lemma_statement_parses(
    s: Seq<TokenView>,
    i: int,
    st: StatementView,
    errors: Seq<Seq<char>>,
)
    requires
        spells_statement(s, i, st) is Some,
    ensures
        statement_is(s, i, st, (spells_statement(s, i, st).unwrap() - 1 - i) as nat, errors),
    decreases st, 1nat,
{
    if st is Let {
        lemma_let_parses(s, i, st, errors);
    } else if st is Return {
        lemma_return_parses(s, i, st, errors);
    } else {
        lemma_expression_statement_parses(s, i, st, errors);
    }
}

/// A program parses to the program that its tokens spell:
/// parsing records no error, yields the statements that the tokens spell,
/// and ends at the end of input.
pub proof fn lemma_spelled_program_parses(
    s: Seq<TokenView>,
    i: int,
    list: Seq<StatementView>,
    errors: Seq<Seq<char>>,
)
    requires
        spells_program(s, i, list),
    ensures
        parse_program(s, i, errors).items == list,
        parse_program(s, i, errors).errors == errors,
        i + parse_program(s, i, errors).used == spells_statements(s, i, list, 0).unwrap(),
{
    lemma_statements_shape(s, i, list, 0);
    lemma_program_statements_parse(s, i, list, 0, errors);
    assert(list.take(0) =~= Seq::<StatementView>::empty());
    reveal(program_continues);
}

} // verus!
