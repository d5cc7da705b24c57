//! The grammar, as a function from token sequences to syntax trees.
//!
//! Every function here takes the whole token sequence and the index of the
//! current token, and says what is parsed from there: the tree, the number
//! of positions by which the current token moves, and the errors recorded
//! on the way. Behind the end of the sequence every token is `Eof`.

use vstd::prelude::*;
use crate::ast::{BlockView, ExpressionView, IdentifierView, StatementView};
use crate::lexer::token_at;
use crate::text::decimal_i64;
use crate::token::{bare, kind_name, spelling, token_text, TokenType, TokenView};

verus! {

/// Binding power, from the weakest to the strongest.
#[derive(Clone, Copy, Debug, PartialEq, Eq, Structural)]
pub enum Precedence {
    Lowest,
    Equals,
    LessGreater,
    Sum,
    Product,
    Prefix,
    Call,
}

/// The rank of a binding power.
pub open spec fn level(p: Precedence) -> nat {
    match p {
        Precedence::Lowest => 0,
        Precedence::Equals => 1,
        Precedence::LessGreater => 2,
        Precedence::Sum => 3,
        Precedence::Product => 4,
        Precedence::Prefix => 5,
        Precedence::Call => 6,
    }
}

/// Whether a category is a binary operator.
pub open spec fn is_binary(kind: TokenType) -> bool {
    kind == TokenType::Plus || kind == TokenType::Minus || kind == TokenType::Slash || kind
        == TokenType::Asterisk || kind == TokenType::Eq || kind == TokenType::NotEq || kind
        == TokenType::LT || kind == TokenType::RT
}

/// The binding power with which a category continues an expression; the
/// weakest for a category that continues none.
pub open spec fn precedence_of(kind: TokenType) -> Precedence {
    match kind {
        TokenType::Eq => Precedence::Equals,
        TokenType::NotEq => Precedence::Equals,
        TokenType::LT => Precedence::LessGreater,
        TokenType::RT => Precedence::LessGreater,
        TokenType::Plus => Precedence::Sum,
        TokenType::Minus => Precedence::Sum,
        TokenType::Slash => Precedence::Product,
        TokenType::Asterisk => Precedence::Product,
        TokenType::LParen => Precedence::Call,
        _ => Precedence::Lowest,
    }
}

/// The outcome of parsing one node: the node unless parsing failed, the
/// number of positions by which the current token moved, and the errors
/// recorded so far, those from before the node first.
pub struct Parsed<T> {
    pub node: Option<T>,
    pub used: nat,
    pub errors: Seq<Seq<char>>,
}

/// The outcome of parsing a run of statements: the statements, the number of
/// positions by which the current token moved, and the errors recorded so
/// far.
pub struct ParsedList<T> {
    pub items: Seq<T>,
    pub used: nat,
    pub errors: Seq<Seq<char>>,
}

/// The outcome of parsing a block.
pub struct ParsedBlock {
    pub block: BlockView,
    pub used: nat,
    pub errors: Seq<Seq<char>>,
}

/// The error for a token that is not the one the grammar asks for.
pub open spec fn expected_message(kind: TokenType, actual: TokenView) -> Seq<char> {
    "Expected "@ + kind_name(kind) + " but got "@ + token_text(actual) + " instead"@
}

/// The error for a token that starts no expression.
pub open spec fn no_prefix_message(kind: TokenType) -> Seq<char> {
    "no prefix parse fn for "@ + kind_name(kind)
}

/// The error for digits that denote no 64-bit signed integer.
pub open spec fn integer_message(lexeme: Seq<char>) -> Seq<char> {
    "could not parse "@ + lexeme + " as integer"@
}

/// A failed parse that moved by `used` positions and left `errors`.
pub open spec fn failed<T>(used: nat, errors: Seq<Seq<char>>) -> Parsed<T> {
    Parsed { node: None, used, errors }
}

/// A successful parse that moved by `used` positions and left `errors`.
pub open spec fn done<T>(node: T, used: nat, errors: Seq<Seq<char>>) -> Parsed<T> {
    Parsed { node: Some(node), used, errors }
}

/// An optional expression as a part of a larger one.
pub open spec fn boxed(e: Option<ExpressionView>) -> Option<Box<ExpressionView>> {
    match e {
        Some(inner) => Some(Box::new(inner)),
        None => None,
    }
}

/// A list with one more item behind it, if there is one.
pub open spec fn appended<T>(items: Seq<T>, item: Option<T>) -> Seq<T> {
    match item {
        Some(x) => items.push(x),
        None => items,
    }
}

/// The identifier node for the token at position `i`.
pub open spec fn identifier_at(s: Seq<TokenView>, i: int) -> IdentifierView {
    IdentifierView { token: token_at(s, i), value: token_at(s, i).lexeme }
}

/// The number of tokens from position `i` to the end of the sequence.
pub open spec fn remaining(s: Seq<TokenView>, i: int) -> nat {
    if i < s.len() {
        (s.len() - i) as nat
    } else {
        0
    }
}

/// The parameters of a function literal behind those in `items`, the last
/// of which is the current token at position `j`: more identifiers, each
/// behind a comma, then the closing parenthesis.
pub open spec fn parameters_loop(
    s: Seq<TokenView>,
    j: int,
    items: Seq<IdentifierView>,
    errors: Seq<Seq<char>>,
) -> Parsed<Seq<IdentifierView>>
    decreases remaining(s, j),
{
    let peek = token_at(s, j + 1);
    if peek.kind == TokenType::Comma {
        if token_at(s, j + 2).kind != TokenType::Ident {
            failed(1, errors.push(expected_message(TokenType::Ident, token_at(s, j + 2))))
        } else {
            let rest = parameters_loop(s, j + 2, items.push(identifier_at(s, j + 2)), errors);
            Parsed { node: rest.node, used: 2 + rest.used, errors: rest.errors }
        }
    } else if peek.kind == TokenType::RParen {
        done(items, 1, errors)
    } else {
        failed(0, errors.push(expected_message(TokenType::RParen, peek)))
    }
}

/// The parameter list of a function literal, whose opening parenthesis is
/// the current token at position `k`: nothing, or identifiers with commas
/// between them, and the closing parenthesis.
pub open spec fn parse_function_parameters(
    s: Seq<TokenView>,
    k: int,
    errors: Seq<Seq<char>>,
) -> Parsed<Seq<IdentifierView>> {
    let peek = token_at(s, k + 1);
    if peek.kind == TokenType::RParen {
        done(Seq::empty(), 1, errors)
    } else if peek.kind != TokenType::Ident {
        failed(0, errors.push(expected_message(TokenType::Ident, peek)))
    } else {
        let rest = parameters_loop(s, k + 1, seq![identifier_at(s, k + 1)], errors);
        Parsed { node: rest.node, used: 1 + rest.used, errors: rest.errors }
    }
}

/// The expression that starts at position `i`, continued by every operator
/// that binds more strongly than `prec`.
pub open spec fn parse_expression(
    s: Seq<TokenView>,
    i: int,
    prec: Precedence,
    errors: Seq<Seq<char>>,
) -> Parsed<ExpressionView>
    decreases remaining(s, i), 6nat,
{
    let first = parse_prefix(s, i, errors);
    match first.node {
        None => first,
        Some(left) => {
            let rest = infix_loop(s, i + first.used, prec, left, first.errors);
            Parsed { node: rest.node, used: first.used + rest.used, errors: rest.errors }
        },
    }
}

/// The expression that starts with the token at position `i` and is read
/// without regard to what follows it: a name, a literal, a prefix operator
/// with its operand, a parenthesised expression, a conditional or a function
/// literal.
pub open spec fn parse_prefix(s: Seq<TokenView>, i: int, errors: Seq<Seq<char>>) -> Parsed<
    ExpressionView,
>
    decreases remaining(s, i), 5nat,
{
    let cur = token_at(s, i);
    match cur.kind {
        TokenType::Ident => done(ExpressionView::Identifier(identifier_at(s, i)), 0, errors),
        TokenType::Int => match decimal_i64(cur.lexeme) {
            Some(value) => done(ExpressionView::IntegerLiteral { token: cur, value }, 0, errors),
            None => failed(0, errors.push(integer_message(cur.lexeme))),
        },
        TokenType::True => done(ExpressionView::Bool { token: cur, value: true }, 0, errors),
        TokenType::False => done(ExpressionView::Bool { token: cur, value: false }, 0, errors),
        TokenType::Bang | TokenType::Minus => {
            let right = parse_expression(s, i + 1, Precedence::Prefix, errors);
            Parsed {
                node: Some(
                    ExpressionView::Prefix {
                        token: cur,
                        operator: spelling(cur.kind),
                        right: boxed(right.node),
                    },
                ),
                used: 1 + right.used,
                errors: right.errors,
            }
        },
        TokenType::LParen => {
            let inner = parse_expression(s, i + 1, Precedence::Lowest, errors);
            let peek = token_at(s, i + 1 + inner.used + 1);
            if peek.kind == TokenType::RParen {
                Parsed { node: inner.node, used: 2 + inner.used, errors: inner.errors }
            } else {
                failed(
                    1 + inner.used,
                    inner.errors.push(expected_message(TokenType::RParen, peek)),
                )
            }
        },
        TokenType::If => parse_if(s, i, errors),
        TokenType::Function => parse_function(s, i, errors),
        _ => failed(0, errors.push(no_prefix_message(cur.kind))),
    }
}

/// What follows the expression `left`, whose last token is at position `j`:
/// as long as the next token is no semicolon and binds more strongly than
/// `prec`, it continues the expression, with what was read so far as its
/// left operand or its callee.
pub open spec fn infix_loop(
    s: Seq<TokenView>,
    j: int,
    prec: Precedence,
    left: ExpressionView,
    errors: Seq<Seq<char>>,
) -> Parsed<ExpressionView>
    decreases remaining(s, j), 5nat,
{
    let peek = token_at(s, j + 1);
    if peek.kind != TokenType::Semicolon && level(prec) < level(precedence_of(peek.kind)) {
        let step = parse_infix(s, j + 1, left, errors);
        match step.node {
            None => failed(1 + step.used, step.errors),
            Some(e) => {
                let rest = infix_loop(s, j + 1 + step.used, prec, e, step.errors);
                Parsed { node: rest.node, used: 1 + step.used + rest.used, errors: rest.errors }
            },
        }
    } else {
        done(left, 0, errors)
    }
}

/// The expression that the token at position `k` makes of `left`: a binary
/// operator takes as its right operand what binds more strongly than itself,
/// so that operators of one binding power group to the left; an opening
/// parenthesis makes a call.
pub open spec fn parse_infix(
    s: Seq<TokenView>,
    k: int,
    left: ExpressionView,
    errors: Seq<Seq<char>>,
) -> Parsed<ExpressionView>
    decreases remaining(s, k), 4nat,
{
    let cur = token_at(s, k);
    if cur.kind == TokenType::LParen {
        let arguments = parse_call_arguments(s, k, errors);
        Parsed {
            node: Some(
                ExpressionView::Call {
                    token: cur,
                    function: Some(Box::new(left)),
                    arguments: arguments.node,
                },
            ),
            used: arguments.used,
            errors: arguments.errors,
        }
    } else if is_binary(cur.kind) {
        let right = parse_expression(s, k + 1, precedence_of(cur.kind), errors);
        Parsed {
            node: Some(
                ExpressionView::Infix {
                    token: cur,
                    operator: spelling(cur.kind),
                    left: Some(Box::new(left)),
                    right: boxed(right.node),
                },
            ),
            used: 1 + right.used,
            errors: right.errors,
        }
    } else {
        done(left, 0, errors)
    }
}

/// The arguments of a call, whose opening parenthesis is the current token
/// at position `k`: nothing, or expressions with commas between them, and
/// the closing parenthesis.
pub open spec fn parse_call_arguments(s: Seq<TokenView>, k: int, errors: Seq<Seq<char>>) -> Parsed<
    Seq<ExpressionView>,
>
    decreases remaining(s, k), 3nat,
{
    if token_at(s, k).kind != TokenType::LParen {
        failed(0, errors)
    } else if token_at(s, k + 1).kind == TokenType::RParen {
        done(Seq::empty(), 1, errors)
    } else {
        let first = parse_expression(s, k + 1, Precedence::Lowest, errors);
        match first.node {
            None => failed(1 + first.used, first.errors),
            Some(e) => {
                let rest = arguments_loop(s, k + 1 + first.used, seq![e], first.errors);
                Parsed { node: rest.node, used: 1 + first.used + rest.used, errors: rest.errors }
            },
        }
    }
}

/// The arguments of a call behind those in `items`, the last token of which
/// is at position `j`: more expressions, each behind a comma, then the
/// closing parenthesis.
pub open spec fn arguments_loop(
    s: Seq<TokenView>,
    j: int,
    items: Seq<ExpressionView>,
    errors: Seq<Seq<char>>,
) -> Parsed<Seq<ExpressionView>>
    decreases remaining(s, j), 2nat,
{
    let peek = token_at(s, j + 1);
    if peek.kind == TokenType::Comma {
        let next = parse_expression(s, j + 2, Precedence::Lowest, errors);
        match next.node {
            None => failed(2 + next.used, next.errors),
            Some(e) => {
                let rest = arguments_loop(s, j + 2 + next.used, items.push(e), next.errors);
                Parsed { node: rest.node, used: 2 + next.used + rest.used, errors: rest.errors }
            },
        }
    } else if peek.kind == TokenType::RParen {
        done(items, 1, errors)
    } else {
        failed(0, errors.push(expected_message(TokenType::RParen, peek)))
    }
}

/// The conditional whose `if` is the current token at position `i`: a
/// condition in parentheses, a block, and after `else` a second block.
pub open spec fn parse_if(s: Seq<TokenView>, i: int, errors: Seq<Seq<char>>) -> Parsed<
    ExpressionView,
>
    decreases remaining(s, i), 4nat,
{
    if token_at(s, i + 1).kind != TokenType::LParen {
        failed(0, errors.push(expected_message(TokenType::LParen, token_at(s, i + 1))))
    } else {
        let condition = parse_expression(s, i + 2, Precedence::Lowest, errors);
        let j = i + 2 + condition.used;
        if token_at(s, j + 1).kind != TokenType::RParen {
            failed(
                2 + condition.used,
                condition.errors.push(expected_message(TokenType::RParen, token_at(s, j + 1))),
            )
        } else if token_at(s, j + 2).kind != TokenType::LBrace {
            failed(
                3 + condition.used,
                condition.errors.push(expected_message(TokenType::LBrace, token_at(s, j + 2))),
            )
        } else {
            let blocks = parse_if_blocks(
                s,
                j + 2,
                token_at(s, i),
                condition.node,
                condition.errors,
            );
            Parsed {
                node: blocks.node,
                used: 4 + condition.used + blocks.used,
                errors: blocks.errors,
            }
        }
    }
}

/// The blocks of a conditional with the given `if` token and condition,
/// where the opening brace of the first block is the current token at
/// position `b`: that block, and after `else` a second one.
pub open spec fn parse_if_blocks(
    s: Seq<TokenView>,
    b: int,
    token: TokenView,
    condition: Option<ExpressionView>,
    errors: Seq<Seq<char>>,
) -> Parsed<ExpressionView>
    decreases remaining(s, b), 1nat,
{
    let first = parse_block(s, b, errors);
    let k = b + first.used;
    if token_at(s, k + 1).kind != TokenType::Else {
        Parsed {
            node: Some(
                ExpressionView::If {
                    token,
                    condition: boxed(condition),
                    first: Some(first.block),
                    second: None,
                },
            ),
            used: first.used,
            errors: first.errors,
        }
    } else if token_at(s, k + 2).kind != TokenType::LBrace {
        failed(
            1 + first.used,
            first.errors.push(expected_message(TokenType::LBrace, token_at(s, k + 2))),
        )
    } else {
        let second = parse_block(s, k + 2, first.errors);
        Parsed {
            node: Some(
                ExpressionView::If {
                    token,
                    condition: boxed(condition),
                    first: Some(first.block),
                    second: Some(second.block),
                },
            ),
            used: 2 + first.used + second.used,
            errors: second.errors,
        }
    }
}

/// The function literal whose `fn` is the current token at position `i`: a
/// parameter list in parentheses and a block.
pub open spec fn parse_function(s: Seq<TokenView>, i: int, errors: Seq<Seq<char>>) -> Parsed<
    ExpressionView,
>
    decreases remaining(s, i), 4nat,
{
    if token_at(s, i + 1).kind != TokenType::LParen {
        failed(0, errors.push(expected_message(TokenType::LParen, token_at(s, i + 1))))
    } else {
        let parameters = parse_function_parameters(s, i + 1, errors);
        let j = i + 1 + parameters.used;
        match parameters.node {
            None => failed(1 + parameters.used, parameters.errors),
            Some(list) => {
                if token_at(s, j + 1).kind != TokenType::LBrace {
                    failed(
                        1 + parameters.used,
                        parameters.errors.push(
                            expected_message(TokenType::LBrace, token_at(s, j + 1)),
                        ),
                    )
                } else {
                    let body = parse_block(s, j + 1, parameters.errors);
                    Parsed {
                        node: Some(
                            ExpressionView::FunctionLiteral {
                                token: token_at(s, i),
                                parameters: Some(list),
                                body: Some(body.block),
                            },
                        ),
                        used: 2 + parameters.used + body.used,
                        errors: body.errors,
                    }
                }
            },
        }
    }
}

/// The block whose opening brace is the current token at position `b`: the
/// statements up to the closing brace, on which the current token rests, or
/// up to the end of input.
pub open spec fn parse_block(s: Seq<TokenView>, b: int, errors: Seq<Seq<char>>) -> ParsedBlock
    decreases remaining(s, b), 0nat,
{
    if token_at(s, b).kind != TokenType::LBrace {
        ParsedBlock {
            block: BlockView { token: token_at(s, b), statements: Seq::empty() },
            used: 0,
            errors,
        }
    } else {
        let body = block_loop(s, b + 1, Seq::empty(), errors);
        ParsedBlock {
            block: BlockView { token: token_at(s, b), statements: body.items },
            used: 1 + body.used,
            errors: body.errors,
        }
    }
}

/// The statements of a block behind those in `items`, from position `k` on.
/// After each statement the current token moves on by one, whether the
/// statement was parsed or not.
pub open spec fn block_loop(
    s: Seq<TokenView>,
    k: int,
    items: Seq<StatementView>,
    errors: Seq<Seq<char>>,
) -> ParsedList<StatementView>
    decreases remaining(s, k), 9nat,
{
    let cur = token_at(s, k);
    if cur.kind == TokenType::RBrace || cur.kind == TokenType::Eof {
        ParsedList { items, used: 0, errors }
    } else {
        let first = parse_statement(s, k, errors);
        let rest = block_loop(
            s,
            k + first.used + 1,
            appended(items, first.node),
            first.errors,
        );
        ParsedList { items: rest.items, used: first.used + 1 + rest.used, errors: rest.errors }
    }
}

/// The statement that starts at position `k`, by its first token: a `let`,
/// a `return`, or an expression used for its value.
pub open spec fn parse_statement(s: Seq<TokenView>, k: int, errors: Seq<Seq<char>>) -> Parsed<
    StatementView,
>
    decreases remaining(s, k), 8nat,
{
    match token_at(s, k).kind {
        TokenType::Let => parse_let_statement(s, k, errors),
        TokenType::Return => parse_return_statement(s, k, errors),
        _ => parse_expression_statement(s, k, errors),
    }
}

/// By how much the current token moves behind the value of a `let` or a
/// `return`, whose last token is at position `j`: by one, unless it rests on
/// a semicolon.
pub open spec fn closing_step(s: Seq<TokenView>, j: int) -> nat {
    if token_at(s, j).kind != TokenType::Semicolon {
        1
    } else {
        0
    }
}

/// The `let` statement whose `let` is the current token at position `k`: a
/// name, `=`, and a value.
pub open spec fn parse_let_statement(s: Seq<TokenView>, k: int, errors: Seq<Seq<char>>) -> Parsed<
    StatementView,
>
    decreases remaining(s, k), 7nat,
{
    if token_at(s, k + 1).kind != TokenType::Ident {
        failed(0, errors.push(expected_message(TokenType::Ident, token_at(s, k + 1))))
    } else if token_at(s, k + 2).kind != TokenType::Assign {
        failed(1, errors.push(expected_message(TokenType::Assign, token_at(s, k + 2))))
    } else {
        let value = parse_expression(s, k + 3, Precedence::Lowest, errors);
        match value.node {
            None => failed(3 + value.used, value.errors),
            Some(e) => Parsed {
                node: Some(
                    StatementView::Let {
                        token: bare(TokenType::Let),
                        name: identifier_at(s, k + 1),
                        value: Some(e),
                    },
                ),
                used: 3 + value.used + closing_step(s, k + 3 + value.used),
                errors: value.errors,
            },
        }
    }
}

/// Whether a token of this category starts an expression.
pub open spec fn starts_expression(kind: TokenType) -> bool {
    kind == TokenType::Ident || kind == TokenType::Int || kind == TokenType::True || kind
        == TokenType::False || kind == TokenType::Bang || kind == TokenType::Minus || kind
        == TokenType::LParen || kind == TokenType::If || kind == TokenType::Function
}

/// The `return` statement whose `return` is the current token at position
/// `k`: a value, which is absent where the token behind `return` starts no
/// expression. Behind the statement the current token moves on by one,
/// unless it rests on a semicolon.
pub open spec fn parse_return_statement(
    s: Seq<TokenView>,
    k: int,
    errors: Seq<Seq<char>>,
) -> Parsed<StatementView>
    decreases remaining(s, k), 7nat,
{
    if token_at(s, k).kind != TokenType::Return {
        failed(0, errors)
    } else if !starts_expression(token_at(s, k + 1).kind) {
        done(
            StatementView::Return { token: bare(TokenType::Return), return_value: None },
            1 + closing_step(s, k + 1),
            errors,
        )
    } else {
        let value = parse_expression(s, k + 1, Precedence::Lowest, errors);
        match value.node {
            None => failed(1 + value.used, value.errors),
            Some(e) => Parsed {
                node: Some(
                    StatementView::Return {
                        token: bare(TokenType::Return),
                        return_value: Some(e),
                    },
                ),
                used: 1 + value.used + closing_step(s, k + 1 + value.used),
                errors: value.errors,
            },
        }
    }
}

/// The expression statement that starts at position `k`; a semicolon behind
/// the expression belongs to it.
pub open spec fn parse_expression_statement(
    s: Seq<TokenView>,
    k: int,
    errors: Seq<Seq<char>>,
) -> Parsed<StatementView>
    decreases remaining(s, k), 7nat,
{
    let value = parse_expression(s, k, Precedence::Lowest, errors);
    match value.node {
        None => failed(value.used, value.errors),
        Some(e) => Parsed {
            node: Some(StatementView::Expression { token: token_at(s, k), expression: Some(e) }),
            used: value.used + if token_at(s, k + value.used + 1).kind == TokenType::Semicolon {
                1nat
            } else {
                0nat
            },
            errors: value.errors,
        },
    }
}

/// The statements of a program behind those in `items`, from position `i`
/// to the end of input. After each statement the current token moves on by
/// one, whether the statement was parsed or not, so that one error does not
/// stall parsing.
pub open spec fn program_loop(
    s: Seq<TokenView>,
    i: int,
    items: Seq<StatementView>,
    errors: Seq<Seq<char>>,
) -> ParsedList<StatementView>
    decreases remaining(s, i),
{
    if token_at(s, i).kind == TokenType::Eof {
        ParsedList { items, used: 0, errors }
    } else {
        let first = parse_statement(s, i, errors);
        let rest = program_loop(
            s,
            i + first.used + 1,
            appended(items, first.node),
            first.errors,
        );
        ParsedList { items: rest.items, used: first.used + 1 + rest.used, errors: rest.errors }
    }
}

/// The program that the tokens from position `i` on make, and the errors
/// that parsing it adds to `errors`.
pub open spec fn parse_program(s: Seq<TokenView>, i: int, errors: Seq<Seq<char>>) -> ParsedList<
    StatementView,
> {
    program_loop(s, i, Seq::empty(), errors)
}

} // verus!
