//! How the grammar builds a tree from the parses of its parts: one theorem
//! for each form of expression and statement.

use vstd::prelude::*;
use crate::ast::{BlockView, ExpressionView, IdentifierView, StatementView};
use crate::grammar::{
    arguments_loop, block_loop, closing_step, done, identifier_at, infix_loop, is_binary, level,
    parameters_loop, parse_block, parse_call_arguments, parse_expression,
    parse_expression_statement, parse_function, parse_function_parameters, parse_if,
    parse_if_blocks, parse_infix, parse_let_statement, parse_prefix, parse_return_statement,
    parse_statement, precedence_of, program_loop, starts_expression, Parsed, ParsedBlock,
    ParsedList, Precedence,
};
use crate::grouping::{atom, binary, is_atom, stops, unary};
use crate::lexer::token_at;
use crate::token::{bare, TokenType, TokenView};

verus! {

/// Whether what starts an expression at position `i` is the expression `e`,
/// read over `used` positions without error.
#[verifier::opaque]
pub open spec fn starts_with(
    s: Seq<TokenView>,
    i: int,
    e: ExpressionView,
    used: nat,
    errors: Seq<Seq<char>>,
) -> bool {
    parse_prefix(s, i, errors) == done(e, used, errors)
}

/// Whether the expression at position `i`, parsed at the binding power
/// `prec`, is the expression `e`, read over `used` positions without error.
#[verifier::opaque]
pub open spec fn parses_to(
    s: Seq<TokenView>,
    i: int,
    prec: Precedence,
    e: ExpressionView,
    used: nat,
    errors: Seq<Seq<char>>,
) -> bool {
    parse_expression(s, i, prec, errors) == done(e, used, errors)
}

/// An outcome with `used` more positions.
pub open spec fn later<T>(p: Parsed<T>, used: nat) -> Parsed<T> {
    Parsed { node: p.node, used: p.used + used, errors: p.errors }
}

/// Whether parsing at position `i` and at the binding power `prec` reads
/// the expression `e` over `used` positions without error, and goes on from
/// there with what continues `e`.
#[verifier::opaque]
pub open spec fn reads(
    s: Seq<TokenView>,
    i: int,
    prec: Precedence,
    e: ExpressionView,
    used: nat,
    errors: Seq<Seq<char>>,
) -> bool {
    parse_expression(s, i, prec, errors) == later(infix_loop(s, i + used, prec, e, errors), used)
}

/// Whether the argument list whose opening parenthesis is at position `a`
/// holds the arguments `list`, read over `used` positions without error.
#[verifier::opaque]
pub open spec fn arguments_are(
    s: Seq<TokenView>,
    a: int,
    list: Seq<ExpressionView>,
    used: nat,
    errors: Seq<Seq<char>>,
) -> bool {
    parse_call_arguments(s, a, errors) == done(list, used, errors)
}

/// Whether the arguments `items`, the last of which ends at position `j`,
/// and what follows them make the arguments `list`, read over `used`
/// positions without error.
#[verifier::opaque]
pub open spec fn arguments_continue(
    s: Seq<TokenView>,
    j: int,
    items: Seq<ExpressionView>,
    list: Seq<ExpressionView>,
    used: nat,
    errors: Seq<Seq<char>>,
) -> bool {
    arguments_loop(s, j, items, errors) == done(list, used, errors)
}

/// Whether the parameter list whose opening parenthesis is at position `k`
/// holds the parameters `names`, read over `used` positions without error.
#[verifier::opaque]
pub open spec fn parameters_are(
    s: Seq<TokenView>,
    k: int,
    names: Seq<IdentifierView>,
    used: nat,
    errors: Seq<Seq<char>>,
) -> bool {
    parse_function_parameters(s, k, errors) == done(names, used, errors)
}

/// Whether the parameters `items`, the last of which is at position `j`,
/// and what follows them make the parameters `names`, read over `used`
/// positions without error.
#[verifier::opaque]
pub open spec fn parameters_continue(
    s: Seq<TokenView>,
    j: int,
    items: Seq<IdentifierView>,
    names: Seq<IdentifierView>,
    used: nat,
    errors: Seq<Seq<char>>,
) -> bool {
    parameters_loop(s, j, items, errors) == done(names, used, errors)
}

/// Whether the block whose opening brace is at position `b` is the block
/// `block`, read over `used` positions without error.
#[verifier::opaque]
pub open spec fn block_is(
    s: Seq<TokenView>,
    b: int,
    block: BlockView,
    used: nat,
    errors: Seq<Seq<char>>,
) -> bool {
    parse_block(s, b, errors) == (ParsedBlock { block, used, errors })
}

/// Whether the statements `items` and the statements of the block from
/// position `k` on make the statements `list`, read over `used` positions
/// without error.
#[verifier::opaque]
pub open spec fn block_continues(
    s: Seq<TokenView>,
    k: int,
    items: Seq<StatementView>,
    list: Seq<StatementView>,
    used: nat,
    errors: Seq<Seq<char>>,
) -> bool {
    block_loop(s, k, items, errors) == (ParsedList { items: list, used, errors })
}

/// Whether the statements `items` and the statements of the program from
/// position `k` on make the statements `list`, read over `used` positions
/// without error.
#[verifier::opaque]
pub open spec fn program_continues(
    s: Seq<TokenView>,
    k: int,
    items: Seq<StatementView>,
    list: Seq<StatementView>,
    used: nat,
    errors: Seq<Seq<char>>,
) -> bool {
    program_loop(s, k, items, errors) == (ParsedList { items: list, used, errors })
}

/// Whether the statement at position `i` is the statement `statement`, read
/// over `used` positions without error.
#[verifier::opaque]
pub open spec fn statement_is(
    s: Seq<TokenView>,
    i: int,
    statement: StatementView,
    used: nat,
    errors: Seq<Seq<char>>,
) -> bool {
    parse_statement(s, i, errors) == done(statement, used, errors)
}

/// Whether the blocks of a conditional, the first of which has its opening
/// brace at position `b`, make the conditional `whole` of the given token
/// and condition, read over `used` positions without error.
#[verifier::opaque]
pub open spec fn blocks_make(
    s: Seq<TokenView>,
    b: int,
    token: TokenView,
    condition: ExpressionView,
    whole: ExpressionView,
    used: nat,
    errors: Seq<Seq<char>>,
) -> bool {
    parse_if_blocks(s, b, token, Some(condition), errors) == done(whole, used, errors)
}

/// Parsing reads what starts an expression, and goes on from there.
pub proof fn lemma_reads_start(
    s: Seq<TokenView>,
    i: int,
    prec: Precedence,
    e: ExpressionView,
    used: nat,
    errors: Seq<Seq<char>>,
)
    requires
        starts_with(s, i, e, used, errors),
    ensures
        reads(s, i, prec, e, used, errors),
{
    reveal(starts_with);
    reveal(reads);
}

/// What parsing reads is the whole expression where the token behind it
/// ends the expression.
pub proof fn lemma_reads_whole(
    s: Seq<TokenView>,
    i: int,
    prec: Precedence,
    e: ExpressionView,
    used: nat,
    errors: Seq<Seq<char>>,
)
    requires
        reads(s, i, prec, e, used, errors),
        stops(prec, token_at(s, i + used + 1)),
    ensures
        parses_to(s, i, prec, e, used, errors),
{
    reveal(reads);
    reveal(parses_to);
    assert(infix_loop(s, i + used, prec, e, errors) == done(e, 0, errors));
}

/// Where parsing has read a left operand and a binary operator follows that
/// binds more strongly than the binding power of the parse, parsing reads
/// the operation of the operator on the operand and on what is parsed
/// behind the operator at its own binding power.
pub proof fn lemma_reads_binary(
    s: Seq<TokenView>,
    i: int,
    prec: Precedence,
    left: ExpressionView,
    used_left: nat,
    right: ExpressionView,
    used_right: nat,
    errors: Seq<Seq<char>>,
)
    requires
        reads(s, i, prec, left, used_left, errors),
        is_binary(token_at(s, i + used_left + 1).kind),
        level(prec) < level(precedence_of(token_at(s, i + used_left + 1).kind)),
        parses_to(
            s,
            i + used_left + 2,
            precedence_of(token_at(s, i + used_left + 1).kind),
            right,
            used_right,
            errors,
        ),
    ensures
        reads(
            s,
            i,
            prec,
            binary(token_at(s, i + used_left + 1), left, right),
            used_left + used_right + 2,
            errors,
        ),
{
    reveal(reads);
    reveal(parses_to);
    let a = i + used_left + 1;
    let whole = binary(token_at(s, a), left, right);
    assert(parse_infix(s, a, left, errors) == done(whole, used_right + 1, errors));
    assert(infix_loop(s, i + used_left, prec, left, errors) == later(
        infix_loop(s, a + used_right + 1, prec, whole, errors),
        used_right + 2,
    ));
}

/// Where parsing has read a callee and an argument list follows, parsing
/// at a binding power below that of calls reads the call.
pub proof fn lemma_reads_call(
    s: Seq<TokenView>,
    i: int,
    prec: Precedence,
    callee: ExpressionView,
    used_callee: nat,
    list: Seq<ExpressionView>,
    used_list: nat,
    errors: Seq<Seq<char>>,
)
    requires
        reads(s, i, prec, callee, used_callee, errors),
        token_at(s, i + used_callee + 1).kind == TokenType::LParen,
        level(prec) < level(Precedence::Call),
        arguments_are(s, i + used_callee + 1, list, used_list, errors),
    ensures
        reads(
            s,
            i,
            prec,
            call(token_at(s, i + used_callee + 1), callee, list),
            used_callee + used_list + 1,
            errors,
        ),
{
    reveal(reads);
    reveal(arguments_are);
    let a = i + used_callee + 1;
    let whole = call(token_at(s, a), callee, list);
    assert(parse_infix(s, a, callee, errors) == done(whole, used_list, errors));
    assert(infix_loop(s, i + used_callee, prec, callee, errors) == later(
        infix_loop(s, a + used_list, prec, whole, errors),
        used_list + 1,
    ));
}

/// A name, a boolean, or an integer that fits starts an expression.
pub proof fn lemma_atom_starts(s: Seq<TokenView>, i: int, errors: Seq<Seq<char>>)
    requires
        is_atom(token_at(s, i)),
    ensures
        starts_with(s, i, atom(token_at(s, i)), 0, errors),
{
    reveal(starts_with);
}

/// An expression between parentheses starts an expression, and is what the
/// parentheses hold.
pub proof fn lemma_group(
    s: Seq<TokenView>,
    i: int,
    inner: ExpressionView,
    used: nat,
    errors: Seq<Seq<char>>,
)
    requires
        token_at(s, i).kind == TokenType::LParen,
        parses_to(s, i + 1, Precedence::Lowest, inner, used, errors),
        token_at(s, i + used + 2).kind == TokenType::RParen,
    ensures
        starts_with(s, i, inner, used + 2, errors),
{
    reveal(starts_with);
    reveal(parses_to);
}

/// A prefix operator and its operand start an expression.
pub proof fn lemma_prefix_operation(
    s: Seq<TokenView>,
    i: int,
    operand: ExpressionView,
    used: nat,
    errors: Seq<Seq<char>>,
)
    requires
        token_at(s, i).kind == TokenType::Bang || token_at(s, i).kind == TokenType::Minus,
        parses_to(s, i + 1, Precedence::Prefix, operand, used, errors),
    ensures
        starts_with(s, i, unary(token_at(s, i), operand), used + 1, errors),
{
    reveal(starts_with);
    reveal(parses_to);
}

/// The call of an expression with arguments.
pub open spec fn call(
    paren: TokenView,
    function: ExpressionView,
    arguments: Seq<ExpressionView>,
) -> ExpressionView {
    ExpressionView::Call {
        token: paren,
        function: Some(Box::new(function)),
        arguments: Some(arguments),
    }
}

/// A conditional with the given parts.
pub open spec fn conditional(
    token: TokenView,
    condition: ExpressionView,
    first: BlockView,
    second: Option<BlockView>,
) -> ExpressionView {
    ExpressionView::If { token, condition: Some(Box::new(condition)), first: Some(first), second }
}

/// A block, where no `else` follows, makes a conditional without
/// alternative of the given `if` token and condition.
pub proof fn lemma_one_block(
    s: Seq<TokenView>,
    b: int,
    token: TokenView,
    condition: ExpressionView,
    first: BlockView,
    used_first: nat,
    errors: Seq<Seq<char>>,
)
    requires
        block_is(s, b, first, used_first, errors),
        token_at(s, b + used_first + 1).kind != TokenType::Else,
    ensures
        blocks_make(
            s,
            b,
            token,
            condition,
            conditional(token, condition, first, None),
            used_first,
            errors,
        ),
{
    reveal(block_is);
    reveal(blocks_make);
}

/// A block, `else` and a second block make a conditional with alternative
/// of the given `if` token and condition.
pub proof fn lemma_two_blocks(
    s: Seq<TokenView>,
    b: int,
    token: TokenView,
    condition: ExpressionView,
    first: BlockView,
    used_first: nat,
    second: BlockView,
    used_second: nat,
    errors: Seq<Seq<char>>,
)
    requires
        block_is(s, b, first, used_first, errors),
        token_at(s, b + used_first + 1).kind == TokenType::Else,
        token_at(s, b + used_first + 2).kind == TokenType::LBrace,
        block_is(s, b + used_first + 2, second, used_second, errors),
    ensures
        blocks_make(
            s,
            b,
            token,
            condition,
            conditional(token, condition, first, Some(second)),
            used_first + used_second + 2,
            errors,
        ),
{
    reveal(block_is);
    reveal(blocks_make);
}

/// `if`, a condition in parentheses and the blocks behind it start an
/// expression, the conditional that the blocks make.
pub proof fn lemma_conditional(
    s: Seq<TokenView>,
    i: int,
    condition: ExpressionView,
    used_condition: nat,
    whole: ExpressionView,
    used_blocks: nat,
    errors: Seq<Seq<char>>,
)
    requires
        token_at(s, i).kind == TokenType::If,
        token_at(s, i + 1).kind == TokenType::LParen,
        parses_to(s, i + 2, Precedence::Lowest, condition, used_condition, errors),
        token_at(s, i + used_condition + 3).kind == TokenType::RParen,
        token_at(s, i + used_condition + 4).kind == TokenType::LBrace,
        blocks_make(
            s,
            i + used_condition + 4,
            token_at(s, i),
            condition,
            whole,
            used_blocks,
            errors,
        ),
    ensures
        starts_with(s, i, whole, used_condition + used_blocks + 4, errors),
{
    reveal(starts_with);
    reveal(parses_to);
    reveal(blocks_make);
    assert(parse_if(s, i, errors) == done(whole, used_condition + used_blocks + 4, errors));
}

/// A function literal with the given parts.
pub open spec fn function_literal(
    token: TokenView,
    parameters: Seq<IdentifierView>,
    body: BlockView,
) -> ExpressionView {
    ExpressionView::FunctionLiteral { token, parameters: Some(parameters), body: Some(body) }
}

/// `fn`, a parameter list and a block start an expression, the function
/// literal.
pub proof fn lemma_function_literal(
    s: Seq<TokenView>,
    i: int,
    names: Seq<IdentifierView>,
    used_names: nat,
    body: BlockView,
    used_body: nat,
    errors: Seq<Seq<char>>,
)
    requires
        token_at(s, i).kind == TokenType::Function,
        token_at(s, i + 1).kind == TokenType::LParen,
        parameters_are(s, i + 1, names, used_names, errors),
        token_at(s, i + used_names + 2).kind == TokenType::LBrace,
        block_is(s, i + used_names + 2, body, used_body, errors),
    ensures
        starts_with(
            s,
            i,
            function_literal(token_at(s, i), names, body),
            used_names + used_body + 2,
            errors,
        ),
{
    reveal(starts_with);
    reveal(parameters_are);
    reveal(block_is);
    assert(parse_function(s, i, errors) == done(
        function_literal(token_at(s, i), names, body),
        used_names + used_body + 2,
        errors,
    ));
}

/// An empty pair of parentheses is an argument list without arguments.
pub proof fn lemma_no_arguments(s: Seq<TokenView>, a: int, errors: Seq<Seq<char>>)
    requires
        token_at(s, a).kind == TokenType::LParen,
        token_at(s, a + 1).kind == TokenType::RParen,
    ensures
        arguments_are(s, a, Seq::<ExpressionView>::empty(), 1, errors),
{
    reveal(arguments_are);
}

/// An argument list is its first argument and the rest.
pub proof fn lemma_first_argument(
    s: Seq<TokenView>,
    a: int,
    first: ExpressionView,
    used_first: nat,
    list: Seq<ExpressionView>,
    used_rest: nat,
    errors: Seq<Seq<char>>,
)
    requires
        token_at(s, a).kind == TokenType::LParen,
        token_at(s, a + 1).kind != TokenType::RParen,
        parses_to(s, a + 1, Precedence::Lowest, first, used_first, errors),
        arguments_continue(s, a + 1 + used_first, seq![first], list, used_rest, errors),
    ensures
        arguments_are(s, a, list, used_first + used_rest + 1, errors),
{
    reveal(arguments_are);
    reveal(arguments_continue);
    reveal(parses_to);
}

/// A comma and an argument continue an argument list.
pub proof fn lemma_next_argument(
    s: Seq<TokenView>,
    j: int,
    items: Seq<ExpressionView>,
    next: ExpressionView,
    used_next: nat,
    list: Seq<ExpressionView>,
    used_rest: nat,
    errors: Seq<Seq<char>>,
)
    requires
        token_at(s, j + 1).kind == TokenType::Comma,
        parses_to(s, j + 2, Precedence::Lowest, next, used_next, errors),
        arguments_continue(s, j + 2 + used_next, items.push(next), list, used_rest, errors),
    ensures
        arguments_continue(s, j, items, list, used_next + used_rest + 2, errors),
{
    reveal(arguments_continue);
    reveal(parses_to);
}

/// A closing parenthesis ends an argument list.
pub proof fn lemma_last_argument(
    s: Seq<TokenView>,
    j: int,
    items: Seq<ExpressionView>,
    errors: Seq<Seq<char>>,
)
    requires
        token_at(s, j + 1).kind == TokenType::RParen,
    ensures
        arguments_continue(s, j, items, items, 1, errors),
{
    reveal(arguments_continue);
}

/// An empty pair of parentheses is a parameter list without parameters.
pub proof fn lemma_no_parameters(s: Seq<TokenView>, k: int, errors: Seq<Seq<char>>)
    requires
        token_at(s, k + 1).kind == TokenType::RParen,
    ensures
        parameters_are(s, k, Seq::<IdentifierView>::empty(), 1, errors),
{
    reveal(parameters_are);
}

/// A parameter list is its first parameter and the rest.
pub proof fn lemma_first_parameter(
    s: Seq<TokenView>,
    k: int,
    names: Seq<IdentifierView>,
    used_rest: nat,
    errors: Seq<Seq<char>>,
)
    requires
        token_at(s, k + 1).kind == TokenType::Ident,
        parameters_continue(s, k + 1, seq![identifier_at(s, k + 1)], names, used_rest, errors),
    ensures
        parameters_are(s, k, names, used_rest + 1, errors),
{
    reveal(parameters_are);
    reveal(parameters_continue);
}

/// A comma and a name continue a parameter list.
pub proof fn lemma_next_parameter(
    s: Seq<TokenView>,
    j: int,
    items: Seq<IdentifierView>,
    names: Seq<IdentifierView>,
    used_rest: nat,
    errors: Seq<Seq<char>>,
)
    requires
        token_at(s, j + 1).kind == TokenType::Comma,
        token_at(s, j + 2).kind == TokenType::Ident,
        parameters_continue(
            s,
            j + 2,
            items.push(identifier_at(s, j + 2)),
            names,
            used_rest,
            errors,
        ),
    ensures
        parameters_continue(s, j, items, names, used_rest + 2, errors),
{
    reveal(parameters_continue);
}

/// A closing parenthesis ends a parameter list.
pub proof fn lemma_last_parameter(
    s: Seq<TokenView>,
    j: int,
    items: Seq<IdentifierView>,
    errors: Seq<Seq<char>>,
)
    requires
        token_at(s, j + 1).kind == TokenType::RParen,
    ensures
        parameters_continue(s, j, items, items, 1, errors),
{
    reveal(parameters_continue);
}

/// `let`, a name, `=`, an expression and a semicolon make a `let`
/// statement, and the semicolon is the current token behind it.
pub proof fn lemma_let_statement(
    s: Seq<TokenView>,
    i: int,
    value: ExpressionView,
    used: nat,
    errors: Seq<Seq<char>>,
)
    requires
        token_at(s, i).kind == TokenType::Let,
        token_at(s, i + 1).kind == TokenType::Ident,
        token_at(s, i + 2).kind == TokenType::Assign,
        parses_to(s, i + 3, Precedence::Lowest, value, used, errors),
        token_at(s, i + 3 + used).kind != TokenType::Semicolon,
    ensures
        statement_is(
            s,
            i,
            StatementView::Let {
                token: bare(TokenType::Let),
                name: identifier_at(s, i + 1),
                value: Some(value),
            },
            used + 4,
            errors,
        ),
{
    reveal(statement_is);
    reveal(parses_to);
    assert(parse_let_statement(s, i, errors) == done(
        StatementView::Let {
            token: bare(TokenType::Let),
            name: identifier_at(s, i + 1),
            value: Some(value),
        },
        used + 4,
        errors,
    ));
}

/// `return`, an expression and a semicolon make a `return` statement, and
/// the semicolon is the current token behind it.
pub proof fn lemma_return_statement(
    s: Seq<TokenView>,
    i: int,
    value: ExpressionView,
    used: nat,
    errors: Seq<Seq<char>>,
)
    requires
        token_at(s, i).kind == TokenType::Return,
        starts_expression(token_at(s, i + 1).kind),
        parses_to(s, i + 1, Precedence::Lowest, value, used, errors),
        token_at(s, i + 1 + used).kind != TokenType::Semicolon,
    ensures
        statement_is(
            s,
            i,
            StatementView::Return { token: bare(TokenType::Return), return_value: Some(value) },
            used + 2,
            errors,
        ),
{
    reveal(statement_is);
    reveal(parses_to);
    assert(parse_return_statement(s, i, errors) == done(
        StatementView::Return { token: bare(TokenType::Return), return_value: Some(value) },
        used + 2,
        errors,
    ));
}

/// `return` before a token that starts no expression makes a `return`
/// statement without a value, and the current token behind it is that
/// token if it is a semicolon, else the one behind it.
pub proof fn lemma_return_nothing(s: Seq<TokenView>, i: int, errors: Seq<Seq<char>>)
    requires
        token_at(s, i).kind == TokenType::Return,
        !starts_expression(token_at(s, i + 1).kind),
    ensures
        statement_is(
            s,
            i,
            StatementView::Return { token: bare(TokenType::Return), return_value: None },
            1 + closing_step(s, i + 1),
            errors,
        ),
{
    reveal(statement_is);
    assert(parse_return_statement(s, i, errors) == done(
        StatementView::Return { token: bare(TokenType::Return), return_value: None },
        1 + closing_step(s, i + 1),
        errors,
    ));
}

/// An expression and a semicolon make an expression statement, and the
/// semicolon is the current token behind it.
pub proof fn lemma_expression_statement(
    s: Seq<TokenView>,
    i: int,
    value: ExpressionView,
    used: nat,
    errors: Seq<Seq<char>>,
)
    requires
        token_at(s, i).kind != TokenType::Let,
        token_at(s, i).kind != TokenType::Return,
        parses_to(s, i, Precedence::Lowest, value, used, errors),
        token_at(s, i + used + 1).kind == TokenType::Semicolon,
    ensures
        statement_is(
            s,
            i,
            StatementView::Expression { token: token_at(s, i), expression: Some(value) },
            used + 1,
            errors,
        ),
{
    reveal(statement_is);
    reveal(parses_to);
    assert(parse_expression_statement(s, i, errors) == done(
        StatementView::Expression { token: token_at(s, i), expression: Some(value) },
        used + 1,
        errors,
    ));
}

/// An expression before a token that is no semicolon and does not continue
/// the expression makes an expression statement, and the last token of the
/// expression is the current token behind it.
pub proof fn lemma_open_expression_statement(
    s: Seq<TokenView>,
    i: int,
    value: ExpressionView,
    used: nat,
    errors: Seq<Seq<char>>,
)
    requires
        token_at(s, i).kind != TokenType::Let,
        token_at(s, i).kind != TokenType::Return,
        parses_to(s, i, Precedence::Lowest, value, used, errors),
        token_at(s, i + used + 1).kind != TokenType::Semicolon,
    ensures
        statement_is(
            s,
            i,
            StatementView::Expression { token: token_at(s, i), expression: Some(value) },
            used,
            errors,
        ),
{
    reveal(statement_is);
    reveal(parses_to);
    assert(parse_expression_statement(s, i, errors) == done(
        StatementView::Expression { token: token_at(s, i), expression: Some(value) },
        used,
        errors,
    ));
}

/// A statement continues the statements of a block.
pub proof fn lemma_block_statement(
    s: Seq<TokenView>,
    k: int,
    items: Seq<StatementView>,
    statement: StatementView,
    used: nat,
    list: Seq<StatementView>,
    used_rest: nat,
    errors: Seq<Seq<char>>,
)
    requires
        token_at(s, k).kind != TokenType::RBrace,
        token_at(s, k).kind != TokenType::Eof,
        statement_is(s, k, statement, used, errors),
        block_continues(s, k + used + 1, items.push(statement), list, used_rest, errors),
    ensures
        block_continues(s, k, items, list, used + used_rest + 1, errors),
{
    reveal(statement_is);
    reveal(block_continues);
}

/// A closing brace ends the statements of a block.
pub proof fn lemma_block_end(
    s: Seq<TokenView>,
    k: int,
    items: Seq<StatementView>,
    errors: Seq<Seq<char>>,
)
    requires
        token_at(s, k).kind == TokenType::RBrace,
    ensures
        block_continues(s, k, items, items, 0, errors),
{
    reveal(block_continues);
}

/// An opening brace and the statements behind it make a block.
pub proof fn lemma_block(
    s: Seq<TokenView>,
    b: int,
    list: Seq<StatementView>,
    used: nat,
    errors: Seq<Seq<char>>,
)
    requires
        token_at(s, b).kind == TokenType::LBrace,
        block_continues(s, b + 1, Seq::empty(), list, used, errors),
    ensures
        block_is(s, b, BlockView { token: token_at(s, b), statements: list }, used + 1, errors),
{
    reveal(block_is);
    reveal(block_continues);
}

/// A statement continues the statements of a program.
pub proof fn lemma_program_statement(
    s: Seq<TokenView>,
    k: int,
    items: Seq<StatementView>,
    statement: StatementView,
    used: nat,
    list: Seq<StatementView>,
    used_rest: nat,
    errors: Seq<Seq<char>>,
)
    requires
        token_at(s, k).kind != TokenType::Eof,
        statement_is(s, k, statement, used, errors),
        program_continues(s, k + used + 1, items.push(statement), list, used_rest, errors),
    ensures
        program_continues(s, k, items, list, used + used_rest + 1, errors),
{
    reveal(statement_is);
    reveal(program_continues);
}

/// The end of input ends the statements of a program.
pub proof fn lemma_program_end(
    s: Seq<TokenView>,
    k: int,
    items: Seq<StatementView>,
    errors: Seq<Seq<char>>,
)
    requires
        token_at(s, k).kind == TokenType::Eof,
    ensures
        program_continues(s, k, items, items, 0, errors),
{
    reveal(program_continues);
}

} // verus!
