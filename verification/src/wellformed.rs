//! What a parse without errors yields: theorems about the grammar.
//!
//! Parsing always comes to the end of the input. Every failure to parse is
//! recorded as an error, so that a parse that records none has parsed
//! everything, and the tree it yields is complete: no part that the grammar
//! asks for is missing.

use vstd::prelude::*;
use crate::ast::{BlockView, ExpressionView, IdentifierView, StatementView};
use crate::grammar::{
    appended, arguments_loop, block_loop, identifier_at, infix_loop, is_binary, level,
    parameters_loop, parse_block, parse_call_arguments, parse_expression,
    parse_expression_statement, parse_function, parse_function_parameters, parse_if,
    parse_if_blocks, parse_infix, parse_let_statement, parse_prefix, parse_program,
    parse_return_statement, parse_statement, precedence_of, program_loop, remaining, Parsed,
    Precedence,
};
use crate::lexer::token_at;
use crate::token::{spelling, TokenType, TokenView};

verus! {

/// Whether an expression is complete: every operand, condition, block,
/// parameter list, body, callee and argument list is there and complete,
/// and every operator is spelled as its token is.
pub open spec fn complete_expression(e: ExpressionView) -> bool
    decreases e,
{
    match e {
        ExpressionView::Identifier(_) => true,
        ExpressionView::IntegerLiteral { .. } => true,
        ExpressionView::Bool { .. } => true,
        ExpressionView::Prefix { token, operator, right } => {
            &&& operator == spelling(token.kind)
            &&& right is Some
            &&& complete_expression(*right.unwrap())
        },
        ExpressionView::Infix { token, operator, left, right } => {
            &&& operator == spelling(token.kind)
            &&& left is Some
            &&& right is Some
            &&& complete_expression(*left.unwrap())
            &&& complete_expression(*right.unwrap())
        },
        ExpressionView::If { condition, first, second, .. } => {
            &&& condition is Some
            &&& complete_expression(*condition.unwrap())
            &&& first is Some
            &&& complete_block(first.unwrap())
            &&& match second {
                Some(block) => complete_block(block),
                None => true,
            }
        },
        ExpressionView::FunctionLiteral { parameters, body, .. } => {
            &&& parameters is Some
            &&& body is Some
            &&& complete_block(body.unwrap())
        },
        ExpressionView::Call { function, arguments, .. } => {
            &&& function is Some
            &&& complete_expression(*function.unwrap())
            &&& arguments is Some
            &&& complete_expressions(arguments.unwrap())
        },
    }
}

/// Whether every expression of a list is complete.
pub open spec fn complete_expressions(list: Seq<ExpressionView>) -> bool
    decreases list,
{
    forall|i: int| 0 <= i < list.len() ==> complete_expression(#[trigger] list[i])
}

/// Whether every statement of a block is complete.
pub open spec fn complete_block(b: BlockView) -> bool
    decreases b,
{
    complete_statements(b.statements)
}

/// Whether every statement of a list is complete.
pub open spec fn complete_statements(list: Seq<StatementView>) -> bool
    decreases list,
{
    forall|i: int| 0 <= i < list.len() ==> complete_statement(#[trigger] list[i])
}

/// Whether a statement is complete: its expression is there and complete.
/// A `return` may be without one.
pub open spec fn complete_statement(s: StatementView) -> bool
    decreases s,
{
    match s {
        StatementView::Let { value, .. } => value is Some && complete_expression(value.unwrap()),
        StatementView::Return { return_value, .. } => match return_value {
            Some(e) => complete_expression(e),
            None => true,
        },
        StatementView::Expression { expression, .. } => expression is Some && complete_expression(
            expression.unwrap(),
        ),
    }
}

/// Whether the errors `after` are the errors `before` with more behind them.
pub open spec fn grows(before: Seq<Seq<char>>, after: Seq<Seq<char>>) -> bool {
    &&& before.len() <= after.len()
    &&& forall|i: int| 0 <= i < before.len() ==> after[i] == before[i]
}

/// Parsing a program always comes to the end of the input.
pub proof fn lemma_parse_reaches_end(
    s: Seq<TokenView>,
    i: int,
    items: Seq<StatementView>,
    errors: Seq<Seq<char>>,
)
    ensures
        token_at(s, i + program_loop(s, i, items, errors).used).kind == TokenType::Eof,
        token_at(s, i + parse_program(s, i, errors).used).kind == TokenType::Eof,
    decreases remaining(s, i),
{
    if token_at(s, i).kind != TokenType::Eof {
        let first = parse_statement(s, i, errors);
        lemma_parse_reaches_end(
            s,
            i + first.used + 1,
            appended(items, first.node),
            first.errors,
        );
    }
    if token_at(s, i).kind != TokenType::Eof {
        let first = parse_statement(s, i, errors);
        lemma_parse_reaches_end(
            s,
            i + first.used + 1,
            appended(Seq::empty(), first.node),
            first.errors,
        );
    }
}

/// Whether an outcome keeps the errors from before it, and has recorded an
/// error if it has failed.
pub open spec fn recorded<T>(before: Seq<Seq<char>>, p: Parsed<T>) -> bool {
    grows(before, p.errors) && (p.node is None ==> p.errors.len() > before.len())
}

/// A list of complete statements with one more complete statement behind
/// it, or none, is a list of complete statements.
pub proof fn lemma_appended_complete(items: Seq<StatementView>, item: Option<StatementView>)
    requires
        complete_statements(items),
        item is Some ==> complete_statement(item.unwrap()),
    ensures
        complete_statements(appended(items, item)),
{
    let list = appended(items, item);
    assert forall|i: int| 0 <= i < list.len() implies complete_statement(#[trigger] list[i]) by {
        if i < items.len() {
            assert(list[i] == items[i]);
        }
    }
}

/// A list of complete expressions with one more complete expression behind
/// it is a list of complete expressions.
pub proof fn lemma_pushed_complete(items: Seq<ExpressionView>, item: ExpressionView)
    requires
        complete_expressions(items),
        complete_expression(item),
    ensures
        complete_expressions(items.push(item)),
{
    let list = items.push(item);
    assert forall|i: int| 0 <= i < list.len() implies complete_expression(#[trigger] list[i]) by {
        if i < items.len() {
            assert(list[i] == items[i]);
        }
    }
}

/// The parameters of a function literal: a failure is recorded.
pub proof fn lemma_parameters_loop(
    s: Seq<TokenView>,
    j: int,
    items: Seq<IdentifierView>,
    errors: Seq<Seq<char>>,
)
    ensures
        recorded(errors, parameters_loop(s, j, items, errors)),
    decreases remaining(s, j),
{
    if token_at(s, j + 1).kind == TokenType::Comma && token_at(s, j + 2).kind == TokenType::Ident {
        lemma_parameters_loop(
            s,
            j + 2,
            items.push(identifier_at(s, j + 2)),
            errors,
        );
    }
}

/// The parameter list of a function literal: a failure is recorded.
pub proof fn lemma_function_parameters(s: Seq<TokenView>, k: int, errors: Seq<Seq<char>>)
    ensures
        recorded(errors, parse_function_parameters(s, k, errors)),
{
    lemma_parameters_loop(s, k + 1, seq![identifier_at(s, k + 1)], errors);
}

/// An expression: a failure is recorded, and without a new error the
/// expression is complete.
pub proof fn lemma_expression(s: Seq<TokenView>, i: int, prec: Precedence, errors: Seq<Seq<char>>)
    ensures
        recorded(errors, parse_expression(s, i, prec, errors)),
        parse_expression(s, i, prec, errors).errors.len() == errors.len() ==> complete_expression(
            parse_expression(s, i, prec, errors).node.unwrap(),
        ),
    decreases remaining(s, i), 6nat,
{
    let first = parse_prefix(s, i, errors);
    lemma_prefix(s, i, errors);
    match first.node {
        None => {},
        Some(left) => {
            lemma_infix_loop(s, i + first.used, prec, left, first.errors);
        },
    }
}

/// What starts an expression: a failure is recorded, and without a new
/// error the expression is complete.
pub proof fn lemma_prefix(s: Seq<TokenView>, i: int, errors: Seq<Seq<char>>)
    ensures
        recorded(errors, parse_prefix(s, i, errors)),
        parse_prefix(s, i, errors).errors.len() == errors.len() ==> complete_expression(
            parse_prefix(s, i, errors).node.unwrap(),
        ),
    decreases remaining(s, i), 5nat,
{
    let cur = token_at(s, i);
    match cur.kind {
        TokenType::Bang | TokenType::Minus => {
            lemma_expression(s, i + 1, Precedence::Prefix, errors);
        },
        TokenType::LParen => {
            lemma_expression(s, i + 1, Precedence::Lowest, errors);
        },
        TokenType::If => {
            lemma_if(s, i, errors);
        },
        TokenType::Function => {
            lemma_function(s, i, errors);
        },
        _ => {},
    }
}

/// What continues an expression: a failure is recorded, and without a new
/// error the expression is complete if what it continues is.
pub proof fn lemma_infix_loop(
    s: Seq<TokenView>,
    j: int,
    prec: Precedence,
    left: ExpressionView,
    errors: Seq<Seq<char>>,
)
    ensures
        recorded(errors, infix_loop(s, j, prec, left, errors)),
        infix_loop(s, j, prec, left, errors).errors.len() == errors.len() && complete_expression(
            left,
        ) ==> complete_expression(infix_loop(s, j, prec, left, errors).node.unwrap()),
    decreases remaining(s, j), 5nat,
{
    let peek = token_at(s, j + 1);
    if peek.kind != TokenType::Semicolon && level(prec) < level(
        precedence_of(peek.kind),
    ) {
        let step = parse_infix(s, j + 1, left, errors);
        lemma_infix(s, j + 1, left, errors);
        match step.node {
            None => {},
            Some(e) => {
                lemma_infix_loop(s, j + 1 + step.used, prec, e, step.errors);
            },
        }
    }
}

/// A binary operation or a call: a failure is recorded, and without a new
/// error the expression is complete if its left operand or callee is.
pub proof fn lemma_infix(s: Seq<TokenView>, k: int, left: ExpressionView, errors: Seq<Seq<char>>)
    ensures
        recorded(errors, parse_infix(s, k, left, errors)),
        parse_infix(s, k, left, errors).errors.len() == errors.len() && complete_expression(left)
            ==> complete_expression(parse_infix(s, k, left, errors).node.unwrap()),
    decreases remaining(s, k), 4nat,
{
    let cur = token_at(s, k);
    if cur.kind == TokenType::LParen {
        lemma_call_arguments(s, k, errors);
    } else if is_binary(cur.kind) {
        lemma_expression(s, k + 1, precedence_of(cur.kind), errors);
    }
}

/// The arguments of a call: a failure is recorded, and without a new error
/// the arguments are complete.
pub proof fn lemma_call_arguments(s: Seq<TokenView>, k: int, errors: Seq<Seq<char>>)
    requires
        token_at(s, k).kind == TokenType::LParen,
    ensures
        recorded(errors, parse_call_arguments(s, k, errors)),
        parse_call_arguments(s, k, errors).errors.len() == errors.len() ==> complete_expressions(
            parse_call_arguments(s, k, errors).node.unwrap(),
        ),
    decreases remaining(s, k), 3nat,
{
    if token_at(s, k + 1).kind != TokenType::RParen {
        let first = parse_expression(s, k + 1, Precedence::Lowest, errors);
        lemma_expression(s, k + 1, Precedence::Lowest, errors);
        match first.node {
            None => {},
            Some(e) => {
                lemma_arguments_loop(s, k + 1 + first.used, seq![e], first.errors);
                if first.errors.len() == errors.len() {
                    lemma_pushed_complete(Seq::empty(), e);
                    assert(Seq::<ExpressionView>::empty().push(e) =~= seq![e]);
                }
            },
        }
    }
}

/// More arguments of a call: a failure is recorded, and without a new error
/// the arguments are complete if those before them are.
pub proof fn lemma_arguments_loop(
    s: Seq<TokenView>,
    j: int,
    items: Seq<ExpressionView>,
    errors: Seq<Seq<char>>,
)
    ensures
        recorded(errors, arguments_loop(s, j, items, errors)),
        arguments_loop(s, j, items, errors).errors.len() == errors.len() && complete_expressions(
            items,
        ) ==> complete_expressions(arguments_loop(s, j, items, errors).node.unwrap()),
    decreases remaining(s, j), 2nat,
{
    if token_at(s, j + 1).kind == TokenType::Comma {
        let next = parse_expression(s, j + 2, Precedence::Lowest, errors);
        lemma_expression(s, j + 2, Precedence::Lowest, errors);
        match next.node {
            None => {},
            Some(e) => {
                lemma_arguments_loop(s, j + 2 + next.used, items.push(e), next.errors);
                if next.errors.len() == errors.len() && complete_expressions(items) {
                    lemma_pushed_complete(items, e);
                }
            },
        }
    }
}

/// A conditional: a failure is recorded, and without a new error the
/// conditional is complete.
pub proof fn lemma_if(s: Seq<TokenView>, i: int, errors: Seq<Seq<char>>)
    ensures
        recorded(errors, parse_if(s, i, errors)),
        parse_if(s, i, errors).errors.len() == errors.len() ==> complete_expression(
            parse_if(s, i, errors).node.unwrap(),
        ),
    decreases remaining(s, i), 4nat,
{
    if token_at(s, i + 1).kind == TokenType::LParen {
        let condition = parse_expression(s, i + 2, Precedence::Lowest, errors);
        lemma_expression(s, i + 2, Precedence::Lowest, errors);
        let j = i + 2 + condition.used;
        if token_at(s, j + 1).kind == TokenType::RParen && token_at(s, j + 2).kind
            == TokenType::LBrace {
            lemma_if_blocks(s, j + 2, token_at(s, i), condition.node, condition.errors);
        }
    }
}

/// The blocks of a conditional: a failure is recorded, and without a new
/// error the conditional is complete if its condition is.
#[verifier::rlimit(50)]
pub proof fn lemma_if_blocks(
    s: Seq<TokenView>,
    b: int,
    token: TokenView,
    condition: Option<ExpressionView>,
    errors: Seq<Seq<char>>,
)
    ensures
        recorded(errors, parse_if_blocks(s, b, token, condition, errors)),
        parse_if_blocks(s, b, token, condition, errors).errors.len() == errors.len()
            && condition is Some && complete_expression(condition.unwrap())
            ==> complete_expression(parse_if_blocks(s, b, token, condition, errors).node.unwrap()),
    decreases remaining(s, b), 1nat,
{
    let first = parse_block(s, b, errors);
    lemma_block(s, b, errors);
    let k = b + first.used;
    if token_at(s, k + 1).kind == TokenType::Else && token_at(s, k + 2).kind == TokenType::LBrace {
        lemma_block(s, k + 2, first.errors);
    }
}

/// A function literal: a failure is recorded, and without a new error the
/// function literal is complete.
pub proof fn lemma_function(s: Seq<TokenView>, i: int, errors: Seq<Seq<char>>)
    ensures
        recorded(errors, parse_function(s, i, errors)),
        parse_function(s, i, errors).errors.len() == errors.len() ==> complete_expression(
            parse_function(s, i, errors).node.unwrap(),
        ),
    decreases remaining(s, i), 4nat,
{
    if token_at(s, i + 1).kind == TokenType::LParen {
        let parameters = parse_function_parameters(s, i + 1, errors);
        lemma_function_parameters(s, i + 1, errors);
        let j = i + 1 + parameters.used;
        if parameters.node is Some && token_at(s, j + 1).kind == TokenType::LBrace {
            lemma_block(s, j + 1, parameters.errors);
        }
    }
}

/// A block: the errors from before it are kept, and without a new error
/// the block is complete.
pub proof fn lemma_block(s: Seq<TokenView>, b: int, errors: Seq<Seq<char>>)
    ensures
        grows(errors, parse_block(s, b, errors).errors),
        parse_block(s, b, errors).errors.len() == errors.len() ==> complete_block(
            parse_block(s, b, errors).block,
        ),
    decreases remaining(s, b), 0nat,
{
    if token_at(s, b).kind == TokenType::LBrace {
        lemma_block_loop(s, b + 1, Seq::empty(), errors);
    }
}

/// The statements of a block: the errors from before them are kept, and
/// without a new error the statements are complete if those before them
/// are.
pub proof fn lemma_block_loop(
    s: Seq<TokenView>,
    k: int,
    items: Seq<StatementView>,
    errors: Seq<Seq<char>>,
)
    ensures
        grows(errors, block_loop(s, k, items, errors).errors),
        block_loop(s, k, items, errors).errors.len() == errors.len() && complete_statements(items)
            ==> complete_statements(block_loop(s, k, items, errors).items),
    decreases remaining(s, k), 9nat,
{
    let cur = token_at(s, k);
    if !(cur.kind == TokenType::RBrace || cur.kind == TokenType::Eof) {
        let first = parse_statement(s, k, errors);
        lemma_statement(s, k, errors);
        lemma_block_loop(
            s,
            k + first.used + 1,
            appended(items, first.node),
            first.errors,
        );
        if first.errors.len() == errors.len() && complete_statements(items) {
            lemma_appended_complete(items, first.node);
        }
    }
}

/// A statement: a failure is recorded, and without a new error the
/// statement is complete.
pub proof fn lemma_statement(s: Seq<TokenView>, k: int, errors: Seq<Seq<char>>)
    ensures
        recorded(errors, parse_statement(s, k, errors)),
        parse_statement(s, k, errors).errors.len() == errors.len() ==> complete_statement(
            parse_statement(s, k, errors).node.unwrap(),
        ),
    decreases remaining(s, k), 8nat,
{
    match token_at(s, k).kind {
        TokenType::Let => {
            lemma_let_statement(s, k, errors);
        },
        TokenType::Return => {
            lemma_return_statement(s, k, errors);
        },
        _ => {
            lemma_expression_statement(s, k, errors);
        },
    }
}

/// A `let` statement: a failure is recorded, and without a new error the
/// statement is complete.
pub proof fn lemma_let_statement(s: Seq<TokenView>, k: int, errors: Seq<Seq<char>>)
    ensures
        recorded(errors, parse_let_statement(s, k, errors)),
        parse_let_statement(s, k, errors).errors.len() == errors.len() ==> complete_statement(
            parse_let_statement(s, k, errors).node.unwrap(),
        ),
    decreases remaining(s, k), 7nat,
{
    if token_at(s, k + 1).kind == TokenType::Ident && token_at(s, k + 2).kind == TokenType::Assign {
        lemma_expression(s, k + 3, Precedence::Lowest, errors);
    }
}

/// A `return` statement: a failure is recorded, and without a new error
/// the statement is complete.
pub proof fn lemma_return_statement(s: Seq<TokenView>, k: int, errors: Seq<Seq<char>>)
    requires
        token_at(s, k).kind == TokenType::Return,
    ensures
        recorded(errors, parse_return_statement(s, k, errors)),
        parse_return_statement(s, k, errors).errors.len() == errors.len() ==> complete_statement(
            parse_return_statement(s, k, errors).node.unwrap(),
        ),
    decreases remaining(s, k), 7nat,
{
    if token_at(s, k + 1).kind != TokenType::Semicolon {
        lemma_expression(s, k + 1, Precedence::Lowest, errors);
    }
}

/// An expression statement: a failure is recorded, and without a new error
/// the statement is complete.
pub proof fn lemma_expression_statement(s: Seq<TokenView>, k: int, errors: Seq<Seq<char>>)
    ensures
        recorded(errors, parse_expression_statement(s, k, errors)),
        parse_expression_statement(s, k, errors).errors.len() == errors.len()
            ==> complete_statement(parse_expression_statement(s, k, errors).node.unwrap()),
    decreases remaining(s, k), 7nat,
{
    lemma_expression(s, k, Precedence::Lowest, errors);
}

/// The statements of a program: the errors from before them are kept, and
/// without a new error the statements are complete if those before them
/// are.
pub proof fn lemma_program_loop(
    s: Seq<TokenView>,
    i: int,
    items: Seq<StatementView>,
    errors: Seq<Seq<char>>,
)
    ensures
        grows(errors, program_loop(s, i, items, errors).errors),
        program_loop(s, i, items, errors).errors.len() == errors.len() && complete_statements(
            items,
        ) ==> complete_statements(program_loop(s, i, items, errors).items),
    decreases remaining(s, i),
{
    if token_at(s, i).kind != TokenType::Eof {
        let first = parse_statement(s, i, errors);
        lemma_statement(s, i, errors);
        lemma_program_loop(
            s,
            i + first.used + 1,
            appended(items, first.node),
            first.errors,
        );
        if first.errors.len() == errors.len() && complete_statements(items) {
            lemma_appended_complete(items, first.node);
        }
    }
}

/// Parsing a program keeps the errors from before it and comes to the end
/// of the input. Where it records no error, it has failed nowhere, and the
/// program it yields is complete: every statement has its expression, every
/// operator its operands and the spelling of its token, every conditional
/// its condition and first block, every function literal its parameters and
/// body, and every call its callee and arguments.
pub proof fn lemma_clean_parse_is_complete(s: Seq<TokenView>, i: int, errors: Seq<Seq<char>>)
    ensures
        grows(errors, parse_program(s, i, errors).errors),
        token_at(s, i + parse_program(s, i, errors).used).kind == TokenType::Eof,
        parse_program(s, i, errors).errors == errors ==> complete_statements(
            parse_program(s, i, errors).items,
        ),
{
    lemma_program_loop(s, i, Seq::empty(), errors);
    lemma_parse_reaches_end(s, i, Seq::empty(), errors);
}

} // verus!
