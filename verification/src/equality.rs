//! Equality of syntax trees: two trees are equal if they have the same
//! shape and equal parts throughout, where tokens are equal as tokens are.

use vstd::prelude::*;
use vstd::std_specs::cmp::PartialEqSpecImpl;
use crate::ast::{
    expression_views, identifier_views, optional_boxed_view, optional_view, statement_views,
    BlockStatement, BlockView, Bool, CallExpression, Expression, ExpressionStatement,
    ExpressionView, FunctionLiteral, Identifier, IdentifierView, If, Infix, IntegerLiteral,
    LetStatement, Prefix, ProgramStatement, ReturnStatement, Statement, StatementView,
};
use crate::token::same_token;

verus! {

/// Whether two identifier nodes are equal.
pub open spec fn same_identifier(a: IdentifierView, b: IdentifierView) -> bool {
    same_token(a.token, b.token) && a.value == b.value
}

/// Whether two lists of identifier nodes are equal.
pub open spec fn same_identifiers(a: Seq<IdentifierView>, b: Seq<IdentifierView>) -> bool {
    a.len() == b.len() && forall|i: int| 0 <= i < a.len() ==> same_identifier(a[i], b[i])
}

/// Whether two expressions are equal.
pub open spec fn same_expression(a: ExpressionView, b: ExpressionView) -> bool
    decreases a,
{
    match a {
        ExpressionView::Identifier(x) => match b {
            ExpressionView::Identifier(y) => same_identifier(x, y),
            _ => false,
        },
        ExpressionView::IntegerLiteral { token, value } => match b {
            ExpressionView::IntegerLiteral { token: other, value: second } => same_token(
                token,
                other,
            ) && value == second,
            _ => false,
        },
        ExpressionView::Bool { token, value } => match b {
            ExpressionView::Bool { token: other, value: second } => same_token(token, other)
                && value == second,
            _ => false,
        },
        ExpressionView::Prefix { token, operator, right } => match b {
            ExpressionView::Prefix { token: other, operator: second, right: operand } => {
                &&& same_token(token, other)
                &&& operator == second
                &&& same_optional(right, operand)
            },
            _ => false,
        },
        ExpressionView::Infix { token, operator, left, right } => match b {
            ExpressionView::Infix {
                token: other,
                operator: second,
                left: first,
                right: operand,
            } => {
                &&& same_token(token, other)
                &&& operator == second
                &&& same_optional(left, first)
                &&& same_optional(right, operand)
            },
            _ => false,
        },
        ExpressionView::If { token, condition, first, second } => match b {
            ExpressionView::If {
                token: other,
                condition: test,
                first: then,
                second: otherwise,
            } => {
                &&& same_token(token, other)
                &&& same_optional(condition, test)
                &&& same_optional_block(first, then)
                &&& same_optional_block(second, otherwise)
            },
            _ => false,
        },
        ExpressionView::FunctionLiteral { token, parameters, body } => match b {
            ExpressionView::FunctionLiteral { token: other, parameters: names, body: block } => {
                &&& same_token(token, other)
                &&& match (parameters, names) {
                    (Some(x), Some(y)) => same_identifiers(x, y),
                    (None, None) => true,
                    _ => false,
                }
                &&& same_optional_block(body, block)
            },
            _ => false,
        },
        ExpressionView::Call { token, function, arguments } => match b {
            ExpressionView::Call { token: other, function: callee, arguments: list } => {
                &&& same_token(token, other)
                &&& same_optional(function, callee)
                &&& match arguments {
                    Some(x) => match list {
                        Some(y) => same_expressions(x, y),
                        None => false,
                    },
                    None => list is None,
                }
            },
            _ => false,
        },
    }
}

/// Whether two optional expressions are equal.
pub open spec fn same_optional(
    a: Option<Box<ExpressionView>>,
    b: Option<Box<ExpressionView>>,
) -> bool
    decreases a,
{
    match a {
        Some(x) => match b {
            Some(y) => same_expression(*x, *y),
            None => false,
        },
        None => b is None,
    }
}

/// Whether two lists of expressions are equal.
pub open spec fn same_expressions(a: Seq<ExpressionView>, b: Seq<ExpressionView>) -> bool
    decreases a,
{
    a.len() == b.len() && forall|i: int| 0 <= i < a.len() ==> same_expression(a[i], b[i])
}

/// Whether two optional blocks are equal.
pub open spec fn same_optional_block(a: Option<BlockView>, b: Option<BlockView>) -> bool
    decreases a,
{
    match a {
        Some(x) => match b {
            Some(y) => same_block(x, y),
            None => false,
        },
        None => b is None,
    }
}

/// Whether two blocks are equal.
pub open spec fn same_block(a: BlockView, b: BlockView) -> bool
    decreases a,
{
    same_token(a.token, b.token) && same_statements(a.statements, b.statements)
}

/// Whether two lists of statements are equal.
pub open spec fn same_statements(a: Seq<StatementView>, b: Seq<StatementView>) -> bool
    decreases a,
{
    a.len() == b.len() && forall|i: int| 0 <= i < a.len() ==> same_statement(a[i], b[i])
}

/// Whether two optional expressions of statements are equal.
pub open spec fn same_optional_value(a: Option<ExpressionView>, b: Option<ExpressionView>) -> bool
    decreases a,
{
    match a {
        Some(x) => match b {
            Some(y) => same_expression(x, y),
            None => false,
        },
        None => b is None,
    }
}

/// Whether two statements are equal.
pub open spec fn same_statement(a: StatementView, b: StatementView) -> bool
    decreases a,
{
    match a {
        StatementView::Let { token, name, value } => match b {
            StatementView::Let { token: other, name: second, value: expression } => {
                &&& same_token(token, other)
                &&& same_identifier(name, second)
                &&& same_optional_value(value, expression)
            },
            _ => false,
        },
        StatementView::Return { token, return_value } => match b {
            StatementView::Return { token: other, return_value: expression } => same_token(
                token,
                other,
            ) && same_optional_value(return_value, expression),
            _ => false,
        },
        StatementView::Expression { token, expression } => match b {
            StatementView::Expression { token: other, expression: second } => same_token(
                token,
                other,
            ) && same_optional_value(expression, second),
            _ => false,
        },
    }
}

/// Every expression is equal to itself, and equality of expressions is
/// symmetric.
pub proof fn lemma_same_expression(a: ExpressionView, b: ExpressionView)
    ensures
        same_expression(a, a),
        same_expression(a, b) == same_expression(b, a),
    decreases a,
{
    match a {
        ExpressionView::Prefix { right, .. } => {
            match b {
                ExpressionView::Prefix { right: operand, .. } => {
                    lemma_same_optional(right, operand);
                },
                _ => {
                    lemma_same_optional(right, None);
                },
            }
        },
        ExpressionView::Infix { left, right, .. } => {
            match b {
                ExpressionView::Infix { left: first, right: operand, .. } => {
                    lemma_same_optional(left, first);
                    lemma_same_optional(right, operand);
                },
                _ => {
                    lemma_same_optional(left, None);
                    lemma_same_optional(right, None);
                },
            }
        },
        ExpressionView::If { condition, first, second, .. } => {
            match b {
                ExpressionView::If { condition: test, first: then, second: otherwise, .. } => {
                    lemma_same_optional(condition, test);
                    lemma_same_optional_block(first, then);
                    lemma_same_optional_block(second, otherwise);
                },
                _ => {
                    lemma_same_optional(condition, None);
                    lemma_same_optional_block(first, None);
                    lemma_same_optional_block(second, None);
                },
            }
        },
        ExpressionView::FunctionLiteral { body, .. } => {
            match b {
                ExpressionView::FunctionLiteral { body: block, .. } => {
                    lemma_same_optional_block(body, block);
                },
                _ => {
                    lemma_same_optional_block(body, None);
                },
            }
        },
        ExpressionView::Call { function, arguments, .. } => {
            match b {
                ExpressionView::Call { function: callee, arguments: list, .. } => {
                    lemma_same_optional(function, callee);
                    match (arguments, list) {
                        (Some(x), Some(y)) => {
                            lemma_same_expressions(x, y);
                        },
                        (Some(x), None) => {
                            lemma_same_expressions(x, x);
                        },
                        _ => {},
                    }
                },
                _ => {
                    lemma_same_optional(function, None);
                    match arguments {
                        Some(x) => {
                            lemma_same_expressions(x, x);
                        },
                        None => {},
                    }
                },
            }
        },
        _ => {},
    }
}

/// Every optional expression is equal to itself, and equality of optional
/// expressions is symmetric.
pub proof fn lemma_same_optional(a: Option<Box<ExpressionView>>, b: Option<Box<ExpressionView>>)
    ensures
        same_optional(a, a),
        same_optional(a, b) == same_optional(b, a),
    decreases a,
{
    match a {
        Some(x) => match b {
            Some(y) => {
                lemma_same_expression(*x, *y);
            },
            None => {
                lemma_same_expression(*x, *x);
            },
        },
        None => {},
    }
}

/// Every list of expressions is equal to itself, and equality of lists of
/// expressions is symmetric.
pub proof fn lemma_same_expressions(a: Seq<ExpressionView>, b: Seq<ExpressionView>)
    ensures
        same_expressions(a, a),
        same_expressions(a, b) == same_expressions(b, a),
    decreases a,
{
    assert forall|i: int| 0 <= i < a.len() implies same_expression(a[i], a[i]) by {
        lemma_same_expression(a[i], a[i]);
    }
    if a.len() == b.len() {
        assert forall|i: int| 0 <= i < a.len() implies same_expression(a[i], b[i])
            == same_expression(b[i], a[i]) by {
            lemma_same_expression(a[i], b[i]);
        }
    }
}

/// Every optional block is equal to itself, and equality of optional blocks
/// is symmetric.
pub proof fn lemma_same_optional_block(a: Option<BlockView>, b: Option<BlockView>)
    ensures
        same_optional_block(a, a),
        same_optional_block(a, b) == same_optional_block(b, a),
    decreases a,
{
    match a {
        Some(x) => match b {
            Some(y) => {
                lemma_same_statements(x.statements, y.statements);
            },
            None => {
                lemma_same_statements(x.statements, x.statements);
            },
        },
        None => {},
    }
}

/// Every list of statements is equal to itself, and equality of lists of
/// statements is symmetric.
pub proof fn lemma_same_statements(a: Seq<StatementView>, b: Seq<StatementView>)
    ensures
        same_statements(a, a),
        same_statements(a, b) == same_statements(b, a),
    decreases a,
{
    assert forall|i: int| 0 <= i < a.len() implies same_statement(a[i], a[i]) by {
        lemma_same_statement(a[i], a[i]);
    }
    if a.len() == b.len() {
        assert forall|i: int| 0 <= i < a.len() implies same_statement(a[i], b[i])
            == same_statement(b[i], a[i]) by {
            lemma_same_statement(a[i], b[i]);
        }
    }
}

/// Every statement is equal to itself, and equality of statements is
/// symmetric.
pub proof fn lemma_same_statement(a: StatementView, b: StatementView)
    ensures
        same_statement(a, a),
        same_statement(a, b) == same_statement(b, a),
    decreases a,
{
    let x = match a {
        StatementView::Let { value, .. } => value,
        StatementView::Return { return_value, .. } => return_value,
        StatementView::Expression { expression, .. } => expression,
    };
    let y = match b {
        StatementView::Let { value, .. } => value,
        StatementView::Return { return_value, .. } => return_value,
        StatementView::Expression { expression, .. } => expression,
    };
    match x {
        Some(e) => match y {
            Some(f) => {
                lemma_same_expression(e, f);
            },
            None => {
                lemma_same_expression(e, e);
            },
        },
        None => {},
    }
}

/// Equality of expressions is transitive.
pub proof fn lemma_same_expression_transitive(
    a: ExpressionView,
    b: ExpressionView,
    c: ExpressionView,
)
    requires
        same_expression(a, b),
        same_expression(b, c),
    ensures
        same_expression(a, c),
    decreases a,
{
    match (a, b, c) {
        (
            ExpressionView::Prefix { right: x, .. },
            ExpressionView::Prefix { right: y, .. },
            ExpressionView::Prefix { right: z, .. },
        ) => {
            lemma_same_optional_transitive(x, y, z);
        },
        (
            ExpressionView::Infix { left: l, right: x, .. },
            ExpressionView::Infix { left: m, right: y, .. },
            ExpressionView::Infix { left: n, right: z, .. },
        ) => {
            lemma_same_optional_transitive(l, m, n);
            lemma_same_optional_transitive(x, y, z);
        },
        (
            ExpressionView::If { condition: x, first: f, second: g, .. },
            ExpressionView::If { condition: y, first: h, second: k, .. },
            ExpressionView::If { condition: z, first: p, second: q, .. },
        ) => {
            lemma_same_optional_transitive(x, y, z);
            lemma_same_optional_block_transitive(f, h, p);
            lemma_same_optional_block_transitive(g, k, q);
        },
        (
            ExpressionView::FunctionLiteral { body: x, parameters: f, .. },
            ExpressionView::FunctionLiteral { body: y, parameters: g, .. },
            ExpressionView::FunctionLiteral { body: z, parameters: h, .. },
        ) => {
            lemma_same_optional_block_transitive(x, y, z);
        },
        (
            ExpressionView::Call { function: x, arguments: f, .. },
            ExpressionView::Call { function: y, arguments: g, .. },
            ExpressionView::Call { function: z, arguments: h, .. },
        ) => {
            lemma_same_optional_transitive(x, y, z);
            match (f, g, h) {
                (Some(u), Some(v), Some(w)) => {
                    lemma_same_expressions_transitive(u, v, w);
                },
                _ => {},
            }
        },
        _ => {},
    }
}

/// Equality of optional expressions is transitive.
pub proof fn lemma_same_optional_transitive(
    a: Option<Box<ExpressionView>>,
    b: Option<Box<ExpressionView>>,
    c: Option<Box<ExpressionView>>,
)
    requires
        same_optional(a, b),
        same_optional(b, c),
    ensures
        same_optional(a, c),
    decreases a,
{
    match (a, b, c) {
        (Some(x), Some(y), Some(z)) => {
            lemma_same_expression_transitive(*x, *y, *z);
        },
        _ => {},
    }
}

/// Equality of lists of expressions is transitive.
pub proof fn lemma_same_expressions_transitive(
    a: Seq<ExpressionView>,
    b: Seq<ExpressionView>,
    c: Seq<ExpressionView>,
)
    requires
        same_expressions(a, b),
        same_expressions(b, c),
    ensures
        same_expressions(a, c),
    decreases a,
{
    assert forall|i: int| 0 <= i < a.len() implies same_expression(a[i], c[i]) by {
        lemma_same_expression_transitive(a[i], b[i], c[i]);
    }
}

/// Equality of optional blocks is transitive.
pub proof fn lemma_same_optional_block_transitive(
    a: Option<BlockView>,
    b: Option<BlockView>,
    c: Option<BlockView>,
)
    requires
        same_optional_block(a, b),
        same_optional_block(b, c),
    ensures
        same_optional_block(a, c),
    decreases a,
{
    match (a, b, c) {
        (Some(x), Some(y), Some(z)) => {
            lemma_same_statements_transitive(x.statements, y.statements, z.statements);
        },
        _ => {},
    }
}

/// Equality of lists of statements is transitive.
pub proof fn lemma_same_statements_transitive(
    a: Seq<StatementView>,
    b: Seq<StatementView>,
    c: Seq<StatementView>,
)
    requires
        same_statements(a, b),
        same_statements(b, c),
    ensures
        same_statements(a, c),
    decreases a,
{
    assert forall|i: int| 0 <= i < a.len() implies same_statement(a[i], c[i]) by {
        lemma_same_statement_transitive(a[i], b[i], c[i]);
    }
}

/// Equality of statements is transitive.
pub proof fn lemma_same_statement_transitive(a: StatementView, b: StatementView, c: StatementView)
    requires
        same_statement(a, b),
        same_statement(b, c),
    ensures
        same_statement(a, c),
    decreases a,
{
    let x = match a {
        StatementView::Let { value, .. } => value,
        StatementView::Return { return_value, .. } => return_value,
        StatementView::Expression { expression, .. } => expression,
    };
    let y = match b {
        StatementView::Let { value, .. } => value,
        StatementView::Return { return_value, .. } => return_value,
        StatementView::Expression { expression, .. } => expression,
    };
    let z = match c {
        StatementView::Let { value, .. } => value,
        StatementView::Return { return_value, .. } => return_value,
        StatementView::Expression { expression, .. } => expression,
    };
    match (x, y, z) {
        (Some(e), Some(f), Some(g)) => {
            lemma_same_expression_transitive(e, f, g);
        },
        _ => {},
    }
}

/// Whether two identifier nodes are equal.
fn identifier_eq(a: &Identifier, b: &Identifier) -> (r: bool)
    ensures
        r == same_identifier(a@, b@),
{
    a.token == b.token && a.value == b.value
}

/// Whether two lists of identifier nodes are equal.
fn identifiers_eq(a: &Vec<Identifier>, b: &Vec<Identifier>) -> (r: bool)
    ensures
        r == same_identifiers(identifier_views(a@), identifier_views(b@)),
{
    if a.len() != b.len() {
        return false;
    }
    let mut i: usize = 0;
    while i < a.len()
        invariant
            0 <= i <= a.len(),
            a.len() == b.len(),
            forall|k: int| 0 <= k < i ==> same_identifier(a@[k]@, b@[k]@),
        decreases a.len() - i,
    {
        if !identifier_eq(&a[i], &b[i]) {
            proof {
                assert(!same_identifier(
                    identifier_views(a@)[i as int],
                    identifier_views(b@)[i as int],
                ));
            }
            return false;
        }
        i = i + 1;
    }
    true
}

/// Whether two integer literals are equal.
fn integer_eq(a: &IntegerLiteral, b: &IntegerLiteral) -> (r: bool)
    ensures
        r == same_expression(Expression::IntegerLiteral(*a)@, Expression::IntegerLiteral(*b)@),
{
    a.token == b.token && a.value == b.value
}

/// Whether two boolean literals are equal.
fn bool_eq(a: &Bool, b: &Bool) -> (r: bool)
    ensures
        r == same_expression(Expression::Bool(*a)@, Expression::Bool(*b)@),
{
    a.token == b.token && a.value == b.value
}

/// Whether two optional expressions are equal.
fn optional_eq(a: &Option<Box<Expression>>, b: &Option<Box<Expression>>) -> (r: bool)
    ensures
        r == same_optional(optional_boxed_view(*a), optional_boxed_view(*b)),
        r == same_optional_value(optional_view(*a), optional_view(*b)),
    decreases a,
{
    match a {
        Some(x) => match b {
            Some(y) => expression_eq(x, y),
            None => false,
        },
        None => b.is_none(),
    }
}

/// Whether two prefix operations are equal.
fn prefix_eq(a: &Prefix, b: &Prefix) -> (r: bool)
    ensures
        r == same_expression(Expression::Prefix(*a)@, Expression::Prefix(*b)@),
    decreases a,
{
    a.token == b.token && a.operator == b.operator && optional_eq(&a.right, &b.right)
}

/// Whether two binary operations are equal.
fn infix_eq(a: &Infix, b: &Infix) -> (r: bool)
    ensures
        r == same_expression(Expression::Infix(*a)@, Expression::Infix(*b)@),
    decreases a,
{
    a.token == b.token && a.operator == b.operator && optional_eq(&a.left, &b.left) && optional_eq(
        &a.right,
        &b.right,
    )
}

/// Whether two optional blocks are equal.
fn optional_block_eq(a: &Option<BlockStatement>, b: &Option<BlockStatement>) -> (r: bool)
    ensures
        r == same_optional_block(
            match *a {
                Some(x) => Some(x@),
                None => None,
            },
            match *b {
                Some(y) => Some(y@),
                None => None,
            },
        ),
    decreases a,
{
    match a {
        Some(x) => match b {
            Some(y) => block_eq(x, y),
            None => false,
        },
        None => b.is_none(),
    }
}

/// Whether two conditionals are equal.
fn if_eq(a: &If, b: &If) -> (r: bool)
    ensures
        r == same_expression(Expression::If(*a)@, Expression::If(*b)@),
    decreases a,
{
    a.token == b.token && optional_eq(&a.condition, &b.condition) && optional_block_eq(
        &a.first,
        &b.first,
    ) && optional_block_eq(&a.second, &b.second)
}

/// Whether two function literals are equal.
fn function_eq(a: &FunctionLiteral, b: &FunctionLiteral) -> (r: bool)
    ensures
        r == same_expression(Expression::FunctionLiteral(*a)@, Expression::FunctionLiteral(*b)@),
    decreases a,
{
    if !(a.token == b.token) {
        return false;
    }
    let parameters = match &a.parameters {
        Some(x) => match &b.parameters {
            Some(y) => identifiers_eq(x, y),
            None => false,
        },
        None => b.parameters.is_none(),
    };
    if !parameters {
        return false;
    }
    match &a.body {
        Some(x) => match &b.body {
            Some(y) => block_eq(x, y),
            None => false,
        },
        None => b.body.is_none(),
    }
}

/// Whether two lists of expressions are equal.
fn expressions_eq(a: &Vec<Expression>, b: &Vec<Expression>) -> (r: bool)
    ensures
        r == same_expressions(expression_views(a@), expression_views(b@)),
    decreases a,
{
    if a.len() != b.len() {
        return false;
    }
    let mut i: usize = 0;
    while i < a.len()
        invariant
            0 <= i <= a.len(),
            a.len() == b.len(),
            forall|k: int| 0 <= k < i ==> same_expression(a@[k]@, b@[k]@),
        decreases a.len() - i,
    {
        if !expression_eq(&a[i], &b[i]) {
            proof {
                assert(!same_expression(
                    expression_views(a@)[i as int],
                    expression_views(b@)[i as int],
                ));
            }
            return false;
        }
        i = i + 1;
    }
    true
}

/// Whether two calls are equal.
fn call_eq(a: &CallExpression, b: &CallExpression) -> (r: bool)
    ensures
        r == same_expression(Expression::Call(*a)@, Expression::Call(*b)@),
    decreases a,
{
    if !(a.token == b.token) {
        return false;
    }
    if !optional_eq(&a.function, &b.function) {
        return false;
    }
    match &a.arguments {
        Some(x) => match &b.arguments {
            Some(y) => expressions_eq(x, y),
            None => false,
        },
        None => b.arguments.is_none(),
    }
}

/// Whether two expressions are equal.
fn expression_eq(a: &Expression, b: &Expression) -> (r: bool)
    ensures
        r == same_expression(a@, b@),
    decreases a,
{
    match a {
        Expression::Identifier(x) => match b {
            Expression::Identifier(y) => identifier_eq(x, y),
            _ => false,
        },
        Expression::IntegerLiteral(x) => match b {
            Expression::IntegerLiteral(y) => integer_eq(x, y),
            _ => false,
        },
        Expression::Bool(x) => match b {
            Expression::Bool(y) => bool_eq(x, y),
            _ => false,
        },
        Expression::Prefix(x) => match b {
            Expression::Prefix(y) => prefix_eq(x, y),
            _ => false,
        },
        Expression::Infix(x) => match b {
            Expression::Infix(y) => infix_eq(x, y),
            _ => false,
        },
        Expression::If(x) => match b {
            Expression::If(y) => if_eq(x, y),
            _ => false,
        },
        Expression::FunctionLiteral(x) => match b {
            Expression::FunctionLiteral(y) => function_eq(x, y),
            _ => false,
        },
        Expression::Call(x) => match b {
            Expression::Call(y) => call_eq(x, y),
            _ => false,
        },
    }
}

/// Whether two lists of statements are equal.
fn statements_eq(a: &Vec<Statement>, b: &Vec<Statement>) -> (r: bool)
    ensures
        r == same_statements(statement_views(a@), statement_views(b@)),
    decreases a,
{
    if a.len() != b.len() {
        return false;
    }
    let mut i: usize = 0;
    while i < a.len()
        invariant
            0 <= i <= a.len(),
            a.len() == b.len(),
            forall|k: int| 0 <= k < i ==> same_statement(a@[k]@, b@[k]@),
        decreases a.len() - i,
    {
        if !statement_eq(&a[i], &b[i]) {
            proof {
                assert(!same_statement(
                    statement_views(a@)[i as int],
                    statement_views(b@)[i as int],
                ));
            }
            return false;
        }
        i = i + 1;
    }
    true
}

/// Whether two blocks are equal.
fn block_eq(a: &BlockStatement, b: &BlockStatement) -> (r: bool)
    ensures
        r == same_block(a@, b@),
    decreases a,
{
    a.token == b.token && statements_eq(&a.statements, &b.statements)
}

/// Whether two `let` statements are equal.
fn let_eq(a: &LetStatement, b: &LetStatement) -> (r: bool)
    ensures
        r == same_statement(Statement::Let(*a)@, Statement::Let(*b)@),
    decreases a,
{
    a.token == b.token && identifier_eq(&a.name, &b.name) && optional_eq(&a.value, &b.value)
}

/// Whether two `return` statements are equal.
fn return_eq(a: &ReturnStatement, b: &ReturnStatement) -> (r: bool)
    ensures
        r == same_statement(Statement::Return(*a)@, Statement::Return(*b)@),
    decreases a,
{
    a.token == b.token && optional_eq(&a.return_value, &b.return_value)
}

/// Whether two expression statements are equal.
fn expression_statement_eq(a: &ExpressionStatement, b: &ExpressionStatement) -> (r: bool)
    ensures
        r == same_statement(Statement::Expression(*a)@, Statement::Expression(*b)@),
    decreases a,
{
    a.token == b.token && optional_eq(&a.expression, &b.expression)
}

/// Whether two statements are equal.
fn statement_eq(a: &Statement, b: &Statement) -> (r: bool)
    ensures
        r == same_statement(a@, b@),
    decreases a,
{
    match a {
        Statement::Let(x) => match b {
            Statement::Let(y) => let_eq(x, y),
            _ => false,
        },
        Statement::Return(x) => match b {
            Statement::Return(y) => return_eq(x, y),
            _ => false,
        },
        Statement::Expression(x) => match b {
            Statement::Expression(y) => expression_statement_eq(x, y),
            _ => false,
        },
    }
}

impl PartialEq for Identifier {
    fn eq(&self, other: &Self) -> (r: bool) {
        identifier_eq(self, other)
    }
}

impl PartialEqSpecImpl for Identifier {
    open spec fn obeys_eq_spec() -> bool {
        true
    }

    open spec fn eq_spec(&self, other: &Self) -> bool {
        same_identifier(self@, other@)
    }
}

impl PartialEq for IntegerLiteral {
    fn eq(&self, other: &Self) -> (r: bool) {
        integer_eq(self, other)
    }
}

impl PartialEqSpecImpl for IntegerLiteral {
    open spec fn obeys_eq_spec() -> bool {
        true
    }

    open spec fn eq_spec(&self, other: &Self) -> bool {
        same_expression(Expression::IntegerLiteral(*self)@, Expression::IntegerLiteral(*other)@)
    }
}

impl PartialEq for Bool {
    fn eq(&self, other: &Self) -> (r: bool) {
        bool_eq(self, other)
    }
}

impl PartialEqSpecImpl for Bool {
    open spec fn obeys_eq_spec() -> bool {
        true
    }

    open spec fn eq_spec(&self, other: &Self) -> bool {
        same_expression(Expression::Bool(*self)@, Expression::Bool(*other)@)
    }
}

impl PartialEq for Prefix {
    fn eq(&self, other: &Self) -> (r: bool) {
        prefix_eq(self, other)
    }
}

impl PartialEqSpecImpl for Prefix {
    open spec fn obeys_eq_spec() -> bool {
        true
    }

    open spec fn eq_spec(&self, other: &Self) -> bool {
        same_expression(Expression::Prefix(*self)@, Expression::Prefix(*other)@)
    }
}

impl PartialEq for Infix {
    fn eq(&self, other: &Self) -> (r: bool) {
        infix_eq(self, other)
    }
}

impl PartialEqSpecImpl for Infix {
    open spec fn obeys_eq_spec() -> bool {
        true
    }

    open spec fn eq_spec(&self, other: &Self) -> bool {
        same_expression(Expression::Infix(*self)@, Expression::Infix(*other)@)
    }
}

impl PartialEq for If {
    fn eq(&self, other: &Self) -> (r: bool) {
        if_eq(self, other)
    }
}

impl PartialEqSpecImpl for If {
    open spec fn obeys_eq_spec() -> bool {
        true
    }

    open spec fn eq_spec(&self, other: &Self) -> bool {
        same_expression(Expression::If(*self)@, Expression::If(*other)@)
    }
}

impl PartialEq for FunctionLiteral {
    fn eq(&self, other: &Self) -> (r: bool) {
        function_eq(self, other)
    }
}

impl PartialEqSpecImpl for FunctionLiteral {
    open spec fn obeys_eq_spec() -> bool {
        true
    }

    open spec fn eq_spec(&self, other: &Self) -> bool {
        same_expression(
            Expression::FunctionLiteral(*self)@,
            Expression::FunctionLiteral(*other)@,
        )
    }
}

impl PartialEq for CallExpression {
    fn eq(&self, other: &Self) -> (r: bool) {
        call_eq(self, other)
    }
}

impl PartialEqSpecImpl for CallExpression {
    open spec fn obeys_eq_spec() -> bool {
        true
    }

    open spec fn eq_spec(&self, other: &Self) -> bool {
        same_expression(Expression::Call(*self)@, Expression::Call(*other)@)
    }
}

impl PartialEq for Expression {
    fn eq(&self, other: &Self) -> (r: bool) {
        expression_eq(self, other)
    }
}

impl PartialEqSpecImpl for Expression {
    open spec fn obeys_eq_spec() -> bool {
        true
    }

    open spec fn eq_spec(&self, other: &Self) -> bool {
        same_expression(self@, other@)
    }
}

impl PartialEq for BlockStatement {
    fn eq(&self, other: &Self) -> (r: bool) {
        block_eq(self, other)
    }
}

impl PartialEqSpecImpl for BlockStatement {
    open spec fn obeys_eq_spec() -> bool {
        true
    }

    open spec fn eq_spec(&self, other: &Self) -> bool {
        same_block(self@, other@)
    }
}

impl PartialEq for LetStatement {
    fn eq(&self, other: &Self) -> (r: bool) {
        let_eq(self, other)
    }
}

impl PartialEqSpecImpl for LetStatement {
    open spec fn obeys_eq_spec() -> bool {
        true
    }

    open spec fn eq_spec(&self, other: &Self) -> bool {
        same_statement(Statement::Let(*self)@, Statement::Let(*other)@)
    }
}

impl PartialEq for ReturnStatement {
    fn eq(&self, other: &Self) -> (r: bool) {
        return_eq(self, other)
    }
}

impl PartialEqSpecImpl for ReturnStatement {
    open spec fn obeys_eq_spec() -> bool {
        true
    }

    open spec fn eq_spec(&self, other: &Self) -> bool {
        same_statement(Statement::Return(*self)@, Statement::Return(*other)@)
    }
}

impl PartialEq for ExpressionStatement {
    fn eq(&self, other: &Self) -> (r: bool) {
        expression_statement_eq(self, other)
    }
}

impl PartialEqSpecImpl for ExpressionStatement {
    open spec fn obeys_eq_spec() -> bool {
        true
    }

    open spec fn eq_spec(&self, other: &Self) -> bool {
        same_statement(Statement::Expression(*self)@, Statement::Expression(*other)@)
    }
}

impl PartialEq for Statement {
    fn eq(&self, other: &Self) -> (r: bool) {
        statement_eq(self, other)
    }
}

impl PartialEqSpecImpl for Statement {
    open spec fn obeys_eq_spec() -> bool {
        true
    }

    open spec fn eq_spec(&self, other: &Self) -> bool {
        same_statement(self@, other@)
    }
}

impl PartialEq for ProgramStatement {
    fn eq(&self, other: &Self) -> (r: bool) {
        statements_eq(&self.body, &other.body)
    }
}

impl PartialEqSpecImpl for ProgramStatement {
    open spec fn obeys_eq_spec() -> bool {
        true
    }

    open spec fn eq_spec(&self, other: &Self) -> bool {
        same_statements(self@.body, other@.body)
    }
}

} // verus!
