//! The syntax tree: statements and expressions as closed sums, and the
//! mathematical values that they stand for.

use std::rc::Rc;
use vstd::prelude::*;
use crate::token::{token_text, Token, TokenView};

verus! {

/// What an identifier node is: its token and its name.
pub struct IdentifierView {
    pub token: TokenView,
    pub value: Seq<char>,
}

/// What an expression is, as a mathematical value.
#[allow(inconsistent_fields)]
pub enum ExpressionView {
    Identifier(IdentifierView),
    IntegerLiteral { token: TokenView, value: i64 },
    Bool { token: TokenView, value: bool },
    Prefix { token: TokenView, operator: Seq<char>, right: Option<Box<ExpressionView>> },
    Infix {
        token: TokenView,
        operator: Seq<char>,
        left: Option<Box<ExpressionView>>,
        right: Option<Box<ExpressionView>>,
    },
    If {
        token: TokenView,
        condition: Option<Box<ExpressionView>>,
        first: Option<BlockView>,
        second: Option<BlockView>,
    },
    FunctionLiteral {
        token: TokenView,
        parameters: Option<Seq<IdentifierView>>,
        body: Option<BlockView>,
    },
    Call {
        token: TokenView,
        function: Option<Box<ExpressionView>>,
        arguments: Option<Seq<ExpressionView>>,
    },
}

/// What a block is: its opening token and its statements in order.
pub struct BlockView {
    pub token: TokenView,
    pub statements: Seq<StatementView>,
}

/// What a statement is, as a mathematical value.
pub enum StatementView {
    Let { token: TokenView, name: IdentifierView, value: Option<ExpressionView> },
    Return { token: TokenView, return_value: Option<ExpressionView> },
    Expression { token: TokenView, expression: Option<ExpressionView> },
}

/// What a program is: its statements in order.
pub struct ProgramView {
    pub body: Seq<StatementView>,
}

/// A name reference.
#[derive(Debug)]
pub struct Identifier {
    pub token: Token,
    pub value: String,
}

/// A 64-bit signed integer literal.
#[derive(Debug)]
pub struct IntegerLiteral {
    pub token: Token,
    pub value: i64,
}

/// `true` or `false`.
#[derive(Debug)]
pub struct Bool {
    pub token: Token,
    pub value: bool,
}

/// A prefix operator applied to an operand.
#[derive(Debug)]
pub struct Prefix {
    pub token: Token,
    pub operator: String,
    pub right: Option<Box<Expression>>,
}

/// A binary operator between two operands.
#[derive(Debug)]
pub struct Infix {
    pub token: Token,
    pub operator: String,
    pub left: Option<Box<Expression>>,
    pub right: Option<Box<Expression>>,
}

/// A conditional: a condition, a consequent and an optional alternative.
#[derive(Debug)]
pub struct If {
    pub token: Token,
    pub condition: Option<Box<Expression>>,
    pub first: Option<BlockStatement>,
    pub second: Option<BlockStatement>,
}

/// A function literal: parameters and a body, which closures share.
#[derive(Debug)]
pub struct FunctionLiteral {
    pub token: Token,
    pub parameters: Option<Vec<Identifier>>,
    pub body: Option<Rc<BlockStatement>>,
}

/// A call: a callee and its arguments in order.
#[derive(Debug)]
pub struct CallExpression {
    pub token: Token,
    pub function: Option<Box<Expression>>,
    pub arguments: Option<Vec<Expression>>,
}

/// An expression.
#[derive(Debug)]
pub enum Expression {
    Identifier(Identifier),
    IntegerLiteral(IntegerLiteral),
    Bool(Bool),
    Prefix(Prefix),
    Infix(Infix),
    If(If),
    FunctionLiteral(FunctionLiteral),
    Call(CallExpression),
}

/// A sequence of statements between braces.
#[derive(Debug)]
pub struct BlockStatement {
    pub token: Token,
    pub statements: Vec<Statement>,
}

/// `let name = value`.
#[derive(Debug)]
pub struct LetStatement {
    pub token: Token,
    pub name: Identifier,
    pub value: Option<Box<Expression>>,
}

/// `return value`, where the value may be absent.
#[derive(Debug)]
pub struct ReturnStatement {
    pub token: Token,
    pub return_value: Option<Box<Expression>>,
}

/// An expression used for its value.
#[derive(Debug)]
pub struct ExpressionStatement {
    pub token: Token,
    pub expression: Option<Box<Expression>>,
}

/// A statement.
#[derive(Debug)]
pub enum Statement {
    Let(LetStatement),
    Return(ReturnStatement),
    Expression(ExpressionStatement),
}

/// A program: the root of the tree.
#[derive(Debug)]
pub struct ProgramStatement {
    pub body: Vec<Statement>,
}

impl View for Identifier {
    type V = IdentifierView;

    open spec fn view(&self) -> IdentifierView {
        IdentifierView { token: self.token@, value: self.value@ }
    }
}

/// The values of a list of identifiers.
pub open spec fn identifier_views(list: Seq<Identifier>) -> Seq<IdentifierView> {
    Seq::new(list.len(), |i: int| list[i]@)
}

/// The value of an expression.
pub open spec fn expression_view(e: Expression) -> ExpressionView
    decreases e,
{
    match e {
        Expression::Identifier(n) => ExpressionView::Identifier(n@),
        Expression::IntegerLiteral(n) => ExpressionView::IntegerLiteral {
            token: n.token@,
            value: n.value,
        },
        Expression::Bool(n) => ExpressionView::Bool { token: n.token@, value: n.value },
        Expression::Prefix(n) => ExpressionView::Prefix {
            token: n.token@,
            operator: n.operator@,
            right: optional_boxed_view(n.right),
        },
        Expression::Infix(n) => ExpressionView::Infix {
            token: n.token@,
            operator: n.operator@,
            left: optional_boxed_view(n.left),
            right: optional_boxed_view(n.right),
        },
        Expression::If(n) => ExpressionView::If {
            token: n.token@,
            condition: optional_boxed_view(n.condition),
            first: match n.first {
                Some(b) => Some(block_view(b)),
                None => None,
            },
            second: match n.second {
                Some(b) => Some(block_view(b)),
                None => None,
            },
        },
        Expression::FunctionLiteral(n) => ExpressionView::FunctionLiteral {
            token: n.token@,
            parameters: match n.parameters {
                Some(list) => Some(identifier_views(list@)),
                None => None,
            },
            body: match n.body {
                Some(b) => Some(block_view(*b)),
                None => None,
            },
        },
        Expression::Call(n) => ExpressionView::Call {
            token: n.token@,
            function: optional_boxed_view(n.function),
            arguments: match n.arguments {
                Some(list) => Some(expression_views(list@)),
                None => None,
            },
        },
    }
}

/// The value of an optional expression.
pub open spec fn optional_view(e: Option<Box<Expression>>) -> Option<ExpressionView>
    decreases e,
{
    match e {
        Some(inner) => Some(expression_view(*inner)),
        None => None,
    }
}

/// The value of an optional expression, boxed as a part of a larger one.
pub open spec fn optional_boxed_view(e: Option<Box<Expression>>) -> Option<Box<ExpressionView>>
    decreases e,
{
    match e {
        Some(inner) => Some(Box::new(expression_view(*inner))),
        None => None,
    }
}

/// The values of a list of expressions.
pub open spec fn expression_views(list: Seq<Expression>) -> Seq<ExpressionView>
    decreases list,
{
    Seq::new(
        list.len(),
        |i: int|
            if 0 <= i < list.len() {
                expression_view(list[i])
            } else {
                arbitrary()
            },
    )
}

/// The values of a list of statements.
pub open spec fn statement_views(list: Seq<Statement>) -> Seq<StatementView>
    decreases list,
{
    Seq::new(
        list.len(),
        |i: int|
            if 0 <= i < list.len() {
                statement_view(list[i])
            } else {
                arbitrary()
            },
    )
}

/// The value of a block.
pub open spec fn block_view(b: BlockStatement) -> BlockView
    decreases b,
{
    BlockView { token: b.token@, statements: statement_views(b.statements@) }
}

/// The value of a statement.
pub open spec fn statement_view(s: Statement) -> StatementView
    decreases s,
{
    match s {
        Statement::Let(n) => StatementView::Let {
            token: n.token@,
            name: n.name@,
            value: optional_view(n.value),
        },
        Statement::Return(n) => StatementView::Return {
            token: n.token@,
            return_value: optional_view(n.return_value),
        },
        Statement::Expression(n) => StatementView::Expression {
            token: n.token@,
            expression: optional_view(n.expression),
        },
    }
}

impl View for Expression {
    type V = ExpressionView;

    open spec fn view(&self) -> ExpressionView {
        expression_view(*self)
    }
}

impl View for BlockStatement {
    type V = BlockView;

    open spec fn view(&self) -> BlockView {
        block_view(*self)
    }
}

impl View for Statement {
    type V = StatementView;

    open spec fn view(&self) -> StatementView {
        statement_view(*self)
    }
}

impl View for ProgramStatement {
    type V = ProgramView;

    open spec fn view(&self) -> ProgramView {
        ProgramView { body: statement_views(self.body@) }
    }
}

/// The text of a token between square brackets.
pub open spec fn bracketed(token: TokenView) -> Seq<char> {
    "["@ + token_text(token) + "]"@
}

/// The token of a statement.
pub open spec fn statement_token(s: StatementView) -> TokenView {
    match s {
        StatementView::Let { token, .. } => token,
        StatementView::Return { token, .. } => token,
        StatementView::Expression { token, .. } => token,
    }
}

/// The token of an expression.
pub open spec fn expression_token(e: ExpressionView) -> TokenView {
    match e {
        ExpressionView::Identifier(n) => n.token,
        ExpressionView::IntegerLiteral { token, .. } => token,
        ExpressionView::Bool { token, .. } => token,
        ExpressionView::Prefix { token, .. } => token,
        ExpressionView::Infix { token, .. } => token,
        ExpressionView::If { token, .. } => token,
        ExpressionView::FunctionLiteral { token, .. } => token,
        ExpressionView::Call { token, .. } => token,
    }
}

fn bracket(token: &Token) -> (r: String)
    ensures
        r@ == bracketed(token@),
{
    String::from_str("[").concat(token.to_string().as_str()).concat("]")
}

/// A node of the syntax tree.
pub trait Node {
    /// The text by which the node is known in diagnostics.
    spec fn literal(&self) -> Seq<char>;

    /// The text by which the node is known in diagnostics: for a program
    /// `[Program]`, for any other node its token between square brackets.
    fn token_literal(&self) -> (r: String)
        ensures
            r@ == self.literal(),
    ;
}

impl Node for Identifier {
    open spec fn literal(&self) -> Seq<char> {
        bracketed(self.token@)
    }

    fn token_literal(&self) -> (r: String) {
        bracket(&self.token)
    }
}

impl Node for IntegerLiteral {
    open spec fn literal(&self) -> Seq<char> {
        bracketed(self.token@)
    }

    fn token_literal(&self) -> (r: String) {
        bracket(&self.token)
    }
}

impl Node for Bool {
    open spec fn literal(&self) -> Seq<char> {
        bracketed(self.token@)
    }

    fn token_literal(&self) -> (r: String) {
        bracket(&self.token)
    }
}

impl Node for Prefix {
    open spec fn literal(&self) -> Seq<char> {
        bracketed(self.token@)
    }

    fn token_literal(&self) -> (r: String) {
        bracket(&self.token)
    }
}

impl Node for Infix {
    open spec fn literal(&self) -> Seq<char> {
        bracketed(self.token@)
    }

    fn token_literal(&self) -> (r: String) {
        bracket(&self.token)
    }
}

impl Node for If {
    open spec fn literal(&self) -> Seq<char> {
        bracketed(self.token@)
    }

    fn token_literal(&self) -> (r: String) {
        bracket(&self.token)
    }
}

impl Node for FunctionLiteral {
    open spec fn literal(&self) -> Seq<char> {
        bracketed(self.token@)
    }

    fn token_literal(&self) -> (r: String) {
        bracket(&self.token)
    }
}

impl Node for CallExpression {
    open spec fn literal(&self) -> Seq<char> {
        bracketed(self.token@)
    }

    fn token_literal(&self) -> (r: String) {
        bracket(&self.token)
    }
}

impl Node for Expression {
    open spec fn literal(&self) -> Seq<char> {
        bracketed(expression_token(self@))
    }

    fn token_literal(&self) -> (r: String) {
        match self {
            Expression::Identifier(n) => bracket(&n.token),
            Expression::IntegerLiteral(n) => bracket(&n.token),
            Expression::Bool(n) => bracket(&n.token),
            Expression::Prefix(n) => bracket(&n.token),
            Expression::Infix(n) => bracket(&n.token),
            Expression::If(n) => bracket(&n.token),
            Expression::FunctionLiteral(n) => bracket(&n.token),
            Expression::Call(n) => bracket(&n.token),
        }
    }
}

impl Node for BlockStatement {
    open spec fn literal(&self) -> Seq<char> {
        bracketed(self.token@)
    }

    fn token_literal(&self) -> (r: String) {
        bracket(&self.token)
    }
}

impl Node for LetStatement {
    open spec fn literal(&self) -> Seq<char> {
        bracketed(self.token@)
    }

    fn token_literal(&self) -> (r: String) {
        bracket(&self.token)
    }
}

impl Node for ReturnStatement {
    open spec fn literal(&self) -> Seq<char> {
        bracketed(self.token@)
    }

    fn token_literal(&self) -> (r: String) {
        bracket(&self.token)
    }
}

impl Node for ExpressionStatement {
    open spec fn literal(&self) -> Seq<char> {
        bracketed(self.token@)
    }

    fn token_literal(&self) -> (r: String) {
        bracket(&self.token)
    }
}

impl Node for Statement {
    open spec fn literal(&self) -> Seq<char> {
        bracketed(statement_token(self@))
    }

    fn token_literal(&self) -> (r: String) {
        match self {
            Statement::Let(n) => bracket(&n.token),
            Statement::Return(n) => bracket(&n.token),
            Statement::Expression(n) => bracket(&n.token),
        }
    }
}

impl Node for ProgramStatement {
    open spec fn literal(&self) -> Seq<char> {
        "[Program]"@
    }

    fn token_literal(&self) -> (r: String) {
        String::from_str("[Program]")
    }
}

} // verus!
