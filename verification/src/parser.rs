//! The parser: a Pratt parser that pulls tokens from a lexer and builds the
//! syntax tree that the grammar assigns to the token sequence.

use std::rc::Rc;
use vstd::prelude::*;
use crate::ast::{
    expression_views, identifier_views, optional_boxed_view, optional_view, statement_views,
    BlockStatement, Bool, CallExpression, Expression, ExpressionStatement, ExpressionView,
    FunctionLiteral, Identifier, IdentifierView, If, Infix, IntegerLiteral, LetStatement, Prefix,
    ProgramStatement, ReturnStatement, Statement, StatementView,
};
use crate::grammar::{
    arguments_loop, block_loop, boxed, expected_message, identifier_at, infix_loop, is_binary,
    level, parameters_loop, parse_block, parse_call_arguments, parse_expression,
    parse_expression_statement, parse_function, parse_function_parameters, parse_if,
    parse_if_blocks, parse_infix, parse_let_statement, parse_prefix, parse_program,
    parse_return_statement, parse_statement, precedence_of, program_loop, remaining,
    starts_expression, Parsed, ParsedList, Precedence,
};
use crate::lexer::{
    cursor_after, lemma_cursor_in_bounds, lemma_token_at_is_nth, scan, token_at, tokens_from,
    Lexer,
};
use crate::text::{parse_decimal, texts};
use crate::token::{bare, Token, TokenType, TokenView};

verus! {

/// A parser over the tokens of a lexer: the current token, the one behind
/// it, and the errors recorded so far.
pub struct Parser {
    lexer: Lexer,
    current_token: Token,
    peek_token: Token,
    pub errors: Vec<String>,
    start: Ghost<int>,
    index: Ghost<nat>,
}

fn rank(p: Precedence) -> (r: u8)
    ensures
        r == level(p),
{
    match p {
        Precedence::Lowest => 0,
        Precedence::Equals => 1,
        Precedence::LessGreater => 2,
        Precedence::Sum => 3,
        Precedence::Product => 4,
        Precedence::Prefix => 5,
        Precedence::Call => 6,
    }
}

fn precedence_for(kind: TokenType) -> (r: Precedence)
    ensures
        r == precedence_of(kind),
{
    match kind {
        TokenType::Eq => Precedence::Equals,
        TokenType::NotEq => Precedence::Equals,
        TokenType::LT => Precedence::LessGreater,
        TokenType::RT => Precedence::LessGreater,
        TokenType::Plus => Precedence::Sum,
        TokenType::Minus => Precedence::Sum,
        TokenType::Slash => Precedence::Product,
        TokenType::Asterisk => Precedence::Product,
        TokenType::LParen => Precedence::Call,
        _ => Precedence::Lowest,
    }
}

fn starts_expression_kind(kind: TokenType) -> (r: bool)
    ensures
        r == starts_expression(kind),
{
    match kind {
        TokenType::Ident | TokenType::Int | TokenType::True | TokenType::False | TokenType::Bang
        | TokenType::Minus | TokenType::LParen | TokenType::If | TokenType::Function => true,
        _ => false,
    }
}

impl Parser {
    /// The bytes that the parser reads.
    pub closed spec fn source(&self) -> Seq<u8> {
        self.lexer.input@
    }

    /// The token sequence that the parser works on: what its lexer had yet
    /// to read when the parser was made.
    #[verifier::opaque]
    pub closed spec fn stream(&self) -> Seq<TokenView> {
        tokens_from(self.lexer.input@, self.start@)
    }

    /// The index of the current token in the token sequence.
    pub closed spec fn position(&self) -> int {
        self.index@ as int
    }

    /// The texts of the errors recorded so far.
    #[verifier::opaque]
    pub closed spec fn messages(&self) -> Seq<Seq<char>> {
        texts(self.errors@)
    }

    /// The parser holds the tokens at its position and behind it, and its
    /// lexer rests behind them.
    #[verifier::opaque]
    pub closed spec fn wf(&self) -> bool {
        &&& self.lexer.wf()
        &&& 0 <= self.start@
        &&& self.current_token@ == token_at(self.stream(), self.index@ as int)
        &&& self.peek_token@ == token_at(self.stream(), self.index@ as int + 1)
        &&& self.lexer.pos == cursor_after(self.lexer.input@, self.start@, (self.index@ + 2) as nat)
    }

    /// The parser has moved on from the state `before` by `used` tokens, and
    /// the errors it holds are `errors`.
    pub open spec fn advanced(&self, before: &Parser, used: nat, errors: Seq<Seq<char>>) -> bool {
        &&& self.wf()
        &&& self.stream() == before.stream()
        &&& self.position() == before.position() + used
        &&& self.messages() == errors
    }

    /// The parser has moved on from the state `before` as the outcome `p`
    /// says, and `node` is what was parsed.
    pub open spec fn produced<T>(&self, before: &Parser, p: Parsed<T>, node: Option<T>) -> bool {
        self.advanced(before, p.used, p.errors) && node == p.node
    }

    /// The parser has moved on from the state `before` as the outcome `p`
    /// says, and `items` are the statements parsed.
    pub open spec fn collected<T>(
        &self,
        before: &Parser,
        p: ParsedList<T>,
        items: Seq<T>,
    ) -> bool {
        self.advanced(before, p.used, p.errors) && items == p.items
    }

    /// The current token.
    pub closed spec fn current(&self) -> TokenView {
        self.current_token@
    }

    /// The token behind the current one.
    pub closed spec fn peek(&self) -> TokenView {
        self.peek_token@
    }

    /// A well-formed parser holds the tokens of its sequence at its position
    /// and behind it.
    pub proof fn lemma_tokens(&self)
        requires
            self.wf(),
        ensures
            self.current() == token_at(self.stream(), self.position()),
            self.peek() == token_at(self.stream(), self.position() + 1),
            self.position() >= 0,
    {
        reveal(Parser::wf);
            reveal(Parser::stream);
            reveal(Parser::messages);
    }

    /// The errors recorded so far.
    pub fn recorded_errors(&self) -> (r: &Vec<String>)
        ensures
            texts(r@) == self.messages(),
    {
        proof {
            reveal(Parser::messages);
        }
        &self.errors
    }

    /// A parser at the start of what the lexer has yet to read, primed with
    /// the first two tokens and without errors.
    pub fn new(lexer: Lexer) -> (parser: Parser)
        requires
            lexer.wf(),
        ensures
            parser.wf(),
            parser.source() == lexer.input@,
            parser.stream() == tokens_from(lexer.input@, lexer.pos as int),
            parser.position() == 0,
            parser.messages() == Seq::<Seq<char>>::empty(),
    {
        proof {
            reveal(Parser::wf);
            reveal(Parser::stream);
            reveal(Parser::messages);
        }
        let ghost input = lexer.input@;
        let ghost start = lexer.pos as int;
        let mut lexer = lexer;
        let current_token = lexer.next_token();
        let peek_token = lexer.next_token();
        proof {
            lemma_token_at_is_nth(input, start, 0);
            lemma_token_at_is_nth(input, start, 1);
            assert(cursor_after(input, start, 2) == scan(
                input,
                cursor_after(input, start, 1),
            ).1);
            assert(cursor_after(input, start, 1) == scan(
                input,
                cursor_after(input, start, 0),
            ).1);
        }
        let parser = Parser {
            lexer,
            current_token,
            peek_token,
            errors: Vec::new(),
            start: Ghost(start),
            index: Ghost(0),
        };
        proof {
            assert(parser.messages() =~= Seq::<Seq<char>>::empty());
        }
        parser
    }

    /// Moves on by one token.
    fn next_token(&mut self)
        requires
            old(self).wf(),
        ensures
            final(self).advanced(old(self), 1, old(self).messages()),
    {
        proof {
            reveal(Parser::wf);
            reveal(Parser::stream);
            reveal(Parser::messages);
            lemma_token_at_is_nth(self.lexer.input@, self.start@, self.index@ + 2);
            lemma_cursor_in_bounds(self.lexer.input@, self.start@, self.index@ + 2);
        }
        self.current_token = self.peek_token.clone();
        self.peek_token = self.lexer.next_token();
        self.index = Ghost((self.index@ + 1) as nat);
    }

    /// Records an error.
    fn record(&mut self, message: String)
        requires
            old(self).wf(),
        ensures
            final(self).advanced(old(self), 0, old(self).messages().push(message@)),
    {
        self.errors.push(message);
        proof {
            reveal(Parser::wf);
            reveal(Parser::stream);
            reveal(Parser::messages);
            assert(self.messages() =~= old(self).messages().push(message@));
        }
    }

    /// Records that the token behind the current one is not of the category
    /// that the grammar asks for.
    fn peek_error(&mut self, token_type: TokenType)
        requires
            old(self).wf(),
        ensures
            final(self).advanced(
                old(self),
                0,
                old(self).messages().push(expected_message(token_type, old(self).peek())),
            ),
    {
        let message = String::from_str("Expected ").concat(token_type.to_string().as_str()).concat(
            " but got ",
        ).concat(self.peek_token.to_string().as_str()).concat(" instead");
        self.record(message);
    }

    /// Moves on to the token behind the current one if it is of the given
    /// category, and records an error if it is not.
    fn expect_peek(&mut self, token_type: TokenType) -> (r: bool)
        requires
            old(self).wf(),
        ensures
            r == (old(self).peek().kind == token_type),
            r ==> final(self).advanced(old(self), 1, old(self).messages()),
            !r ==> final(self).advanced(
                old(self),
                0,
                old(self).messages().push(expected_message(token_type, old(self).peek())),
            ),
    {
        if token_type == self.peek_token.token_type {
            self.next_token();
            true
        } else {
            self.peek_error(token_type);
            false
        }
    }

    /// The binding power of the token behind the current one.
    fn peek_precedence(&self) -> (r: Precedence)
        ensures
            r == precedence_of(self.peek().kind),
    {
        precedence_for(self.peek_token.token_type)
    }

    /// The binding power of the current token.
    fn current_precedence(&self) -> (r: Precedence)
        ensures
            r == precedence_of(self.current().kind),
    {
        precedence_for(self.current_token.token_type)
    }

    /// The identifier node for the current token.
    fn identifier(&self) -> (r: Identifier)
        requires
            self.wf(),
        ensures
            r@ == identifier_at(self.stream(), self.position()),
    {
        proof {
            self.lemma_tokens();
        }
        Identifier { token: self.current_token.clone(), value: self.current_token.literal.clone() }
    }

    /// Parses a name.
    fn parse_identifier(&self) -> (r: Option<Box<Expression>>)
        requires
            self.wf(),
            self.current().kind == TokenType::Ident,
        ensures
            self.produced(
                self,
                parse_prefix(self.stream(), self.position(), self.messages()),
                optional_view(r),
            ),
    {
        proof {
            self.lemma_tokens();
        }
        Some(Box::new(Expression::Identifier(self.identifier())))
    }

    /// Parses an integer literal; digits that denote no 64-bit signed
    /// integer are an error.
    fn parse_integer_literal(&mut self) -> (r: Option<Box<Expression>>)
        requires
            old(self).wf(),
            old(self).current().kind == TokenType::Int,
        ensures
            final(self).produced(
                old(self),
                parse_prefix(old(self).stream(), old(self).position(), old(self).messages()),
                optional_view(r),
            ),
    {
        proof {
            self.lemma_tokens();
        }
        match parse_decimal(self.current_token.literal.as_str()) {
            Some(value) => Some(
                Box::new(
                    Expression::IntegerLiteral(
                        IntegerLiteral { token: self.current_token.clone(), value },
                    ),
                ),
            ),
            None => {
                let message = String::from_str("could not parse ").concat(
                    self.current_token.literal.as_str(),
                ).concat(" as integer");
                self.record(message);
                None
            },
        }
    }

    /// Parses `true` or `false`.
    fn parse_boolean(&self) -> (r: Option<Box<Expression>>)
        requires
            self.wf(),
            self.current().kind == TokenType::True || self.current().kind == TokenType::False,
        ensures
            self.produced(
                self,
                parse_prefix(self.stream(), self.position(), self.messages()),
                optional_view(r),
            ),
    {
        proof {
            self.lemma_tokens();
        }
        let value = self.current_token.token_type == TokenType::True;
        Some(Box::new(Expression::Bool(Bool { token: self.current_token.clone(), value })))
    }

    /// Parses a prefix operator and its operand.
    fn parse_prefix_expression(&mut self) -> (r: Option<Box<Expression>>)
        requires
            old(self).wf(),
            old(self).current().kind == TokenType::Bang || old(self).current().kind
                == TokenType::Minus,
        ensures
            final(self).produced(
                old(self),
                parse_prefix(old(self).stream(), old(self).position(), old(self).messages()),
                optional_view(r),
            ),
        decreases remaining(old(self).stream(), old(self).position()), 4nat,
    {
        proof {
            self.lemma_tokens();
        }
        let token = self.current_token.clone();
        let operator = self.current_token.token_type.spelling();
        self.next_token();
        let right = self.parse_expression(Precedence::Prefix);
        proof {
            assert(optional_boxed_view(right) == boxed(optional_view(right)));
        }
        Some(Box::new(Expression::Prefix(Prefix { token, operator, right })))
    }

    /// Parses an expression in parentheses.
    fn parse_grouped_expression(&mut self) -> (r: Option<Box<Expression>>)
        requires
            old(self).wf(),
            old(self).current().kind == TokenType::LParen,
        ensures
            final(self).produced(
                old(self),
                parse_prefix(old(self).stream(), old(self).position(), old(self).messages()),
                optional_view(r),
            ),
        decreases remaining(old(self).stream(), old(self).position()), 4nat,
    {
        proof {
            self.lemma_tokens();
        }
        self.next_token();
        let inner = self.parse_expression(Precedence::Lowest);
        proof {
            self.lemma_tokens();
        }
        if !self.expect_peek(TokenType::RParen) {
            return None;
        }
        inner
    }

    /// Parses the expression that starts with the current token and is read
    /// without regard to what follows it.
    fn parse_prefix(&mut self) -> (r: Option<Box<Expression>>)
        requires
            old(self).wf(),
        ensures
            final(self).produced(
                old(self),
                parse_prefix(old(self).stream(), old(self).position(), old(self).messages()),
                optional_view(r),
            ),
        decreases remaining(old(self).stream(), old(self).position()), 5nat,
    {
        proof {
            self.lemma_tokens();
        }
        match self.current_token.token_type {
            TokenType::Ident => self.parse_identifier(),
            TokenType::Int => self.parse_integer_literal(),
            TokenType::True | TokenType::False => self.parse_boolean(),
            TokenType::Bang | TokenType::Minus => self.parse_prefix_expression(),
            TokenType::LParen => self.parse_grouped_expression(),
            TokenType::If => self.parse_if_expression(),
            TokenType::Function => self.parse_function_literal(),
            _ => {
                let message = String::from_str("no prefix parse fn for ").concat(
                    self.current_token.token_type.to_string().as_str(),
                );
                self.record(message);
                None
            },
        }
    }

    /// Parses an expression: what starts with the current token, continued
    /// by every operator that binds more strongly than `precedence`.
    fn parse_expression(&mut self, precedence: Precedence) -> (r: Option<Box<Expression>>)
        requires
            old(self).wf(),
        ensures
            final(self).produced(
                old(self),
                parse_expression(
                    old(self).stream(),
                    old(self).position(),
                    precedence,
                    old(self).messages(),
                ),
                optional_view(r),
            ),
        decreases remaining(old(self).stream(), old(self).position()), 6nat,
    {
        let ghost s = self.stream();
        let ghost i = self.position();
        let ghost total = parse_expression(s, i, precedence, self.messages());
        let mut left = match self.parse_prefix() {
            Some(e) => e,
            None => {
                return None;
            },
        };
        while self.peek_token.token_type != TokenType::Semicolon && rank(precedence) < rank(
            self.peek_precedence(),
        )
            invariant
                self.wf(),
                self.stream() == s,
                s == old(self).stream(),
                i == old(self).position(),
                i <= self.position(),
                total.node == infix_loop(
                    s,
                    self.position(),
                    precedence,
                    left@,
                    self.messages(),
                ).node,
                total.used == self.position() - i + infix_loop(
                    s,
                    self.position(),
                    precedence,
                    left@,
                    self.messages(),
                ).used,
                total.errors == infix_loop(
                    s,
                    self.position(),
                    precedence,
                    left@,
                    self.messages(),
                ).errors,
            decreases remaining(s, self.position()),
        {
            proof {
                self.lemma_tokens();
            }
            self.next_token();
            proof {
                self.lemma_tokens();
            }
            left = self.parse_infix(left);
        }
        proof {
            self.lemma_tokens();
        }
        Some(left)
    }

    /// Parses what the current token makes of `left`: a binary operation or
    /// a call.
    fn parse_infix(&mut self, left: Box<Expression>) -> (r: Box<Expression>)
        requires
            old(self).wf(),
            old(self).current().kind == TokenType::LParen || is_binary(old(self).current().kind),
        ensures
            final(self).produced(
                old(self),
                parse_infix(
                    old(self).stream(),
                    old(self).position(),
                    left@,
                    old(self).messages(),
                ),
                Some(r@),
            ),
        decreases remaining(old(self).stream(), old(self).position()), 4nat,
    {
        proof {
            self.lemma_tokens();
        }
        if self.current_token.token_type == TokenType::LParen {
            self.parse_call_expression(left)
        } else {
            self.parse_infix_expression(left)
        }
    }

    /// Parses a binary operator and its right operand, which is what binds
    /// more strongly than the operator itself.
    fn parse_infix_expression(&mut self, left: Box<Expression>) -> (r: Box<Expression>)
        requires
            old(self).wf(),
            is_binary(old(self).current().kind),
        ensures
            final(self).produced(
                old(self),
                parse_infix(
                    old(self).stream(),
                    old(self).position(),
                    left@,
                    old(self).messages(),
                ),
                Some(r@),
            ),
        decreases remaining(old(self).stream(), old(self).position()), 3nat,
    {
        proof {
            self.lemma_tokens();
        }
        let token = self.current_token.clone();
        let operator = self.current_token.token_type.spelling();
        let precedence = self.current_precedence();
        self.next_token();
        let right = self.parse_expression(precedence);
        proof {
            assert(optional_boxed_view(right) == boxed(optional_view(right)));
        }
        Box::new(Expression::Infix(Infix { token, operator, left: Some(left), right }))
    }

    /// Parses a call of `function`, whose opening parenthesis is the current
    /// token.
    fn parse_call_expression(&mut self, function: Box<Expression>) -> (r: Box<Expression>)
        requires
            old(self).wf(),
            old(self).current().kind == TokenType::LParen,
        ensures
            final(self).produced(
                old(self),
                parse_infix(
                    old(self).stream(),
                    old(self).position(),
                    function@,
                    old(self).messages(),
                ),
                Some(r@),
            ),
        decreases remaining(old(self).stream(), old(self).position()), 3nat,
    {
        proof {
            self.lemma_tokens();
        }
        let token = self.current_token.clone();
        let arguments = self.parse_call_arguments();
        Box::new(
            Expression::Call(CallExpression { token, function: Some(function), arguments }),
        )
    }

    /// Parses the arguments of a call, whose opening parenthesis is the
    /// current token.
    fn parse_call_arguments(&mut self) -> (r: Option<Vec<Expression>>)
        requires
            old(self).wf(),
            old(self).current().kind == TokenType::LParen,
        ensures
            final(self).produced(
                old(self),
                parse_call_arguments(
                    old(self).stream(),
                    old(self).position(),
                    old(self).messages(),
                ),
                match r {
                    Some(list) => Some(expression_views(list@)),
                    None => None,
                },
            ),
        decreases remaining(old(self).stream(), old(self).position()), 2nat,
    {
        let ghost s = self.stream();
        let ghost k = self.position();
        let ghost total = parse_call_arguments(s, k, self.messages());
        let mut list: Vec<Expression> = Vec::new();
        proof {
            self.lemma_tokens();
        }
        if self.peek_token.token_type == TokenType::RParen {
            self.next_token();
            proof {
                assert(expression_views(list@) =~= Seq::<ExpressionView>::empty());
            }
            return Some(list);
        }
        self.next_token();
        match self.parse_expression(Precedence::Lowest) {
            Some(e) => {
                list.push(*e);
                proof {
                    assert(expression_views(list@) =~= seq![e@]);
                }
            },
            None => {
                return None;
            },
        }
        while self.peek_token.token_type == TokenType::Comma
            invariant
                self.wf(),
                self.stream() == s,
                s == old(self).stream(),
                k == old(self).position(),
                k < self.position(),
                total == parse_call_arguments(s, k, old(self).messages()),
                total.node == arguments_loop(
                    s,
                    self.position(),
                    expression_views(list@),
                    self.messages(),
                ).node,
                total.used == self.position() - k + arguments_loop(
                    s,
                    self.position(),
                    expression_views(list@),
                    self.messages(),
                ).used,
                total.errors == arguments_loop(
                    s,
                    self.position(),
                    expression_views(list@),
                    self.messages(),
                ).errors,
            decreases remaining(s, self.position()),
        {
            proof {
                self.lemma_tokens();
            }
            self.next_token();
            self.next_token();
            match self.parse_expression(Precedence::Lowest) {
                Some(e) => {
                    let ghost previous = expression_views(list@);
                    list.push(*e);
                    proof {
                        assert(expression_views(list@) =~= previous.push(e@));
                    }
                },
                None => {
                    return None;
                },
            }
        }
        proof {
            self.lemma_tokens();
        }
        if !self.expect_peek(TokenType::RParen) {
            return None;
        }
        Some(list)
    }

    /// Parses a conditional, whose `if` is the current token.
    fn parse_if_expression(&mut self) -> (r: Option<Box<Expression>>)
        requires
            old(self).wf(),
        ensures
            final(self).produced(
                old(self),
                parse_if(old(self).stream(), old(self).position(), old(self).messages()),
                optional_view(r),
            ),
        decreases remaining(old(self).stream(), old(self).position()), 4nat,
    {
        proof {
            self.lemma_tokens();
        }
        let token = self.current_token.clone();
        if !self.expect_peek(TokenType::LParen) {
            return None;
        }
        self.next_token();
        let condition = self.parse_expression(Precedence::Lowest);
        proof {
            self.lemma_tokens();
        }
        if !self.expect_peek(TokenType::RParen) {
            return None;
        }
        proof {
            self.lemma_tokens();
        }
        if !self.expect_peek(TokenType::LBrace) {
            return None;
        }
        proof {
            self.lemma_tokens();
        }
        self.parse_if_blocks(token, condition)
    }

    /// Parses the blocks of a conditional with the given `if` token and
    /// condition; the opening brace of the first block is the current token.
    fn parse_if_blocks(&mut self, token: Token, condition: Option<Box<Expression>>) -> (r: Option<
        Box<Expression>,
    >)
        requires
            old(self).wf(),
            old(self).current().kind == TokenType::LBrace,
        ensures
            final(self).produced(
                old(self),
                parse_if_blocks(
                    old(self).stream(),
                    old(self).position(),
                    token@,
                    optional_view(condition),
                    old(self).messages(),
                ),
                optional_view(r),
            ),
        decreases remaining(old(self).stream(), old(self).position()), 1nat,
    {
        proof {
            self.lemma_tokens();
            assert(optional_boxed_view(condition) == boxed(optional_view(condition)));
        }
        let first = self.parse_block_statement();
        proof {
            self.lemma_tokens();
        }
        if self.peek_token.token_type != TokenType::Else {
            return Some(
                Box::new(
                    Expression::If(If { token, condition, first: Some(first), second: None }),
                ),
            );
        }
        self.next_token();
        proof {
            self.lemma_tokens();
        }
        if !self.expect_peek(TokenType::LBrace) {
            return None;
        }
        proof {
            self.lemma_tokens();
        }
        let second = self.parse_block_statement();
        Some(
            Box::new(
                Expression::If(If { token, condition, first: Some(first), second: Some(second) }),
            ),
        )
    }

    /// Parses the parameter list of a function literal, whose opening
    /// parenthesis is the current token.
    fn parse_function_parameters(&mut self) -> (r: Option<Vec<Identifier>>)
        requires
            old(self).wf(),
        ensures
            final(self).produced(
                old(self),
                parse_function_parameters(
                    old(self).stream(),
                    old(self).position(),
                    old(self).messages(),
                ),
                match r {
                    Some(list) => Some(identifier_views(list@)),
                    None => None,
                },
            ),
    {
        let ghost s = self.stream();
        let ghost k = self.position();
        let ghost total = parse_function_parameters(s, k, self.messages());
        let mut list: Vec<Identifier> = Vec::new();
        proof {
            self.lemma_tokens();
        }
        if self.peek_token.token_type == TokenType::RParen {
            self.next_token();
            proof {
                assert(identifier_views(list@) =~= Seq::<IdentifierView>::empty());
            }
            return Some(list);
        }
        if !self.expect_peek(TokenType::Ident) {
            return None;
        }
        list.push(self.identifier());
        proof {
            assert(identifier_views(list@) =~= seq![identifier_at(s, k + 1)]);
        }
        loop
            invariant
                self.wf(),
                self.stream() == s,
                s == old(self).stream(),
                k == old(self).position(),
                k < self.position(),
                total == parse_function_parameters(s, k, old(self).messages()),
                total.node == parameters_loop(
                    s,
                    self.position(),
                    identifier_views(list@),
                    self.messages(),
                ).node,
                total.used == self.position() - k + parameters_loop(
                    s,
                    self.position(),
                    identifier_views(list@),
                    self.messages(),
                ).used,
                total.errors == parameters_loop(
                    s,
                    self.position(),
                    identifier_views(list@),
                    self.messages(),
                ).errors,
            decreases remaining(s, self.position()),
        {
            proof {
                self.lemma_tokens();
            }
            if self.peek_token.token_type == TokenType::Comma {
                self.next_token();
                proof {
                    self.lemma_tokens();
                }
                if !self.expect_peek(TokenType::Ident) {
                    return None;
                }
                let ghost previous = identifier_views(list@);
                let name = self.identifier();
                list.push(name);
                proof {
                    assert(identifier_views(list@) =~= previous.push(name@));
                }
            } else {
                if !self.expect_peek(TokenType::RParen) {
                    return None;
                }
                return Some(list);
            }
        }
    }

    /// Parses a function literal, whose `fn` is the current token.
    fn parse_function_literal(&mut self) -> (r: Option<Box<Expression>>)
        requires
            old(self).wf(),
        ensures
            final(self).produced(
                old(self),
                parse_function(old(self).stream(), old(self).position(), old(self).messages()),
                optional_view(r),
            ),
        decreases remaining(old(self).stream(), old(self).position()), 4nat,
    {
        proof {
            self.lemma_tokens();
        }
        let token = self.current_token.clone();
        if !self.expect_peek(TokenType::LParen) {
            return None;
        }
        let parameters = match self.parse_function_parameters() {
            Some(list) => list,
            None => {
                return None;
            },
        };
        proof {
            self.lemma_tokens();
        }
        if !self.expect_peek(TokenType::LBrace) {
            return None;
        }
        proof {
            self.lemma_tokens();
        }
        let body = self.parse_block_statement();
        Some(
            Box::new(
                Expression::FunctionLiteral(
                    FunctionLiteral {
                        token,
                        parameters: Some(parameters),
                        body: Some(Rc::new(body)),
                    },
                ),
            ),
        )
    }

    /// Parses a block, whose opening brace is the current token: the
    /// statements up to the closing brace, on which the current token is
    /// left, or up to the end of input.
    fn parse_block_statement(&mut self) -> (r: BlockStatement)
        requires
            old(self).wf(),
            old(self).current().kind == TokenType::LBrace,
        ensures
            final(self).advanced(
                old(self),
                parse_block(old(self).stream(), old(self).position(), old(self).messages()).used,
                parse_block(old(self).stream(), old(self).position(), old(self).messages()).errors,
            ),
            r@ == parse_block(old(self).stream(), old(self).position(), old(self).messages()).block,
        decreases remaining(old(self).stream(), old(self).position()), 0nat,
    {
        let ghost s = self.stream();
        let ghost b = self.position();
        let ghost total = block_loop(s, b + 1, Seq::empty(), self.messages());
        proof {
            self.lemma_tokens();
        }
        let token = self.current_token.clone();
        let mut statements: Vec<Statement> = Vec::new();
        self.next_token();
        proof {
            assert(statement_views(statements@) =~= Seq::<StatementView>::empty());
        }
        while self.current_token.token_type != TokenType::RBrace && self.current_token.token_type
            != TokenType::Eof
            invariant
                self.wf(),
                self.stream() == s,
                s == old(self).stream(),
                b == old(self).position(),
                b < self.position(),
                b < s.len(),
                total.items == block_loop(
                    s,
                    self.position(),
                    statement_views(statements@),
                    self.messages(),
                ).items,
                total.used == self.position() - (b + 1) + block_loop(
                    s,
                    self.position(),
                    statement_views(statements@),
                    self.messages(),
                ).used,
                total.errors == block_loop(
                    s,
                    self.position(),
                    statement_views(statements@),
                    self.messages(),
                ).errors,
            decreases remaining(s, self.position()),
        {
            proof {
                self.lemma_tokens();
            }
            let ghost previous = statement_views(statements@);
            let parsed = self.parse_statement();
            if parsed.is_some() {
                statements.push(parsed.unwrap());
                proof {
                    assert(statement_views(statements@) =~= previous.push(statements@.last()@));
                }
            }
            self.next_token();
        }
        proof {
            self.lemma_tokens();
        }
        BlockStatement { token, statements }
    }

    /// Parses the statement that starts with the current token.
    fn parse_statement(&mut self) -> (r: Option<Statement>)
        requires
            old(self).wf(),
            old(self).current().kind != TokenType::Eof,
        ensures
            final(self).produced(
                old(self),
                parse_statement(old(self).stream(), old(self).position(), old(self).messages()),
                match r {
                    Some(statement) => Some(statement@),
                    None => None,
                },
            ),
        decreases remaining(old(self).stream(), old(self).position()), 8nat,
    {
        proof {
            self.lemma_tokens();
        }
        match self.current_token.token_type {
            TokenType::Let => self.parse_let_statement(),
            TokenType::Return => self.parse_return_statement(),
            _ => self.parse_expression_statement(),
        }
    }

    /// Parses a `let` statement, whose `let` is the current token.
    fn parse_let_statement(&mut self) -> (r: Option<Statement>)
        requires
            old(self).wf(),
            old(self).current().kind == TokenType::Let,
        ensures
            final(self).produced(
                old(self),
                parse_let_statement(
                    old(self).stream(),
                    old(self).position(),
                    old(self).messages(),
                ),
                match r {
                    Some(statement) => Some(statement@),
                    None => None,
                },
            ),
        decreases remaining(old(self).stream(), old(self).position()), 7nat,
    {
        proof {
            self.lemma_tokens();
        }
        if !self.expect_peek(TokenType::Ident) {
            return None;
        }
        let name = self.identifier();
        proof {
            self.lemma_tokens();
        }
        if !self.expect_peek(TokenType::Assign) {
            return None;
        }
        self.next_token();
        let value = match self.parse_expression(Precedence::Lowest) {
            Some(e) => e,
            None => {
                return None;
            },
        };
        let statement = LetStatement {
            token: Token::new(TokenType::Let, None),
            name,
            value: Some(value),
        };
        proof {
            self.lemma_tokens();
        }
        if self.current_token.token_type != TokenType::Semicolon {
            self.next_token();
        }
        Some(Statement::Let(statement))
    }

    /// Parses a `return` statement, whose `return` is the current token.
    fn parse_return_statement(&mut self) -> (r: Option<Statement>)
        requires
            old(self).wf(),
            old(self).current().kind == TokenType::Return,
        ensures
            final(self).produced(
                old(self),
                parse_return_statement(
                    old(self).stream(),
                    old(self).position(),
                    old(self).messages(),
                ),
                match r {
                    Some(statement) => Some(statement@),
                    None => None,
                },
            ),
        decreases remaining(old(self).stream(), old(self).position()), 7nat,
    {
        proof {
            self.lemma_tokens();
        }
        self.next_token();
        proof {
            self.lemma_tokens();
        }
        if !starts_expression_kind(self.current_token.token_type) {
            if self.current_token.token_type != TokenType::Semicolon {
                self.next_token();
            }
            return Some(
                Statement::Return(
                    ReturnStatement {
                        token: Token::new(TokenType::Return, None),
                        return_value: None,
                    },
                ),
            );
        }
        let value = match self.parse_expression(Precedence::Lowest) {
            Some(e) => e,
            None => {
                return None;
            },
        };
        let statement = ReturnStatement {
            token: Token::new(TokenType::Return, None),
            return_value: Some(value),
        };
        proof {
            self.lemma_tokens();
        }
        if self.current_token.token_type != TokenType::Semicolon {
            self.next_token();
        }
        Some(Statement::Return(statement))
    }

    /// Parses an expression statement; a semicolon behind the expression is
    /// consumed with it.
    fn parse_expression_statement(&mut self) -> (r: Option<Statement>)
        requires
            old(self).wf(),
        ensures
            final(self).produced(
                old(self),
                parse_expression_statement(
                    old(self).stream(),
                    old(self).position(),
                    old(self).messages(),
                ),
                match r {
                    Some(statement) => Some(statement@),
                    None => None,
                },
            ),
        decreases remaining(old(self).stream(), old(self).position()), 7nat,
    {
        proof {
            self.lemma_tokens();
        }
        let token = self.current_token.clone();
        let expression = match self.parse_expression(Precedence::Lowest) {
            Some(e) => e,
            None => {
                return None;
            },
        };
        proof {
            self.lemma_tokens();
        }
        if self.peek_token.token_type == TokenType::Semicolon {
            self.next_token();
        }
        Some(Statement::Expression(ExpressionStatement { token, expression: Some(expression) }))
    }

    /// Parses a program: the statements from the current token to the end
    /// of input. What cannot be parsed is recorded in `errors`, and parsing
    /// goes on behind it.
    pub fn parse(&mut self) -> (program: ProgramStatement)
        requires
            old(self).wf(),
        ensures
            final(self).collected(
                old(self),
                parse_program(old(self).stream(), old(self).position(), old(self).messages()),
                program@.body,
            ),
    {
        let ghost s = self.stream();
        let ghost i = self.position();
        let ghost total = parse_program(s, i, self.messages());
        let mut body: Vec<Statement> = Vec::new();
        proof {
            assert(statement_views(body@) =~= Seq::<StatementView>::empty());
        }
        while self.current_token.token_type != TokenType::Eof
            invariant
                self.wf(),
                self.stream() == s,
                s == old(self).stream(),
                i == old(self).position(),
                i <= self.position(),
                total.items == program_loop(
                    s,
                    self.position(),
                    statement_views(body@),
                    self.messages(),
                ).items,
                total.used == self.position() - i + program_loop(
                    s,
                    self.position(),
                    statement_views(body@),
                    self.messages(),
                ).used,
                total.errors == program_loop(
                    s,
                    self.position(),
                    statement_views(body@),
                    self.messages(),
                ).errors,
            decreases remaining(s, self.position()),
        {
            proof {
                self.lemma_tokens();
            }
            let ghost previous = statement_views(body@);
            let parsed = self.parse_statement();
            if parsed.is_some() {
                body.push(parsed.unwrap());
                proof {
                    assert(statement_views(body@) =~= previous.push(body@.last()@));
                }
            }
            self.next_token();
        }
        proof {
            self.lemma_tokens();
        }
        ProgramStatement { body }
    }
}

/// An identifier node without a name whose token is `==`.
pub fn prefix_equal() -> (r: Box<Expression>)
    ensures
        r@ == ExpressionView::Identifier(
            IdentifierView { token: bare(TokenType::Eq), value: Seq::empty() },
        ),
{
    Box::new(
        Expression::Identifier(
            Identifier { token: Token::new(TokenType::Eq, None), value: String::new() },
        ),
    )
}

/// An identifier node without a name whose token is `=`.
pub fn infix_equal() -> (r: Box<Expression>)
    ensures
        r@ == ExpressionView::Identifier(
            IdentifierView { token: bare(TokenType::Assign), value: Seq::empty() },
        ),
{
    Box::new(
        Expression::Identifier(
            Identifier { token: Token::new(TokenType::Assign, None), value: String::new() },
        ),
    )
}

} // verus!
