use interpreter::lexer::Lexer;
use interpreter::text::{integer_to_string, join, parse_decimal, str_equal};
use interpreter::token::{Token, TokenType};

fn kinds(source: &str) -> Vec<TokenType> {
    let mut lexer = Lexer::new(source.bytes().collect());
    let mut kinds = Vec::new();
    loop {
        let token = lexer.next_token();
        kinds.push(token.token_type);
        if token.token_type == TokenType::Eof {
            return kinds;
        }
    }
}

fn tokens(source: &[u8], count: usize) -> Vec<Token> {
    let mut lexer = Lexer::new(source.to_vec());
    (0..count).map(|_| lexer.next_token()).collect()
}

#[test]
fn every_symbol_has_its_kind() {
    assert_eq!(
        kinds("= + - ! * / == != , ; ( ) { } < >"),
        vec![
            TokenType::Assign,
            TokenType::Plus,
            TokenType::Minus,
            TokenType::Bang,
            TokenType::Asterisk,
            TokenType::Slash,
            TokenType::Eq,
            TokenType::NotEq,
            TokenType::Comma,
            TokenType::Semicolon,
            TokenType::LParen,
            TokenType::RParen,
            TokenType::LBrace,
            TokenType::RBrace,
            TokenType::LT,
            TokenType::RT,
            TokenType::Eof,
        ]
    );
}

#[test]
fn every_reserved_word_has_its_kind() {
    assert_eq!(
        kinds("fn let true false if else return"),
        vec![
            TokenType::Function,
            TokenType::Let,
            TokenType::True,
            TokenType::False,
            TokenType::If,
            TokenType::Else,
            TokenType::Return,
            TokenType::Eof,
        ]
    );
}

#[test]
fn two_byte_operators_are_one_token() {
    assert_eq!(
        kinds("a==b!=c=!d"),
        vec![
            TokenType::Ident,
            TokenType::Eq,
            TokenType::Ident,
            TokenType::NotEq,
            TokenType::Ident,
            TokenType::Assign,
            TokenType::Bang,
            TokenType::Ident,
            TokenType::Eof,
        ]
    );
    assert_eq!(kinds("="), vec![TokenType::Assign, TokenType::Eof]);
    assert_eq!(kinds("!"), vec![TokenType::Bang, TokenType::Eof]);
    assert_eq!(kinds("==="), vec![TokenType::Eq, TokenType::Assign, TokenType::Eof]);
}

#[test]
fn identifiers_hold_letters_and_underscores_only() {
    let found = tokens(b"foo_bar _x abc1 9z", 7);
    assert_eq!(found[0], Token::new(TokenType::Ident, Some("foo_bar".to_string())));
    assert_eq!(found[1], Token::new(TokenType::Ident, Some("_x".to_string())));
    assert_eq!(found[2], Token::new(TokenType::Ident, Some("abc".to_string())));
    assert_eq!(found[3], Token::new(TokenType::Int, Some("1".to_string())));
    assert_eq!(found[4], Token::new(TokenType::Int, Some("9".to_string())));
    assert_eq!(found[5], Token::new(TokenType::Ident, Some("z".to_string())));
    assert_eq!(found[6].token_type, TokenType::Eof);
}

#[test]
fn reserved_words_inside_identifiers_are_no_reserved_words() {
    let found = tokens(b"lets iff fnx", 3);
    assert_eq!(found[0], Token::new(TokenType::Ident, Some("lets".to_string())));
    assert_eq!(found[1], Token::new(TokenType::Ident, Some("iff".to_string())));
    assert_eq!(found[2], Token::new(TokenType::Ident, Some("fnx".to_string())));
}

#[test]
fn integers_keep_their_digits() {
    let found = tokens(b"007 123456789012345678901234567890", 2);
    assert_eq!(found[0].literal, "007");
    assert_eq!(found[1].literal, "123456789012345678901234567890");
    assert_eq!(found[1].token_type, TokenType::Int);
}

#[test]
fn structural_tokens_have_no_text() {
    let found = tokens(b"let + ==", 3);
    assert_eq!(found[0].literal, "");
    assert_eq!(found[1].literal, "");
    assert_eq!(found[2].literal, "");
}

#[test]
fn whitespace_is_skipped() {
    assert_eq!(
        kinds(" \t\r\n let \n\n x\t=\r5 ; "),
        vec![
            TokenType::Let,
            TokenType::Ident,
            TokenType::Assign,
            TokenType::Int,
            TokenType::Semicolon,
            TokenType::Eof,
        ]
    );
}

#[test]
fn unknown_bytes_are_illegal_and_lexing_goes_on() {
    let found = tokens(b"a @ b # \xff 1", 7);
    assert_eq!(found[1].token_type, TokenType::Illegal);
    assert_eq!(found[1].literal, "@");
    assert_eq!(found[2], Token::new(TokenType::Ident, Some("b".to_string())));
    assert_eq!(found[3].token_type, TokenType::Illegal);
    assert_eq!(found[3].literal, "#");
    assert_eq!(found[4].token_type, TokenType::Illegal);
    assert_eq!(found[4].literal, "\u{ff}");
    assert_eq!(found[5], Token::new(TokenType::Int, Some("1".to_string())));
    assert_eq!(found[6].token_type, TokenType::Eof);
}

#[test]
fn end_of_input_repeats() {
    let found = tokens(b"x", 5);
    assert_eq!(found[0].token_type, TokenType::Ident);
    for token in &found[1..] {
        assert_eq!(token.token_type, TokenType::Eof);
    }
    let found = tokens(b"", 3);
    for token in &found {
        assert_eq!(token.token_type, TokenType::Eof);
    }
    let found = tokens(b"   ", 3);
    for token in &found {
        assert_eq!(token.token_type, TokenType::Eof);
    }
}

#[test]
fn a_zero_byte_ends_the_input() {
    let found = tokens(b"a\0b", 4);
    assert_eq!(found[0].token_type, TokenType::Ident);
    assert_eq!(found[1].token_type, TokenType::Eof);
    assert_eq!(found[2].token_type, TokenType::Eof);
    assert_eq!(found[3].token_type, TokenType::Eof);
}

#[test]
fn lexing_twice_gives_the_same_tokens() {
    let source = b"let add = fn(a, b) { a + b }; add(1, 2) != 3 @";
    assert_eq!(tokens(source, 30), tokens(source, 30));
}

#[test]
fn lexer_starts_on_the_first_byte() {
    let lexer = Lexer::new(b"ab".to_vec());
    assert_eq!(lexer.pos, 0);
    assert_eq!(lexer.read_pos, 1);
    assert_eq!(lexer.ch, Some(b'a'));
    let lexer = Lexer::new(Vec::new());
    assert_eq!(lexer.pos, 0);
    assert_eq!(lexer.ch, Some(0));
}

#[test]
fn read_char_moves_on_by_one_also_behind_the_end() {
    let mut lexer = Lexer::new(b"ab".to_vec());
    lexer.read_char();
    assert_eq!((lexer.pos, lexer.read_pos, lexer.ch), (1, 2, Some(b'b')));
    lexer.read_char();
    assert_eq!((lexer.pos, lexer.read_pos, lexer.ch), (2, 3, Some(0)));
    lexer.read_char();
    assert_eq!((lexer.pos, lexer.read_pos, lexer.ch), (3, 4, Some(0)));
    assert_eq!(lexer.next_token().token_type, TokenType::Eof);
    assert_eq!((lexer.pos, lexer.read_pos, lexer.ch), (3, 4, Some(0)));

    let mut lexer = Lexer::new(Vec::new());
    assert_eq!((lexer.pos, lexer.read_pos, lexer.ch), (0, 1, Some(0)));
    lexer.read_char();
    assert_eq!((lexer.pos, lexer.read_pos, lexer.ch), (1, 2, Some(0)));
    lexer.read_char();
    assert_eq!((lexer.pos, lexer.read_pos, lexer.ch), (2, 3, Some(0)));
    assert_eq!(lexer.look_ahead_one(), None);
    assert_eq!(lexer.next_token().token_type, TokenType::Eof);
}

#[test]
fn look_ahead_one_sees_the_next_byte() {
    let mut lexer = Lexer::new(b"ab".to_vec());
    assert_eq!(lexer.look_ahead_one(), Some(b'b'));
    lexer.read_char();
    assert_eq!(lexer.look_ahead_one(), None);
}

#[test]
fn skip_whitespace_stops_on_the_first_other_byte() {
    let mut lexer = Lexer::new(b"  \n\tx  ".to_vec());
    lexer.skip_whitespace();
    assert_eq!(lexer.pos, 4);
    assert_eq!(lexer.ch, Some(b'x'));
    lexer.skip_whitespace();
    assert_eq!(lexer.pos, 4);
}

#[test]
fn read_identifier_leaves_the_cursor_on_the_last_byte() {
    let mut lexer = Lexer::new(b"abc+".to_vec());
    let token = lexer.read_identifier(b'a');
    assert_eq!(token, Token::new(TokenType::Ident, Some("abc".to_string())));
    assert_eq!((lexer.pos, lexer.read_pos), (2, 3));
    let mut lexer = Lexer::new(b"return".to_vec());
    assert_eq!(lexer.read_identifier(b'r').token_type, TokenType::Return);
}

#[test]
fn read_number_leaves_the_cursor_on_the_last_digit() {
    let mut lexer = Lexer::new(b"1234;".to_vec());
    let token = lexer.read_number(b'1');
    assert_eq!(token, Token::new(TokenType::Int, Some("1234".to_string())));
    assert_eq!((lexer.pos, lexer.read_pos), (3, 4));
}

#[test]
fn keyword_tokens() {
    assert_eq!(Lexer::get_keyword_token("fn").unwrap().token_type, TokenType::Function);
    assert_eq!(Lexer::get_keyword_token("let").unwrap().token_type, TokenType::Let);
    assert_eq!(Lexer::get_keyword_token("true").unwrap().token_type, TokenType::True);
    assert_eq!(Lexer::get_keyword_token("false").unwrap().token_type, TokenType::False);
    assert_eq!(Lexer::get_keyword_token("if").unwrap().token_type, TokenType::If);
    assert_eq!(Lexer::get_keyword_token("else").unwrap().token_type, TokenType::Else);
    assert_eq!(Lexer::get_keyword_token("return").unwrap().token_type, TokenType::Return);
    assert!(Lexer::get_keyword_token("Let").is_none());
    assert!(Lexer::get_keyword_token("").is_none());
    assert!(Lexer::get_keyword_token("function").is_none());
}

#[test]
fn token_equality_looks_at_the_text_of_identifiers_and_integers_only() {
    assert_eq!(
        Token::new(TokenType::Plus, None),
        Token::new(TokenType::Plus, Some("+".to_string()))
    );
    assert_eq!(
        Token::new(TokenType::Illegal, Some("@".to_string())),
        Token::new(TokenType::Illegal, Some("#".to_string()))
    );
    assert_ne!(
        Token::new(TokenType::Ident, Some("a".to_string())),
        Token::new(TokenType::Ident, Some("b".to_string()))
    );
    assert_ne!(
        Token::new(TokenType::Int, Some("1".to_string())),
        Token::new(TokenType::Int, Some("01".to_string()))
    );
    assert_ne!(Token::new(TokenType::Plus, None), Token::new(TokenType::Minus, None));
    assert_ne!(
        Token::new(TokenType::Ident, Some("1".to_string())),
        Token::new(TokenType::Int, Some("1".to_string()))
    );
}

#[test]
fn token_new_without_text_has_empty_text() {
    let token = Token::new(TokenType::Let, None);
    assert_eq!(token.token_type, TokenType::Let);
    assert_eq!(token.literal, "");
    let token = Token::new(TokenType::Ident, Some("name".to_string()));
    assert_eq!(token.literal, "name");
    assert_eq!(token.clone().literal, "name");
}

#[test]
fn tokens_print_their_kind_and_text() {
    assert_eq!(Token::new(TokenType::Let, None).to_string(), "Token::Let");
    assert_eq!(
        Token::new(TokenType::Ident, Some("x".to_string())).to_string(),
        "Token::Ident(x)"
    );
    assert_eq!(Token::new(TokenType::Int, Some("10".to_string())).to_string(), "Token::Int(10)");
    assert_eq!(Token::new(TokenType::Illegal, Some("@".to_string())).to_string(), "Token::Illegal");
    assert_eq!(TokenType::RT.to_string(), "Token::RT");
    assert_eq!(TokenType::NotEq.to_string(), "Token::NotEq");
    assert_eq!(TokenType::Eof.to_string(), "Token::Eof");
}

#[test]
fn kinds_have_canonical_spellings() {
    assert_eq!(TokenType::Plus.spelling(), "+");
    assert_eq!(TokenType::Eq.spelling(), "==");
    assert_eq!(TokenType::NotEq.spelling(), "!=");
    assert_eq!(TokenType::RT.spelling(), ">");
    assert_eq!(TokenType::Function.spelling(), "fn");
    assert_eq!(TokenType::Return.spelling(), "return");
    assert_eq!(TokenType::Ident.spelling(), "");
    assert_eq!(TokenType::Eof.spelling(), "");
}

#[test]
fn decimal_texts_are_read_exactly() {
    assert_eq!(parse_decimal("0"), Some(0));
    assert_eq!(parse_decimal("007"), Some(7));
    assert_eq!(parse_decimal("9223372036854775807"), Some(i64::MAX));
    assert_eq!(parse_decimal("9223372036854775808"), None);
    assert_eq!(parse_decimal("99999999999999999999999"), None);
    assert_eq!(parse_decimal(""), None);
    assert_eq!(parse_decimal("12a"), None);
    assert_eq!(parse_decimal("-1"), None);
    assert_eq!(parse_decimal("+1"), None);
    assert_eq!(parse_decimal("1 "), None);
}

#[test]
fn integers_are_written_in_decimal() {
    assert_eq!(integer_to_string(0), "0");
    assert_eq!(integer_to_string(7), "7");
    assert_eq!(integer_to_string(10), "10");
    assert_eq!(integer_to_string(-1), "-1");
    assert_eq!(integer_to_string(1234567890), "1234567890");
    assert_eq!(integer_to_string(i64::MAX), "9223372036854775807");
    assert_eq!(integer_to_string(i64::MIN), "-9223372036854775808");
}

#[test]
fn lists_are_joined_with_the_separator_between() {
    assert_eq!(join(&Vec::new(), ", "), "");
    assert_eq!(join(&vec!["a".to_string()], ", "), "a");
    assert_eq!(join(&vec!["a".to_string(), "b".to_string(), "c".to_string()], ", "), "a, b, c");
    assert_eq!(join(&vec!["".to_string(), "".to_string()], "-"), "-");
}

#[test]
fn texts_are_compared_by_their_characters() {
    assert!(str_equal("abc", "abc"));
    assert!(!str_equal("abc", "abd"));
    assert!(!str_equal("abc", "ab"));
    assert!(str_equal("", ""));
}
