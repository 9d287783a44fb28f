use lox::scanner::{scan, Scanner};
use lox::token::{Literal, Token, TokenType};

fn kinds(tokens: &[Token]) -> Vec<TokenType> {
    tokens.iter().map(|t| t.token_type).collect()
}

#[test]
fn empty_source_gives_only_end_of_input() {
    let tokens = scan(String::new());
    assert_eq!(tokens.len(), 1);
    assert_eq!(tokens[0].token_type, TokenType::Eof);
    assert_eq!(tokens[0].lexeme, "");
    assert_eq!(tokens[0].line, 1);
}

#[test]
fn output_ends_with_exactly_one_end_token() {
    let source = "var x = (1 + 2.5) * 3; // note\nprint x >= 2 != !true;";
    let tokens = scan(source.to_string());
    assert_eq!(tokens.last().unwrap().token_type, TokenType::Eof);
    assert_eq!(tokens.iter().filter(|t| t.token_type == TokenType::Eof).count(), 1);
    for t in &tokens[..tokens.len() - 1] {
        assert!(!t.lexeme.is_empty());
        assert!(source.contains(t.lexeme.as_str()));
    }
    for w in tokens.windows(2) {
        assert!(w[0].line <= w[1].line);
    }
}

#[test]
fn two_character_operators_take_the_longest_match() {
    let tokens = scan("! != = == > >= < <= /".to_string());
    assert_eq!(
        kinds(&tokens),
        vec![
            TokenType::Bang,
            TokenType::BangEqual,
            TokenType::Equal,
            TokenType::EqualEqual,
            TokenType::Greater,
            TokenType::GreaterEqual,
            TokenType::Less,
            TokenType::LessEqual,
            TokenType::Slash,
            TokenType::Eof
        ]
    );
}

#[test]
fn comments_and_newlines() {
    let tokens = scan("1 // one\n// two\n2".to_string());
    assert_eq!(kinds(&tokens), vec![TokenType::Number, TokenType::Number, TokenType::Eof]);
    assert_eq!(tokens[0].line, 1);
    assert_eq!(tokens[1].line, 3);
    assert_eq!(tokens[2].line, 3);
}

#[test]
fn keywords_are_case_sensitive() {
    let tokens = scan("var Var orchid or _x print".to_string());
    assert_eq!(
        kinds(&tokens),
        vec![
            TokenType::Var,
            TokenType::Identifier,
            TokenType::Identifier,
            TokenType::Or,
            TokenType::Identifier,
            TokenType::Print,
            TokenType::Eof
        ]
    );
}

#[test]
fn string_literal_holds_the_text_between_quotes() {
    let tokens = scan("\"a\\nb\"".to_string());
    assert_eq!(tokens[0].token_type, TokenType::String);
    assert_eq!(tokens[0].lexeme, "\"a\\nb\"");
    match &tokens[0].literal {
        Some(Literal::String(s)) => assert_eq!(s, "a\\nb"),
        _ => panic!("expected a string literal"),
    }
}

#[test]
fn multi_line_string_counts_lines() {
    let tokens = scan("\"a\nb\" x".to_string());
    assert_eq!(tokens[0].token_type, TokenType::String);
    assert_eq!(tokens[1].line, 2);
}

#[test]
fn unterminated_string_is_reported_and_scanning_goes_on() {
    let mut scanner = Scanner::new("1 \"abc".to_string());
    let tokens = scanner.scan_tokens();
    assert_eq!(kinds(&tokens), vec![TokenType::Number, TokenType::Eof]);
    assert_eq!(scanner.errors().clone(), vec!["[line: 1] Error: Unterminated string.".to_string()]);
}

#[test]
fn unexpected_character_is_reported_and_skipped() {
    let mut scanner = Scanner::new("1 @ 2".to_string());
    let tokens = scanner.scan_tokens();
    assert_eq!(kinds(&tokens), vec![TokenType::Number, TokenType::Number, TokenType::Eof]);
    assert_eq!(scanner.errors().clone(), vec!["[line: 1] Error: Unexpected character.".to_string()]);
}

#[test]
fn number_literals() {
    let tokens = scan("12.5 7".to_string());
    match &tokens[0].literal {
        Some(Literal::Number(n)) => {
            assert_eq!(n.numerator(), 25);
            assert_eq!(n.denominator(), 2);
        },
        _ => panic!("expected a number literal"),
    }
    match &tokens[1].literal {
        Some(Literal::Number(n)) => {
            assert_eq!(n.numerator(), 7);
            assert_eq!(n.denominator(), 1);
        },
        _ => panic!("expected a number literal"),
    }
}

#[test]
fn trailing_dot_is_not_part_of_a_number() {
    let tokens = scan("1.".to_string());
    assert_eq!(kinds(&tokens), vec![TokenType::Number, TokenType::Dot, TokenType::Eof]);
    assert_eq!(tokens[0].lexeme, "1");
}

#[test]
fn number_literal_out_of_range_is_reported() {
    let mut scanner = Scanner::new("99999999999999999999".to_string());
    let tokens = scanner.scan_tokens();
    assert_eq!(kinds(&tokens), vec![TokenType::Eof]);
    assert_eq!(scanner.errors().clone(), vec!["[line: 1] Error: Number literal out of range.".to_string()]);
}

#[test]
fn scanning_twice_gives_the_same_tokens() {
    let mut scanner = Scanner::new("print 1;".to_string());
    let first = scanner.scan_tokens();
    let second = scanner.scan_tokens();
    assert_eq!(kinds(&first), kinds(&second));
    assert_eq!(second.len(), 4);
}

#[test]
fn token_listing() {
    let tokens = scan("x \"s\" 2.5".to_string());
    assert_eq!(tokens[0].to_string(), "IDENTIFIER x nil");
    assert_eq!(tokens[1].to_string(), "STRING \"s\" s");
    assert_eq!(tokens[2].to_string(), "NUMBER 2.5 2.5");
    assert_eq!(tokens[3].to_string(), "EOF  nil");
    let t = Token::new(TokenType::LeftParen, "(".to_string(), None, 4);
    assert_eq!(t.to_string(), "LEFT_PAREN ( nil");
}

#[test]
fn diagnostics_format() {
    assert_eq!(lox::report::error(12, "Bad."), "[line: 12] Error: Bad.");
    let at_end = Token::new(TokenType::Eof, String::new(), None, 3);
    assert_eq!(lox::report::token_error(at_end, "Oops."), "[line: 3] Error at end: Oops.");
    let at_word = Token::new(TokenType::Identifier, "foo".to_string(), None, 0);
    assert_eq!(lox::report::token_error(at_word, "Oops."), "[line: 0] Error at 'foo': Oops.");
}

#[test]
fn long_number_literals_are_read_in_lowest_terms() {
    let tokens = scan("1.0000000000000000000000 000000000000000000000000007".to_string());
    match &tokens[0].literal {
        Some(Literal::Number(n)) => assert_eq!((n.numerator(), n.denominator()), (1, 1)),
        _ => panic!("expected a number literal"),
    }
    match &tokens[1].literal {
        Some(Literal::Number(n)) => assert_eq!((n.numerator(), n.denominator()), (7, 1)),
        _ => panic!("expected a number literal"),
    }
}
