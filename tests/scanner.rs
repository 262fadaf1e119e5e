use lox::lexer::{keyword, LexError, Lexer};
use lox::token::{Literal, Token, TokenType};

fn scan(src: &str) -> (Vec<Token>, Vec<LexError>) {
    Lexer::new(src.to_string()).lex_tokens()
}

fn kinds(tokens: &[Token]) -> Vec<TokenType> {
    tokens.iter().map(|t| t.kind).collect()
}

#[test]
fn blank_source_gives_only_end_of_input() {
    for src in ["", "   ", " \t\r\n", "// just a comment", "  // a\n\t// b\n  "] {
        let (tokens, errors) = scan(src);
        assert_eq!(kinds(&tokens), vec![TokenType::Eof]);
        assert_eq!(tokens[0].lexeme, "");
        assert!(errors.is_empty());
    }
    let (tokens, _) = scan("  // a\n\t// b\n  ");
    assert_eq!(tokens[0].line, 3);
}

#[test]
fn single_punctuation_characters() {
    let cases = [
        ('(', TokenType::LeftParen),
        (')', TokenType::RightParen),
        ('{', TokenType::LeftBrace),
        ('}', TokenType::RightBrace),
        (',', TokenType::Comma),
        ('.', TokenType::Dot),
        ('-', TokenType::Minus),
        ('+', TokenType::Plus),
        (';', TokenType::Semicolon),
        ('*', TokenType::Star),
        ('/', TokenType::Slash),
        ('!', TokenType::Bang),
        ('=', TokenType::Equal),
        ('>', TokenType::Greater),
        ('<', TokenType::Less),
    ];
    for (c, kind) in cases {
        let (tokens, errors) = scan(&c.to_string());
        assert_eq!(kinds(&tokens), vec![kind, TokenType::Eof]);
        assert_eq!(tokens[0].lexeme, c.to_string());
        assert_eq!(tokens[0].literal, None);
        assert!(errors.is_empty());
    }
}

#[test]
fn two_character_operators() {
    let (tokens, _) = scan("!=");
    assert_eq!(kinds(&tokens), vec![TokenType::BangEqual, TokenType::Eof]);
    assert_eq!(tokens[0].lexeme, "!=");
    let (tokens, _) = scan("!");
    assert_eq!(kinds(&tokens), vec![TokenType::Bang, TokenType::Eof]);
    let (tokens, _) = scan("== >= <= = > <");
    assert_eq!(
        kinds(&tokens),
        vec![
            TokenType::EqualEqual,
            TokenType::GreaterEqual,
            TokenType::LessEqual,
            TokenType::Equal,
            TokenType::Greater,
            TokenType::Less,
            TokenType::Eof
        ]
    );
}

fn number_value(t: &Token) -> f64 {
    match &t.literal {
        Some(Literal::Number(s)) => s.parse().unwrap(),
        other => panic!("not a number literal: {:?}", other),
    }
}

#[test]
fn numbers() {
    let (tokens, _) = scan("123");
    assert_eq!(kinds(&tokens), vec![TokenType::Number, TokenType::Eof]);
    assert_eq!(number_value(&tokens[0]), 123.0);
    let (tokens, _) = scan("45.67");
    assert_eq!(kinds(&tokens), vec![TokenType::Number, TokenType::Eof]);
    assert_eq!(tokens[0].lexeme, "45.67");
    assert_eq!(number_value(&tokens[0]), 45.67);
    let (tokens, _) = scan("1.");
    assert_eq!(kinds(&tokens), vec![TokenType::Number, TokenType::Dot, TokenType::Eof]);
    assert_eq!(tokens[0].lexeme, "1");
    assert_eq!(tokens[1].lexeme, ".");
    let (tokens, _) = scan("1.x");
    assert_eq!(kinds(&tokens), vec![TokenType::Number, TokenType::Dot, TokenType::Identifier, TokenType::Eof]);
}

#[test]
fn string_literal_strips_quotes() {
    let (tokens, errors) = scan("\"hello\"");
    assert_eq!(kinds(&tokens), vec![TokenType::String, TokenType::Eof]);
    assert_eq!(tokens[0].literal, Some(Literal::String("hello".to_string())));
    assert_eq!(tokens[0].lexeme, "\"hello\"");
    assert!(errors.is_empty());
    let (tokens, _) = scan("\"a\\n\"");
    assert_eq!(tokens[0].literal, Some(Literal::String("a\\n".to_string())));
}

#[test]
fn keywords_and_identifiers() {
    let (tokens, _) = scan("forest");
    assert_eq!(kinds(&tokens), vec![TokenType::Identifier, TokenType::Eof]);
    assert_eq!(tokens[0].lexeme, "forest");
    let (tokens, _) = scan("for");
    assert_eq!(kinds(&tokens), vec![TokenType::For, TokenType::Eof]);
    let (tokens, _) = scan("and class else false fun if nil or print return super this true var while");
    assert_eq!(
        kinds(&tokens),
        vec![
            TokenType::And,
            TokenType::Class,
            TokenType::Else,
            TokenType::False,
            TokenType::Fun,
            TokenType::If,
            TokenType::Nil,
            TokenType::Or,
            TokenType::Print,
            TokenType::Return,
            TokenType::Super,
            TokenType::This,
            TokenType::True,
            TokenType::Var,
            TokenType::While,
            TokenType::Eof
        ]
    );
    let (tokens, _) = scan("_x1 é");
    assert_eq!(kinds(&tokens), vec![TokenType::Identifier, TokenType::Identifier, TokenType::Eof]);
    assert_eq!(tokens[0].lexeme, "_x1");
    assert_eq!(tokens[1].lexeme, "é");
}

#[test]
fn line_tracking() {
    let (tokens, _) = scan("\"a\nb\nc\" x");
    assert_eq!(kinds(&tokens), vec![TokenType::String, TokenType::Identifier, TokenType::Eof]);
    assert_eq!(tokens[0].line, 1);
    assert_eq!(tokens[1].line, 3);
    let (tokens, _) = scan("a\n\nb // c\nd");
    assert_eq!(tokens.iter().map(|t| t.line).collect::<Vec<_>>(), vec![1, 3, 4, 4]);
}

#[test]
fn unterminated_string() {
    let (tokens, errors) = scan("\"abc");
    assert_eq!(errors, vec![LexError::UnterminatedString { line: 1 }]);
    assert_eq!(kinds(&tokens), vec![TokenType::String, TokenType::Eof]);
    assert_eq!(tokens[0].literal, Some(Literal::String("abc".to_string())));
    assert_eq!(tokens[0].lexeme, "\"abc");
}

#[test]
fn unexpected_characters_are_skipped() {
    let (tokens, errors) = scan("1 @ 2\n#");
    assert_eq!(kinds(&tokens), vec![TokenType::Number, TokenType::Number, TokenType::Eof]);
    assert_eq!(
        errors,
        vec![LexError::UnexpectedChar { ch: '@', line: 1 }, LexError::UnexpectedChar { ch: '#', line: 2 }]
    );
}

#[test]
fn token_new_keeps_fields() {
    let t = Token::new(TokenType::Minus, "-".to_string(), None, 7);
    assert_eq!(t.kind, TokenType::Minus);
    assert_eq!(t.lexeme, "-");
    assert_eq!(t.line, 7);
    assert_eq!(t.clone(), t);
}

#[test]
fn prompt_scans_each_line() {
    let prompt = lox::prompt::Prompt::new();
    let (tokens, errors) = prompt.scan_line("print 1 + x;".to_string());
    assert_eq!(
        kinds(&tokens),
        vec![
            TokenType::Print,
            TokenType::Number,
            TokenType::Plus,
            TokenType::Identifier,
            TokenType::Semicolon,
            TokenType::Eof
        ]
    );
    assert!(errors.is_empty());
}

#[test]
fn keyword_table() {
    assert_eq!(keyword("while"), Some(TokenType::While));
    assert_eq!(keyword("nil"), Some(TokenType::Nil));
    assert_eq!(keyword("forest"), None);
    assert_eq!(keyword("fo"), None);
    assert_eq!(keyword(""), None);
}
