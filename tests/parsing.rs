use lox::ast::{number_string, AstPrinter, Expr, RpnPrinter};
use lox::lexer::Lexer;
use lox::parser::{parse_source, Expected, ParseError, Parser};
use lox::token::{Literal, Token, TokenType};

fn parse(src: &str) -> Result<Expr, ParseError> {
    let (tokens, errors) = Lexer::new(src.to_string()).lex_tokens();
    assert!(errors.is_empty());
    Parser::new(tokens).parse()
}

fn render(src: &str) -> String {
    AstPrinter.print(parse(src).unwrap())
}

#[test]
fn test_print() {
    let expr = Expr::Binary {
        left: Box::new(Expr::Unary {
            operator: Token::new(TokenType::Minus, '-'.to_string(), None, 1),
            right: Box::new(Expr::Literal(Literal::Number("123".to_string()))),
        }),
        operator: Token::new(TokenType::Star, '*'.to_string(), None, 1),
        right: Box::new(Expr::Grouping {
            expr: Box::new(Expr::Literal(Literal::Number("45.67".to_string()))),
        }),
    };

    let printer = AstPrinter;

    assert_eq!(printer.print(expr), "(* (- 123) (group 45.67))");
}

#[test]
fn precedence_and_associativity() {
    assert_eq!(render("1 + 2 * 3"), "(+ 1 (* 2 3))");
    assert_eq!(render("1 - 2 - 3"), "(- (- 1 2) 3)");
    assert_eq!(render("1 < 2 == 3 >= 4"), "(== (< 1 2) (>= 3 4))");
    assert_eq!(render("8 / 4 / 2"), "(/ (/ 8 4) 2)");
}

#[test]
fn unary_is_right_associative() {
    assert_eq!(render("- - 1"), "(- (- 1))");
    assert_eq!(render("!!true"), "(! (! true))");
}

#[test]
fn grouping_is_kept() {
    assert_eq!(render("(1 + 2) * 3"), "(* (group (+ 1 2)) 3)");
}

#[test]
fn both_printers_on_one_tree() {
    let tree = parse("- 123 * (45.67)").unwrap();
    let again = parse("- 123 * (45.67)").unwrap();
    assert_eq!(AstPrinter.print(tree), "(* (- 123) (group 45.67))");
    assert_eq!(RpnPrinter.print(again), "123 - 45.67 group *");
    assert_eq!(RpnPrinter.print(parse("1 + 2 * 3").unwrap()), "1 2 3 * +");
}

#[test]
fn missing_right_paren() {
    let err = parse("(1 + 2").unwrap_err();
    assert_eq!(err.expected, Expected::RightParen);
    assert_eq!(err.token.kind, TokenType::Eof);
    assert_eq!(err.message(), "Expect ')' after expression.");
}

#[test]
fn missing_expression() {
    let err = parse("+ 1").unwrap_err();
    assert_eq!(err.expected, Expected::Expression);
    assert_eq!(err.token.kind, TokenType::Plus);
    assert_eq!(err.token.lexeme, "+");
    assert_eq!(err.message(), "Expect expression.");
    let err = parse("").unwrap_err();
    assert_eq!(err.token.kind, TokenType::Eof);
    let err = parse("1 *\n)").unwrap_err();
    assert_eq!(err.token.line, 2);
}

#[test]
fn keyword_literals() {
    assert_eq!(parse("true").unwrap(), Expr::Literal(Literal::Bool(true)));
    assert_eq!(parse("false").unwrap(), Expr::Literal(Literal::Bool(false)));
    assert_eq!(parse("nil").unwrap(), Expr::Literal(Literal::Nil));
    assert_eq!(render("nil == false"), "(== nil false)");
    assert_eq!(render("\"a b\" + \"c\""), "(+ a b c)");
}

#[test]
fn number_text_is_shortest() {
    assert_eq!(number_string("123"), "123");
    assert_eq!(number_string("45.67"), "45.67");
    assert_eq!(number_string("007.50"), "7.5");
    assert_eq!(number_string("1.0"), "1");
    assert_eq!(number_string("0.000"), "0");
    assert_eq!(number_string("0.25"), "0.25");
    assert_eq!(render("1.50 + 00"), "(+ 1.5 0)");
}

#[test]
fn scan_then_parse() {
    let (errors, tree) = parse_source("1 + @2".to_string());
    assert_eq!(errors.len(), 1);
    assert_eq!(AstPrinter.print(tree.unwrap()), "(+ 1 2)");
    let (errors, tree) = parse_source("(\"x\"".to_string());
    assert!(errors.is_empty());
    assert_eq!(tree.unwrap_err().expected, Expected::RightParen);
}

#[test]
fn accept_dispatches_on_shape() {
    let e = Expr::Grouping { expr: Box::new(Expr::Literal(Literal::String("s".to_string()))) };
    assert_eq!(e.accept(&AstPrinter), "(group s)");
    assert_eq!(e.accept(&RpnPrinter), "s group");
}
