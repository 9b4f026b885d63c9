use cilly::error::Error;
use cilly::lexer::{tokenize, Delimiter, Keyword, Lexer, Operator, Token};

fn id(name: &str) -> Token {
    Token::Identifier(name.to_string())
}

fn kw(k: Keyword) -> Token {
    Token::Keyword(k)
}

fn op(o: Operator) -> Token {
    Token::Operator(o)
}

fn de(d: Delimiter) -> Token {
    Token::Delimiters(d)
}

#[test]
fn empty_text_is_just_the_end() {
    assert_eq!(tokenize("").expect("scans"), vec![Token::EOF]);
    assert_eq!(tokenize("  \n\t\r ").expect("scans"), vec![Token::EOF]);
}

#[test]
fn a_declaration_is_scanned() {
    assert_eq!(
        tokenize("var a: i32 = 1 + 2;").expect("scans"),
        vec![
            kw(Keyword::Var),
            id("a"),
            de(Delimiter::Colon),
            kw(Keyword::I32),
            op(Operator::Assign),
            Token::Number(1),
            op(Operator::Plus),
            Token::Number(2),
            de(Delimiter::Semi),
            Token::EOF,
        ]
    );
}

#[test]
fn every_keyword_is_known() {
    assert_eq!(
        tokenize("var val fn if else while return break continue i32").expect("scans"),
        vec![
            kw(Keyword::Var),
            kw(Keyword::Val),
            kw(Keyword::Fn),
            kw(Keyword::If),
            kw(Keyword::Else),
            kw(Keyword::While),
            kw(Keyword::Return),
            kw(Keyword::Break),
            kw(Keyword::Continue),
            kw(Keyword::I32),
            Token::EOF,
        ]
    );
}

#[test]
fn words_that_only_look_like_keywords_are_names() {
    assert_eq!(
        tokenize("vars iff i3 i322 _fn While main print getint").expect("scans"),
        vec![
            id("vars"),
            id("iff"),
            id("i3"),
            id("i322"),
            id("_fn"),
            id("While"),
            id("main"),
            id("print"),
            id("getint"),
            Token::EOF,
        ]
    );
}

#[test]
fn every_operator_and_delimiter_is_known() {
    assert_eq!(
        tokenize("+ - * / % < > <= >= == != ! && || = -> ( ) { } , ; :").expect("scans"),
        vec![
            op(Operator::Plus),
            op(Operator::Minus),
            op(Operator::Star),
            op(Operator::Slash),
            op(Operator::Percent),
            op(Operator::Lt),
            op(Operator::Gt),
            op(Operator::Le),
            op(Operator::Ge),
            op(Operator::EqEq),
            op(Operator::Ne),
            op(Operator::Not),
            op(Operator::AndAnd),
            op(Operator::OrOr),
            op(Operator::Assign),
            op(Operator::Arrow),
            de(Delimiter::LParen),
            de(Delimiter::RParen),
            de(Delimiter::LBrace),
            de(Delimiter::RBrace),
            de(Delimiter::Comma),
            de(Delimiter::Semi),
            de(Delimiter::Colon),
            Token::EOF,
        ]
    );
}

#[test]
fn the_longest_operator_wins() {
    assert_eq!(
        tokenize("a<=b==c=d->e-f!=!g").expect("scans"),
        vec![
            id("a"),
            op(Operator::Le),
            id("b"),
            op(Operator::EqEq),
            id("c"),
            op(Operator::Assign),
            id("d"),
            op(Operator::Arrow),
            id("e"),
            op(Operator::Minus),
            id("f"),
            op(Operator::Ne),
            op(Operator::Not),
            id("g"),
            Token::EOF,
        ]
    );
}

#[test]
fn numbers_are_runs_of_digits() {
    assert_eq!(
        tokenize("0 007 42 2147483647").expect("scans"),
        vec![
            Token::Number(0),
            Token::Number(7),
            Token::Number(42),
            Token::Number(2147483647),
            Token::EOF,
        ]
    );
    assert_eq!(
        tokenize("12ab").expect("scans"),
        vec![Token::Number(12), id("ab"), Token::EOF]
    );
}

#[test]
fn a_number_that_does_not_fit_is_an_error() {
    assert!(matches!(tokenize("x = 2147483648;"), Err(Error::LexerError(4))));
    assert!(matches!(tokenize("99999999999999999999"), Err(Error::LexerError(0))));
}

#[test]
fn a_character_that_starts_no_token_is_an_error() {
    assert!(matches!(tokenize("a # b"), Err(Error::LexerError(2))));
    assert!(matches!(tokenize("a & b"), Err(Error::LexerError(2))));
    assert!(matches!(tokenize("a | b"), Err(Error::LexerError(2))));
    assert!(matches!(tokenize("\"text\""), Err(Error::LexerError(0))));
    assert!(matches!(tokenize("1.5"), Err(Error::LexerError(1))));
}

#[test]
fn positions_count_characters() {
    assert!(matches!(tokenize("é"), Err(Error::LexerError(0))));
    assert!(matches!(tokenize("a é"), Err(Error::LexerError(2))));
}

#[test]
fn tokens_are_read_one_by_one() {
    let mut lexer = Lexer::new("fn  main ( ) ?");
    assert_eq!(lexer.next_token().expect("scans"), kw(Keyword::Fn));
    assert_eq!(lexer.next_token().expect("scans"), id("main"));
    assert_eq!(lexer.next_token().expect("scans"), de(Delimiter::LParen));
    assert_eq!(lexer.next_token().expect("scans"), de(Delimiter::RParen));
    assert!(matches!(lexer.next_token(), Err(Error::LexerError(13))));
    assert!(matches!(lexer.next_token(), Err(Error::LexerError(13))));
}

#[test]
fn the_end_is_read_again_and_again() {
    let mut lexer = Lexer::new("x ");
    assert_eq!(lexer.next_token().expect("scans"), id("x"));
    assert_eq!(lexer.next_token().expect("scans"), Token::EOF);
    assert_eq!(lexer.next_token().expect("scans"), Token::EOF);
}
