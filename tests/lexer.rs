use risp::expr::Atom;
use risp::parse::{is_paren, lex, LexError, Token};

fn sym(s: &str) -> Token {
    Token::Atom(Atom::Symbol(s.to_string()))
}

fn builtin(s: &str) -> Token {
    Token::Atom(Atom::Builtin(s.to_string()))
}

fn num(n: i64) -> Token {
    Token::Atom(Atom::Integer(n))
}

#[test]
fn lexer_basic() {
    let res = lex(&String::from("(+ 1 2)")).unwrap();
    assert_eq!(res, vec![Token::LParen, builtin("+"), num(1), num(2), Token::RParen]);
}

#[test]
fn lexer_str() {
    let res = lex(&String::from("\"this is a string\" 1")).unwrap();
    assert_eq!(
        res,
        vec![Token::Atom(Atom::Str("this is a string".to_string())), num(1)]
    );
}

#[test]
fn lexer_symbol() {
    let res = lex(&String::from("(if *abc*)")).unwrap();
    assert_eq!(res, vec![Token::LParen, sym("if"), sym("*abc*"), Token::RParen]);
}

#[test]
fn lexer_rejects_unknown_character() {
    assert_eq!(lex(&String::from("@")), Err(LexError { ch: '@' }));
}

#[test]
fn lexer_error_drops_earlier_tokens() {
    assert_eq!(lex(&String::from("(+ 1 #")), Err(LexError { ch: '#' }));
}

#[test]
fn lexer_empty_and_blank_input() {
    assert_eq!(lex(&String::new()), Ok(vec![]));
    assert_eq!(lex(&String::from(" \t\r\n ")), Ok(vec![]));
}

#[test]
fn lexer_all_bracket_kinds() {
    let res = lex(&String::from("[{(}])")).unwrap();
    assert_eq!(
        res,
        vec![
            Token::LParen,
            Token::LParen,
            Token::LParen,
            Token::RParen,
            Token::RParen,
            Token::RParen
        ]
    );
}

#[test]
fn lexer_quote_marks() {
    let res = lex(&String::from("`a 'b ,c")).unwrap();
    assert_eq!(
        res,
        vec![
            Token::Quasiquote,
            sym("a"),
            Token::Quasiquote,
            sym("b"),
            Token::Unquote,
            sym("c")
        ]
    );
}

#[test]
fn lexer_operator_alone_or_glued() {
    let res = lex(&String::from("+1 - (*) = /x")).unwrap();
    assert_eq!(
        res,
        vec![
            sym("+1"),
            builtin("-"),
            Token::LParen,
            builtin("*"),
            Token::RParen,
            builtin("="),
            sym("/x")
        ]
    );
}

#[test]
fn lexer_operator_at_end_of_input() {
    assert_eq!(lex(&String::from("%")), Ok(vec![builtin("%")]));
}

#[test]
fn lexer_symbol_ends_at_bracket() {
    let res = lex(&String::from("(abc)def")).unwrap();
    assert_eq!(res, vec![Token::LParen, sym("abc"), Token::RParen, sym("def")]);
}

#[test]
fn lexer_number_then_letters() {
    let res = lex(&String::from("12ab 345")).unwrap();
    assert_eq!(res, vec![num(12), sym("ab"), num(345)]);
}

#[test]
fn lexer_number_wraps_on_overflow() {
    assert_eq!(lex(&String::from("9223372036854775807")), Ok(vec![num(i64::MAX)]));
    assert_eq!(lex(&String::from("9223372036854775808")), Ok(vec![num(i64::MIN)]));
}

#[test]
fn lexer_string_keeps_brackets_and_blanks() {
    let res = lex(&String::from("\"a (b) \" x")).unwrap();
    assert_eq!(res, vec![Token::Atom(Atom::Str("a (b) ".to_string())), sym("x")]);
}

#[test]
fn lexer_unterminated_string_runs_to_end() {
    let res = lex(&String::from("\"abc def")).unwrap();
    assert_eq!(res, vec![Token::Atom(Atom::Str("abc def".to_string()))]);
}

#[test]
fn lexer_plain_text_has_no_symbols() {
    let res = lex(&String::from("(+ 10 [2 {3}]) * -\t/")).unwrap();
    assert_eq!(
        res,
        vec![
            Token::LParen,
            builtin("+"),
            num(10),
            Token::LParen,
            num(2),
            Token::LParen,
            num(3),
            Token::RParen,
            Token::RParen,
            Token::RParen,
            builtin("*"),
            builtin("-"),
            builtin("/")
        ]
    );
}

#[test]
fn paren_classification() {
    for c in ['(', ')', '[', ']', '{', '}'] {
        assert!(is_paren(c));
    }
    for c in ['a', ' ', '"', '<', '1'] {
        assert!(!is_paren(c));
    }
}
