use risp::expr::{Atom, SExpr};
use risp::list::List;
use risp::parse::{lex, Token};

#[test]
fn construct() {
    let st = SExpr::Atom(Atom::Str(String::from("hello, world")));
    let one = SExpr::Atom(Atom::Integer(1));
    let two = SExpr::Atom(Atom::Integer(2));
    let three = SExpr::Atom(Atom::Integer(3));
    let lst = SExpr::List(List::new().cons(three).cons(two).cons(one).cons(st));
    assert_eq!(lst.to_string(), String::from("(\"hello, world\" 1 2 3 )"));
}

#[test]
fn list_iterates_last_consed_first() {
    let l = List::new().cons(1).cons(2).cons(3);
    let got: Vec<i32> = l.iter().into_iter().copied().collect();
    assert_eq!(got, vec![3, 2, 1]);
}

#[test]
fn list_cons_leaves_tail_unchanged() {
    let base = List::new().cons('a');
    let left = base.cons('b');
    let right = base.cons('c');
    assert_eq!(base.iter(), vec![&'a']);
    assert_eq!(left.iter(), vec![&'b', &'a']);
    assert_eq!(right.iter(), vec![&'c', &'a']);
    assert_eq!(left.iter(), left.iter());
}

#[test]
fn list_empty() {
    let l: List<u8> = List::new();
    assert!(l.is_empty());
    assert!(l.iter().is_empty());
    assert!(!l.cons(0).is_empty());
}

#[test]
fn render_empty_list() {
    assert_eq!(SExpr::List(List::new()).to_string(), "()");
}

#[test]
fn render_nested_list() {
    let inner = SExpr::List(List::new().cons(SExpr::Atom(Atom::Integer(1))));
    let outer = SExpr::List(
        List::new()
            .cons(SExpr::Atom(Atom::Integer(2)))
            .cons(inner),
    );
    assert_eq!(outer.to_string(), "((1 ) 2 )");
}

#[test]
fn render_atoms() {
    assert_eq!(Atom::Boolean(true).to_string(), "true");
    assert_eq!(Atom::Boolean(false).to_string(), "false");
    assert_eq!(Atom::Char(65).to_string(), "#65");
    assert_eq!(Atom::Char(0).to_string(), "#0");
    assert_eq!(Atom::Integer(0).to_string(), "0");
    assert_eq!(Atom::Integer(-42).to_string(), "-42");
    assert_eq!(Atom::Integer(i64::MIN).to_string(), "-9223372036854775808");
    assert_eq!(Atom::Integer(1234567890).to_string(), "1234567890");
    assert_eq!(Atom::Str("a b".to_string()).to_string(), "\"a b\"");
    assert_eq!(Atom::Symbol("if".to_string()).to_string(), "if");
    assert_eq!(Atom::Builtin("+".to_string()).to_string(), "+");
}

#[test]
fn render_atom_expression_adds_nothing() {
    assert_eq!(SExpr::Atom(Atom::Symbol("x".to_string())).to_string(), "x");
}

#[test]
fn rendered_tree_lexes_back() {
    let tree = SExpr::List(
        List::new()
            .cons(SExpr::Atom(Atom::Symbol("abc".to_string())))
            .cons(SExpr::Atom(Atom::Integer(17)))
            .cons(SExpr::Atom(Atom::Builtin("*".to_string()))),
    );
    let text = tree.to_string();
    assert_eq!(text, "(* 17 abc )");
    let toks = lex(&text).unwrap();
    assert_eq!(
        toks,
        vec![
            Token::LParen,
            Token::Atom(Atom::Builtin("*".to_string())),
            Token::Atom(Atom::Integer(17)),
            Token::Atom(Atom::Symbol("abc".to_string())),
            Token::RParen
        ]
    );
}
