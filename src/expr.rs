use crate::list::List;
use vstd::prelude::*;
use vstd::string::{StrSliceExecFns, StringExecFns};

verus! {

/// An indivisible lexical value. The lexer reads every numeral as an `Integer`.
#[derive(Debug, PartialEq, Eq)]
pub enum Atom {
    Boolean(bool),
    Char(u8),
    Integer(i64),
    Str(String),
    Symbol(String),
    Builtin(String),
}

/// The mathematical value of an [`Atom`]: text is a sequence of characters.
pub ghost enum AtomView {
    Boolean(bool),
    Char(u8),
    Integer(i64),
    Str(Seq<char>),
    Symbol(Seq<char>),
    Builtin(Seq<char>),
}

impl View for Atom {
    type V = AtomView;

    open spec fn view(&self) -> AtomView {
        match self {
            Atom::Boolean(b) => AtomView::Boolean(*b),
            Atom::Char(c) => AtomView::Char(*c),
            Atom::Integer(n) => AtomView::Integer(*n),
            Atom::Str(s) => AtomView::Str(s@),
            Atom::Symbol(s) => AtomView::Symbol(s@),
            Atom::Builtin(s) => AtomView::Builtin(s@),
        }
    }
}

/// A symbolic expression: an atom, or a list of expressions.
pub enum SExpr {
    Atom(Atom),
    List(List<SExpr>),
}

/// The character of a decimal digit.
pub open spec fn digit_of(d: nat) -> char {
    seq!['0', '1', '2', '3', '4', '5', '6', '7', '8', '9'][d as int]
}

/// The decimal numeral of `n`, without leading zeros.
pub open spec fn nat_text(n: nat) -> Seq<char>
    decreases n,
{
    if n < 10 {
        seq![digit_of(n)]
    } else {
        nat_text(n / 10) + seq![digit_of(n % 10)]
    }
}

/// The decimal numeral of `n`, with a leading `-` when it is negative.
pub open spec fn int_text(n: int) -> Seq<char> {
    if n < 0 {
        seq!['-'] + nat_text((-n) as nat)
    } else {
        nat_text(n as nat)
    }
}

/// The text form of an atom.
pub open spec fn atom_text(a: AtomView) -> Seq<char> {
    match a {
        AtomView::Boolean(b) => if b {
            seq!['t', 'r', 'u', 'e']
        } else {
            seq!['f', 'a', 'l', 's', 'e']
        },
        AtomView::Char(c) => seq!['#'] + nat_text(c as nat),
        AtomView::Integer(n) => int_text(n as int),
        AtomView::Str(s) => seq!['"'] + s + seq!['"'],
        AtomView::Symbol(s) => s,
        AtomView::Builtin(s) => s,
    }
}

/// The text form of an expression: a list is its items in order, each followed
/// by one space, between parentheses.
pub open spec fn rendered(e: SExpr) -> Seq<char>
    decreases e,
{
    match e {
        SExpr::Atom(a) => atom_text(a@),
        SExpr::List(l) => seq!['('] + rendered_items(l) + seq![')'],
    }
}

/// The items of `l` in order, each followed by one space.
pub open spec fn rendered_items(l: List<SExpr>) -> Seq<char>
    decreases l,
{
    match l.head {
        None => Seq::empty(),
        Some(node) => rendered(node.value) + seq![' '] + rendered_items(node.next),
    }
}

fn push_nat(n: u64, out: &mut String)
    ensures
        final(out)@ == old(out)@ + nat_text(n as nat),
    decreases n,
{
    if n >= 10 {
        push_nat(n / 10, out);
    }
    let digits = "0123456789";
    proof {
        reveal_strlit("0123456789");
    }
    let d: usize = (n % 10) as usize;
    let one = digits.substring_char(d, d + 1);
    assert(one@ =~= seq![digit_of(d as nat)]);
    out.append(one);
    if n >= 10 {
        assert(final(out)@ =~= old(out)@ + nat_text(n as nat));
    } else {
        assert(final(out)@ =~= old(out)@ + nat_text(n as nat));
    }
}

fn push_int(n: i64, out: &mut String)
    ensures
        final(out)@ == old(out)@ + int_text(n as int),
{
    if n < 0 {
        let minus = "-";
        proof {
            reveal_strlit("-");
        }
        out.append(minus);
        let m: u64 = (0i128 - n as i128) as u64;
        push_nat(m, out);
        assert(final(out)@ =~= old(out)@ + int_text(n as int));
    } else {
        push_nat(n as u64, out);
    }
}

fn push_str(s: &str, out: &mut String)
    ensures
        final(out)@ == old(out)@ + s@,
{
    out.append(s);
}

fn push_atom(a: &Atom, out: &mut String)
    ensures
        final(out)@ == old(out)@ + atom_text(a@),
{
    match a {
        Atom::Boolean(b) => {
            if *b {
                proof {
                    reveal_strlit("true");
                }
                push_str("true", out);
            } else {
                proof {
                    reveal_strlit("false");
                }
                push_str("false", out);
            }
            assert(final(out)@ =~= old(out)@ + atom_text(a@));
        },
        Atom::Char(c) => {
            proof {
                reveal_strlit("#");
            }
            push_str("#", out);
            push_nat(*c as u64, out);
            assert(final(out)@ =~= old(out)@ + atom_text(a@));
        },
        Atom::Integer(n) => push_int(*n, out),
        Atom::Str(s) => {
            proof {
                reveal_strlit("\"");
            }
            push_str("\"", out);
            push_str(s.as_str(), out);
            push_str("\"", out);
            assert(final(out)@ =~= old(out)@ + atom_text(a@));
        },
        Atom::Symbol(s) => push_str(s.as_str(), out),
        Atom::Builtin(s) => push_str(s.as_str(), out),
    }
}

fn push_expr(e: &SExpr, out: &mut String)
    ensures
        final(out)@ == old(out)@ + rendered(*e),
    decreases e,
{
    match e {
        SExpr::Atom(a) => push_atom(a, out),
        SExpr::List(l) => {
            proof {
                reveal_strlit("(");
                reveal_strlit(")");
            }
            push_str("(", out);
            push_items(l, out);
            push_str(")", out);
            assert(final(out)@ =~= old(out)@ + rendered(*e));
        },
    }
}

fn push_items(l: &List<SExpr>, out: &mut String)
    ensures
        final(out)@ == old(out)@ + rendered_items(*l),
    decreases l,
{
    match &l.head {
        None => {
            assert(final(out)@ =~= old(out)@ + rendered_items(*l));
        },
        Some(node) => {
            push_expr(&node.value, out);
            proof {
                reveal_strlit(" ");
            }
            push_str(" ", out);
            push_items(&node.next, out);
            assert(final(out)@ =~= old(out)@ + rendered_items(*l));
        },
    }
}

impl Atom {
    /// The text form of the atom.
    pub fn to_string(&self) -> (r: String)
        ensures
            r@ == atom_text(self@),
    {
        let mut out = String::new();
        push_atom(self, &mut out);
        assert(out@ =~= atom_text(self@));
        out
    }
}

impl SExpr {
    /// The text form of the expression.
    pub fn to_string(&self) -> (r: String)
        ensures
            r@ == rendered(*self),
    {
        let mut out = String::new();
        push_expr(self, &mut out);
        assert(out@ =~= rendered(*self));
        out
    }
}

} // verus!
