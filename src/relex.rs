use crate::expr::{atom_text, digit_of, nat_text, rendered, rendered_items, AtomView, SExpr};
use crate::list::List;
use crate::parse::{
    delimiter_char, digit_char, digit_value, letter_char, number_value,
    operator_char, prepend_all, run_end, run_keeps, scan, Run, TokenView,
};
use vstd::arithmetic::div_mod::lemma_small_mod;
use vstd::prelude::*;

verus! {

proof fn lemma_digit_of(d: nat)
    requires
        d < 10,
    ensures
        digit_char(digit_of(d)),
        digit_value(digit_of(d)) == d,
{
    let ds = seq!['0', '1', '2', '3', '4', '5', '6', '7', '8', '9'];
    assert(digit_of(d) == ds[d as int]);
    if d == 0 {
    } else if d == 1 {
    } else if d == 2 {
    } else if d == 3 {
    } else if d == 4 {
    } else if d == 5 {
    } else if d == 6 {
    } else if d == 7 {
    } else if d == 8 {
    } else {
    }
}

proof fn lemma_nat_text_digits(n: nat)
    ensures
        nat_text(n).len() > 0,
        forall|k: int| 0 <= k < nat_text(n).len() ==> digit_char(#[trigger] nat_text(n)[k]),
    decreases n,
{
    if n < 10 {
        lemma_digit_of(n);
    } else {
        lemma_nat_text_digits(n / 10);
        lemma_digit_of(n % 10);
        let t = nat_text(n / 10);
        assert forall|k: int| 0 <= k < nat_text(n).len() implies digit_char(
            #[trigger] nat_text(n)[k],
        ) by {
            if k < t.len() {
                assert(nat_text(n)[k] == t[k]);
            }
        }
    }
}

/// The lexer reads a decimal numeral back as the number it was written from.
proof fn lemma_number_value_of_text(n: nat)
    requires
        n <= i64::MAX,
    ensures
        number_value(nat_text(n)) == n,
    decreases n,
{
    let t = nat_text(n);
    let d = n % 10;
    lemma_digit_of(d);
    let p: int = n as int / 10;
    assert(0 <= p * 10 <= n && n == p * 10 + d) by (nonlinear_arith)
        requires
            p == n as int / 10,
            d == n as int % 10,
    ;
    if n < 10 {
        assert(t.drop_last() =~= Seq::<char>::empty());
        assert(t.last() == digit_of(d));
    } else {
        assert(t.drop_last() =~= nat_text(n / 10));
        assert(t.last() == digit_of(d));
        lemma_number_value_of_text(n / 10);
    }
    let prev = number_value(t.drop_last());
    assert(prev == p);
    lemma_small_mod((p * 10) as nat, 0x1_0000_0000_0000_0000nat);
    assert(prev.wrapping_mul(10) == p * 10);
    assert(prev.wrapping_mul(10).wrapping_add(digit_value(t.last())) == n);
}

/// A run of characters that keep `kind` from `i` up to `j`, where the text
/// ends or a character that does not keep it stands, ends at `j`.
proof fn lemma_run_end_at(s: Seq<char>, i: int, j: int, kind: Run)
    requires
        0 <= i <= j <= s.len(),
        forall|k: int| i <= k < j ==> run_keeps(kind, #[trigger] s[k]),
        j == s.len() || !run_keeps(kind, s[j]),
    ensures
        run_end(s, i, kind) == j,
    decreases j - i,
{
    if i < j {
        lemma_run_end_at(s, i + 1, j, kind);
    }
}

/// An atom whose text the lexer reads back as the same atom: a number that is
/// not negative, a symbol that starts with a letter, or with an operator and
/// goes on, and holds no blank or bracket, or a single operator.
pub open spec fn relexable_atom(a: AtomView) -> bool {
    match a {
        AtomView::Integer(n) => n >= 0,
        AtomView::Symbol(s) => {
            &&& s.len() > 0
            &&& letter_char(s[0]) || (operator_char(s[0]) && s.len() > 1)
            &&& forall|k: int| 0 <= k < s.len() ==> !delimiter_char(#[trigger] s[k])
        },
        AtomView::Builtin(s) => s.len() == 1 && operator_char(s[0]),
        _ => false,
    }
}

/// A tree whose atoms are all relexable.
pub open spec fn relexable(e: SExpr) -> bool
    decreases e,
{
    match e {
        SExpr::Atom(a) => relexable_atom(a@),
        SExpr::List(l) => relexable_items(l),
    }
}

pub open spec fn relexable_items(l: List<SExpr>) -> bool
    decreases l,
{
    match l.head {
        None => true,
        Some(node) => relexable(node.value) && relexable_items(node.next),
    }
}

/// The tokens that stand for a tree: each atom's own token, and brackets around
/// the items of each list.
pub open spec fn tree_tokens(e: SExpr) -> Seq<TokenView>
    decreases e,
{
    match e {
        SExpr::Atom(a) => seq![TokenView::Atom(a@)],
        SExpr::List(l) => seq![TokenView::LParen] + items_tokens(l) + seq![TokenView::RParen],
    }
}

pub open spec fn items_tokens(l: List<SExpr>) -> Seq<TokenView>
    decreases l,
{
    match l.head {
        None => Seq::empty(),
        Some(node) => tree_tokens(node.value) + items_tokens(node.next),
    }
}

proof fn lemma_prepend_prepend(p: Seq<TokenView>, q: Seq<TokenView>, r: Result<Seq<TokenView>, char>)
    ensures
        prepend_all(p, prepend_all(q, r)) == prepend_all(p + q, r),
{
    if let Ok(ts) = r {
        assert(p + (q + ts) =~= (p + q) + ts);
    }
}

proof fn lemma_scan_atom(s: Seq<char>, i: int, a: AtomView)
    requires
        relexable_atom(a),
        0 <= i,
        i + atom_text(a).len() <= s.len(),
        s.subrange(i, i + atom_text(a).len()) == atom_text(a),
        i + atom_text(a).len() == s.len() || delimiter_char(s[i + atom_text(a).len()]),
    ensures
        scan(s, i) == prepend_all(seq![TokenView::Atom(a)], scan(s, i + atom_text(a).len())),
{
    let t = atom_text(a);
    let j = i + t.len();
    assert forall|k: int| 0 <= k < t.len() implies s[i + k] == t[k] by {
        assert(s.subrange(i, j)[k] == s[i + k]);
    }
    match a {
        AtomView::Integer(n) => {
            lemma_nat_text_digits(n as nat);
            assert(t == nat_text(n as nat));
            assert forall|k: int| i <= k < j implies run_keeps(Run::Digits, #[trigger] s[k]) by {
                assert(s[i + (k - i)] == t[k - i]);
            }
            lemma_run_end_at(s, i, j, Run::Digits);
            lemma_number_value_of_text(n as nat);
            assert(s[i] == t[0]);
        },
        AtomView::Symbol(sym) => {
            assert forall|k: int| i <= k < j implies run_keeps(Run::SymbolText, #[trigger] s[k]) by {
                assert(s[i + (k - i)] == t[k - i]);
            }
            lemma_run_end_at(s, i, j, Run::SymbolText);
            assert(s[i] == t[0]);
            if !letter_char(sym[0]) {
                assert(s[i + 1] == t[1]);
            }
        },
        AtomView::Builtin(op) => {
            assert(s[i] == t[0]);
            assert(seq![s[i]] =~= op);
        },
        _ => {},
    }
}

proof fn lemma_scan_tree(s: Seq<char>, i: int, e: SExpr)
    requires
        relexable(e),
        0 <= i,
        i + rendered(e).len() <= s.len(),
        s.subrange(i, i + rendered(e).len()) == rendered(e),
        i + rendered(e).len() == s.len() || delimiter_char(s[i + rendered(e).len()]),
    ensures
        scan(s, i) == prepend_all(tree_tokens(e), scan(s, i + rendered(e).len())),
    decreases e,
{
    match e {
        SExpr::Atom(a) => {
            assert(rendered(e) == atom_text(a@));
            assert(tree_tokens(e) == seq![TokenView::Atom(a@)]);
            lemma_scan_atom(s, i, a@);
        },
        SExpr::List(l) => {
            let r = rendered(e);
            let m = rendered_items(l);
            let j = i + r.len();
            assert(s[i] == r[0]) by {
                assert(s.subrange(i, j)[0] == s[i]);
            }
            assert(s.subrange(i + 1, i + 1 + m.len()) =~= m) by {
                assert(s.subrange(i + 1, i + 1 + m.len()) =~= s.subrange(i, j).subrange(
                    1,
                    1 + m.len() as int,
                ));
                assert(r.subrange(1, 1 + m.len() as int) =~= m);
            }
            assert(s[j - 1] == ')') by {
                assert(s.subrange(i, j)[r.len() - 1] == s[j - 1]);
            }
            lemma_scan_items(s, i + 1, l);
            assert(scan(s, j - 1) == prepend_all(seq![TokenView::RParen], scan(s, j)));
            lemma_prepend_prepend(items_tokens(l), seq![TokenView::RParen], scan(s, j));
            lemma_prepend_prepend(
                seq![TokenView::LParen],
                items_tokens(l) + seq![TokenView::RParen],
                scan(s, j),
            );
            assert(scan(s, i) == prepend_all(seq![TokenView::LParen], scan(s, i + 1)));
            assert(tree_tokens(e) =~= seq![TokenView::LParen] + (items_tokens(l) + seq![
                TokenView::RParen,
            ]));
        },
    }
}

proof fn lemma_scan_items(s: Seq<char>, i: int, l: List<SExpr>)
    requires
        relexable_items(l),
        0 <= i,
        i + rendered_items(l).len() <= s.len(),
        s.subrange(i, i + rendered_items(l).len()) == rendered_items(l),
    ensures
        scan(s, i) == prepend_all(items_tokens(l), scan(s, i + rendered_items(l).len())),
    decreases l,
{
    match l.head {
        None => {
            assert(prepend_all(Seq::empty(), scan(s, i)) == scan(s, i)) by {
                if let Ok(ts) = scan(s, i) {
                    assert(Seq::<TokenView>::empty() + ts =~= ts);
                }
            }
        },
        Some(_) => {
            let m = rendered_items(l);
            let v = rendered(l.first());
            let rest = rendered_items(l.rest());
            let j = i + m.len();
            let k = i + v.len();
            assert(m == v + seq![' '] + rest);
            assert(s.subrange(i, k) =~= v) by {
                assert(s.subrange(i, k) =~= s.subrange(i, j).subrange(0, v.len() as int));
                assert(m.subrange(0, v.len() as int) =~= v);
            }
            assert(s[k] == ' ') by {
                assert(s.subrange(i, j)[v.len() as int] == s[k]);
            }
            assert(s.subrange(k + 1, j) =~= rest) by {
                assert(s.subrange(k + 1, j) =~= s.subrange(i, j).subrange(v.len() as int + 1, m.len() as int));
                assert(m.subrange(v.len() as int + 1, m.len() as int) =~= rest);
            }
            lemma_scan_tree(s, i, l.first());
            assert(scan(s, k) == scan(s, k + 1));
            lemma_scan_items(s, k + 1, l.rest());
            lemma_prepend_prepend(tree_tokens(l.first()), items_tokens(l.rest()), scan(s, j));
        },
    }
}

/// The text of a tree of non-negative numbers, symbols and builtin operators
/// lexes without error into the tree's own tokens: each atom as itself, each
/// list between an opening and a closing bracket.
pub proof fn lemma_rendered_tree_relexes(e: SExpr)
    requires
        relexable(e),
    ensures
        crate::parse::lex_spec(rendered(e)) == Ok::<Seq<TokenView>, char>(tree_tokens(e)),
{
    let s = rendered(e);
    assert(s.subrange(0, s.len() as int) =~= s);
    lemma_scan_tree(s, 0, e);
    assert(tree_tokens(e) + Seq::<TokenView>::empty() =~= tree_tokens(e));
}

} // verus!
