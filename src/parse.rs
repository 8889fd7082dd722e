use crate::expr::{Atom, AtomView};
use vstd::prelude::*;
use vstd::string::StrSliceExecFns;

verus! {

/// A lexical token.
#[derive(Debug, PartialEq, Eq)]
pub enum Token {
    LParen,
    RParen,
    Quasiquote,
    Unquote,
    Atom(Atom),
}

/// The mathematical value of a [`Token`].
pub ghost enum TokenView {
    LParen,
    RParen,
    Quasiquote,
    Unquote,
    Atom(AtomView),
}

impl View for Token {
    type V = TokenView;

    open spec fn view(&self) -> TokenView {
        match self {
            Token::LParen => TokenView::LParen,
            Token::RParen => TokenView::RParen,
            Token::Quasiquote => TokenView::Quasiquote,
            Token::Unquote => TokenView::Unquote,
            Token::Atom(a) => TokenView::Atom(a@),
        }
    }
}

/// The failure of a scan: the first character that starts no token.
#[derive(Debug, PartialEq, Eq)]
pub struct LexError {
    pub ch: char,
}

pub open spec fn token_views(v: Seq<Token>) -> Seq<TokenView> {
    v.map_values(|t: Token| t@)
}

pub open spec fn whitespace_char(c: char) -> bool {
    c == ' ' || c == '\t' || c == '\r' || c == '\n'
}

pub open spec fn open_char(c: char) -> bool {
    c == '(' || c == '[' || c == '{'
}

pub open spec fn close_char(c: char) -> bool {
    c == ')' || c == ']' || c == '}'
}

pub open spec fn paren_char(c: char) -> bool {
    open_char(c) || close_char(c)
}

/// Characters that end a symbol.
pub open spec fn delimiter_char(c: char) -> bool {
    whitespace_char(c) || paren_char(c)
}

pub open spec fn digit_char(c: char) -> bool {
    '0' <= c <= '9'
}

pub open spec fn letter_char(c: char) -> bool {
    ('A' <= c <= 'Z') || ('a' <= c <= 'z')
}

/// Characters that are a builtin operator on their own.
pub open spec fn operator_char(c: char) -> bool {
    c == '+' || c == '*' || c == '-' || c == '/' || c == '%' || c == '!' || c == '^' || c == '='
}

pub open spec fn digit_value(c: char) -> i64 {
    (c as u32 - '0' as u32) as i64
}

/// The value of a run of digits, accumulated as `value * 10 + digit` in wrapping
/// 64-bit arithmetic.
pub open spec fn number_value(d: Seq<char>) -> i64
    decreases d.len(),
{
    if d.len() == 0 {
        0
    } else {
        number_value(d.drop_last()).wrapping_mul(10).wrapping_add(digit_value(d.last()))
    }
}

/// The kinds of character run that a token may span.
pub ghost enum Run {
    Digits,
    SymbolText,
    StringText,
}

pub open spec fn run_keeps(kind: Run, c: char) -> bool {
    match kind {
        Run::Digits => digit_char(c),
        Run::SymbolText => !delimiter_char(c),
        Run::StringText => c != '"',
    }
}

/// The first position at or after `i` whose character does not belong to the run.
pub open spec fn run_end(s: Seq<char>, i: int, kind: Run) -> int
    decreases s.len() - i,
{
    if 0 <= i < s.len() && run_keeps(kind, s[i]) {
        run_end(s, i + 1, kind)
    } else {
        i
    }
}

pub open spec fn push_front(t: TokenView, r: Result<Seq<TokenView>, char>) -> Result<
    Seq<TokenView>,
    char,
> {
    match r {
        Ok(ts) => Ok(seq![t] + ts),
        Err(c) => Err(c),
    }
}

pub open spec fn prepend_all(p: Seq<TokenView>, r: Result<Seq<TokenView>, char>) -> Result<
    Seq<TokenView>,
    char,
> {
    match r {
        Ok(ts) => Ok(p + ts),
        Err(c) => Err(c),
    }
}

/// The tokens of `s` from position `i` on, or the first character that starts none.
pub open spec fn scan(s: Seq<char>, i: int) -> Result<Seq<TokenView>, char>
    decreases s.len() - i,
    via scan_decreases
{
    if i < 0 || i >= s.len() {
        Ok(Seq::empty())
    } else {
        let c = s[i];
        if whitespace_char(c) {
            scan(s, i + 1)
        } else if c == '"' {
            let e = run_end(s, i + 1, Run::StringText);
            let next = if e < s.len() {
                e + 1
            } else {
                e
            };
            push_front(TokenView::Atom(AtomView::Str(s.subrange(i + 1, e))), scan(s, next))
        } else if digit_char(c) {
            let e = run_end(s, i, Run::Digits);
            push_front(TokenView::Atom(AtomView::Integer(number_value(s.subrange(i, e)))), scan(s, e))
        } else if letter_char(c) || (operator_char(c) && i + 1 < s.len() && !delimiter_char(
            s[i + 1],
        )) {
            let e = run_end(s, i, Run::SymbolText);
            push_front(TokenView::Atom(AtomView::Symbol(s.subrange(i, e))), scan(s, e))
        } else if operator_char(c) {
            push_front(TokenView::Atom(AtomView::Builtin(seq![c])), scan(s, i + 1))
        } else if open_char(c) {
            push_front(TokenView::LParen, scan(s, i + 1))
        } else if close_char(c) {
            push_front(TokenView::RParen, scan(s, i + 1))
        } else if c == '`' || c == '\'' {
            push_front(TokenView::Quasiquote, scan(s, i + 1))
        } else if c == ',' {
            push_front(TokenView::Unquote, scan(s, i + 1))
        } else {
            Err(c)
        }
    }
}

#[via_fn]
proof fn scan_decreases(s: Seq<char>, i: int) {
    if 0 <= i < s.len() {
        lemma_run_end(s, i, Run::Digits);
        lemma_run_end(s, i, Run::SymbolText);
        lemma_run_end(s, i + 1, Run::StringText);
    }
}

/// What the lexer yields for the whole of `s`.
pub open spec fn lex_spec(s: Seq<char>) -> Result<Seq<TokenView>, char> {
    scan(s, 0)
}

pub proof fn lemma_run_end(s: Seq<char>, i: int, kind: Run)
    requires
        0 <= i <= s.len(),
    ensures
        i <= run_end(s, i, kind) <= s.len(),
        forall|k: int| i <= k < run_end(s, i, kind) ==> run_keeps(kind, #[trigger] s[k]),
        run_end(s, i, kind) < s.len() ==> !run_keeps(kind, s[run_end(s, i, kind)]),
    decreases s.len() - i,
{
    if i < s.len() && run_keeps(kind, s[i]) {
        lemma_run_end(s, i + 1, kind);
    }
}

pub fn is_whitespace(c: char) -> (r: bool)
    ensures
        r == whitespace_char(c),
{
    c == ' ' || c == '\t' || c == '\r' || c == '\n'
}

/// Whether `c` is one of the three opening or three closing brackets.
pub fn is_paren(c: char) -> (r: bool)
    ensures
        r == paren_char(c),
{
    match c {
        '(' | ')' | '[' | ']' | '{' | '}' => true,
        _ => false,
    }
}

pub fn is_delimiter(c: char) -> (r: bool)
    ensures
        r == delimiter_char(c),
{
    is_whitespace(c) || is_paren(c)
}

pub fn is_digit(c: char) -> (r: bool)
    ensures
        r == digit_char(c),
{
    '0' <= c && c <= '9'
}

pub fn is_letter(c: char) -> (r: bool)
    ensures
        r == letter_char(c),
{
    ('A' <= c && c <= 'Z') || ('a' <= c && c <= 'z')
}

pub fn is_operator(c: char) -> (r: bool)
    ensures
        r == operator_char(c),
{
    match c {
        '+' | '*' | '-' | '/' | '%' | '!' | '^' | '=' => true,
        _ => false,
    }
}

/// The characters of `text`, in order.
fn chars_of(text: &str) -> (r: Vec<char>)
    ensures
        r@ == text@,
{
    let mut out: Vec<char> = Vec::new();
    for c in it: text.chars()
        invariant
            out@.len() == it.index(),
            forall|j: int| 0 <= j < out@.len() ==> out@[j] == it.seq()[j],
    {
        out.push(c);
    }
    assert(out@ =~= text@);
    out
}

/// Reads the run of digits that starts at `start`.
fn get_number(chars: &Vec<char>, start: usize) -> (r: (Token, usize))
    requires
        start < chars@.len(),
        digit_char(chars@[start as int]),
    ensures
        r.1 == run_end(chars@, start as int, Run::Digits),
        r.0@ == TokenView::Atom(
            AtomView::Integer(number_value(chars@.subrange(start as int, r.1 as int))),
        ),
{
    let n = chars.len();
    let mut value: i64 = 0;
    let mut j: usize = start;
    assert(chars@.subrange(start as int, start as int) =~= Seq::<char>::empty());
    while j < n && is_digit(chars[j])
        invariant
            start <= j <= n,
            n == chars@.len(),
            value == number_value(chars@.subrange(start as int, j as int)),
            run_end(chars@, start as int, Run::Digits) == run_end(chars@, j as int, Run::Digits),
        decreases n - j,
    {
        let d: i64 = (chars[j] as u32 - '0' as u32) as i64;
        assert(chars@.subrange(start as int, j + 1).drop_last() =~= chars@.subrange(
            start as int,
            j as int,
        ));
        value = value.wrapping_mul(10).wrapping_add(d);
        j = j + 1;
    }
    (Token::Atom(Atom::Integer(value)), j)
}

/// Reads a symbol whose first character stands at `start`.
fn get_symbol(text: &str, chars: &Vec<char>, start: usize) -> (r: (Token, usize))
    requires
        chars@ == text@,
        start <= chars@.len(),
    ensures
        r.1 == run_end(chars@, start as int, Run::SymbolText),
        r.0@ == TokenView::Atom(AtomView::Symbol(chars@.subrange(start as int, r.1 as int))),
{
    let n = chars.len();
    let mut j: usize = start;
    while j < n && !is_delimiter(chars[j])
        invariant
            start <= j <= n,
            n == chars@.len(),
            run_end(chars@, start as int, Run::SymbolText) == run_end(
                chars@,
                j as int,
                Run::SymbolText,
            ),
        decreases n - j,
    {
        j = j + 1;
    }
    let sym = text.substring_char(start, j).to_owned();
    (Token::Atom(Atom::Symbol(sym)), j)
}

/// Reads the text of a string literal that starts at `start`, just after its
/// opening quote, and steps over the closing quote if there is one.
fn get_string(text: &str, chars: &Vec<char>, start: usize) -> (r: (Token, usize))
    requires
        chars@ == text@,
        start <= chars@.len(),
    ensures
        ({
            let e = run_end(chars@, start as int, Run::StringText);
            &&& r.0@ == TokenView::Atom(AtomView::Str(chars@.subrange(start as int, e)))
            &&& r.1 == if e < chars@.len() {
                e + 1
            } else {
                e
            }
        }),
{
    let n = chars.len();
    let mut j: usize = start;
    while j < n && chars[j] != '"'
        invariant
            start <= j <= n,
            n == chars@.len(),
            run_end(chars@, start as int, Run::StringText) == run_end(
                chars@,
                j as int,
                Run::StringText,
            ),
        decreases n - j,
    {
        j = j + 1;
    }
    let body = text.substring_char(start, j).to_owned();
    let next = if j < n {
        j + 1
    } else {
        j
    };
    (Token::Atom(Atom::Str(body)), next)
}

proof fn lemma_prepend_step(p: Seq<TokenView>, t: TokenView, r: Result<Seq<TokenView>, char>)
    ensures
        prepend_all(p, push_front(t, r)) == prepend_all(p.push(t), r),
{
    if let Ok(ts) = r {
        assert(p + (seq![t] + ts) =~= p.push(t) + ts);
    }
}

/// Splits one line of text into tokens, or names the first character that
/// starts no token; no token is returned on failure.
pub fn lex(input: &String) -> (r: Result<Vec<Token>, LexError>)
    ensures
        match r {
            Ok(v) => lex_spec(input@) == Ok::<Seq<TokenView>, char>(token_views(v@)),
            Err(e) => lex_spec(input@) == Err::<Seq<TokenView>, char>(e.ch),
        },
{
    let text = input.as_str();
    let chars = chars_of(text);
    let n = chars.len();
    let mut res: Vec<Token> = Vec::new();
    let mut i: usize = 0;
    assert(token_views(res@) + Seq::<TokenView>::empty() =~= token_views(res@));
    while i < n
        invariant
            i <= n,
            n == chars@.len(),
            chars@ == input@,
            text@ == input@,
            lex_spec(input@) == prepend_all(token_views(res@), scan(input@, i as int)),
        decreases n - i,
    {
        let ghost s = input@;
        let ghost before = res@;
        let c = chars[i];
        if is_whitespace(c) {
            i = i + 1;
            continue;
        }
        let next: usize;
        let tok: Token;
        if c == '"' {
            proof {
                lemma_run_end(s, i + 1, Run::StringText);
            }
            let (t, e) = get_string(text, &chars, i + 1);
            tok = t;
            next = e;
        } else if is_digit(c) {
            proof {
                lemma_run_end(s, i as int, Run::Digits);
            }
            let (t, e) = get_number(&chars, i);
            tok = t;
            next = e;
        } else if is_letter(c) || (is_operator(c) && i + 1 < n && !is_delimiter(chars[i + 1])) {
            proof {
                lemma_run_end(s, i as int, Run::SymbolText);
            }
            let (t, e) = get_symbol(text, &chars, i);
            tok = t;
            next = e;
        } else if is_operator(c) {
            let op = text.substring_char(i, i + 1).to_owned();
            assert(op@ =~= seq![c]);
            tok = Token::Atom(Atom::Builtin(op));
            next = i + 1;
        } else if c == '(' || c == '[' || c == '{' {
            tok = Token::LParen;
            next = i + 1;
        } else if c == ')' || c == ']' || c == '}' {
            tok = Token::RParen;
            next = i + 1;
        } else if c == '`' || c == '\'' {
            tok = Token::Quasiquote;
            next = i + 1;
        } else if c == ',' {
            tok = Token::Unquote;
            next = i + 1;
        } else {
            return Err(LexError { ch: c });
        }
        assert(scan(s, i as int) == push_front(tok@, scan(s, next as int)));
        proof {
            lemma_prepend_step(token_views(before), tok@, scan(s, next as int));
        }
        res.push(tok);
        assert(token_views(res@) =~= token_views(before).push(tok@));
        i = next;
    }
    assert(token_views(res@) + Seq::<TokenView>::empty() =~= token_views(res@));
    Ok(res)
}

/// A character of text that holds only blanks, brackets, digits and operators.
pub open spec fn plain_char(c: char) -> bool {
    whitespace_char(c) || paren_char(c) || digit_char(c) || operator_char(c)
}

/// Text of plain characters in which each operator character stands alone: it
/// is the last character or the next one is a blank or a bracket.
pub open spec fn plain_text(s: Seq<char>) -> bool {
    &&& forall|i: int| 0 <= i < s.len() ==> plain_char(#[trigger] s[i])
    &&& forall|i: int|
        0 <= i < s.len() && operator_char(#[trigger] s[i]) ==> i + 1 == s.len() || delimiter_char(
            s[i + 1],
        )
}

/// A bracket, a number or a builtin operator: no symbol, string or quote.
pub open spec fn plain_token(t: TokenView) -> bool {
    match t {
        TokenView::LParen => true,
        TokenView::RParen => true,
        TokenView::Atom(AtomView::Integer(_)) => true,
        TokenView::Atom(AtomView::Builtin(_)) => true,
        _ => false,
    }
}

proof fn lemma_plain_scan(s: Seq<char>, i: int)
    requires
        plain_text(s),
        0 <= i <= s.len(),
    ensures
        scan(s, i) is Ok,
        forall|k: int|
            0 <= k < scan(s, i)->Ok_0.len() ==> plain_token(#[trigger] scan(s, i)->Ok_0[k]),
    decreases s.len() - i,
{
    if i < s.len() {
        let c = s[i];
        assert(plain_char(c));
        if whitespace_char(c) {
            lemma_plain_scan(s, i + 1);
        } else if digit_char(c) {
            lemma_run_end(s, i, Run::Digits);
            let e = run_end(s, i, Run::Digits);
            lemma_plain_scan(s, e);
            let t = TokenView::Atom(AtomView::Integer(number_value(s.subrange(i, e))));
            let rest = scan(s, e)->Ok_0;
            assert(scan(s, i)->Ok_0 == seq![t] + rest);
            assert forall|k: int| 0 <= k < scan(s, i)->Ok_0.len() implies plain_token(
                #[trigger] scan(s, i)->Ok_0[k],
            ) by {
                if k > 0 {
                    assert(scan(s, i)->Ok_0[k] == rest[k - 1]);
                }
            }
        } else {
            lemma_plain_scan(s, i + 1);
            let rest = scan(s, i + 1)->Ok_0;
            assert forall|k: int| 0 <= k < scan(s, i)->Ok_0.len() implies plain_token(
                #[trigger] scan(s, i)->Ok_0[k],
            ) by {
                if k > 0 {
                    assert(scan(s, i)->Ok_0[k] == rest[k - 1]);
                }
            }
        }
    }
}

/// Text of blanks, brackets, digits and lone operator characters always lexes,
/// and into brackets, numbers and builtin operators only.
pub proof fn lemma_plain_text_lexes(s: Seq<char>)
    requires
        plain_text(s),
    ensures
        lex_spec(s) is Ok,
        forall|k: int|
            0 <= k < lex_spec(s)->Ok_0.len() ==> plain_token(#[trigger] lex_spec(s)->Ok_0[k]),
{
    lemma_plain_scan(s, 0);
}

} // verus!
