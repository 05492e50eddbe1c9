use vstd::prelude::*;
use crate::lexer::{digit_value, is_digit, is_space, join, lex_digits, lex_from, prepend, Lexed, Token};
use crate::lval::Ast;
use crate::parser::{toks, toks_list, wf, wf_list};
use crate::printer::{render, render_list};
use crate::text::{digit_char, nat_text};
use crate::parses_to;

verus! {

/// The text after position `j` cannot continue a token that ends there.
pub open spec fn boundary(s: Seq<char>, j: int) -> bool {
    j >= s.len() || is_space(s[j]) || s[j] == ')'
}

proof fn lemma_split(s: Seq<char>, i: int, a: Seq<char>, b: Seq<char>)
    requires
        0 <= i,
        i + a.len() + b.len() <= s.len(),
        s.subrange(i, i + a.len() + b.len()) == a + b,
    ensures
        s.subrange(i, i + a.len()) == a,
        s.subrange(i + a.len(), i + a.len() + b.len()) == b,
{
    assert(s.subrange(i, i + a.len()) =~= (a + b).subrange(0, a.len() as int));
    assert(s.subrange(i + a.len(), i + a.len() + b.len()) =~= (a + b).subrange(
        a.len() as int,
        (a.len() + b.len()) as int,
    ));
}

proof fn lemma_join(a: Seq<Token>, b: Seq<Token>, o: Lexed)
    ensures
        join(a, join(b, o)) == join(a + b, o),
        join(Seq::empty(), o) == o,
{
    if let Ok(r) = o {
        assert(a + (b + r) =~= (a + b) + r);
        assert(Seq::<Token>::empty() + r =~= r);
    }
}

proof fn lemma_prepend(t: Token, o: Lexed)
    ensures
        prepend(t, o) == join(seq![t], o),
{
}

proof fn lemma_digit_char(d: int)
    requires
        0 <= d < 10,
    ensures
        is_digit(digit_char(d)),
        digit_value(digit_char(d)) == d,
{
}

proof fn lemma_nat_text(m: nat)
    ensures
        nat_text(m).len() >= 1,
        forall|k: int| 0 <= k < nat_text(m).len() ==> is_digit(#[trigger] nat_text(m)[k]),
    decreases m,
{
    if m < 10 {
        lemma_digit_char(m as int);
    } else {
        lemma_nat_text(m / 10);
        lemma_digit_char((m % 10) as int);
    }
}

/// Reading the digits of `nat_text(m)` gives the magnitude `m`.
proof fn lemma_lex_nat(s: Seq<char>, i: int, m: nat, neg: bool, start: int)
    requires
        0 <= i,
        i + nat_text(m).len() <= s.len(),
        s.subrange(i, i + nat_text(m).len()) == nat_text(m),
    ensures
        lex_digits(s, i + 1, neg, digit_value(s[i]), start) == lex_digits(
            s,
            i + nat_text(m).len(),
            neg,
            m as int,
            start,
        ),
    decreases m,
{
    lemma_nat_text(m);
    assert(s[i] == s.subrange(i, i + nat_text(m).len())[0]);
    if m < 10 {
        lemma_digit_char(m as int);
    } else {
        let p = nat_text(m / 10);
        let d = digit_char((m % 10) as int);
        assert(nat_text(m) =~= p + seq![d]);
        lemma_split(s, i, p, seq![d]);
        lemma_nat_text(m / 10);
        lemma_lex_nat(s, i, m / 10, neg, start);
        lemma_digit_char((m % 10) as int);
        assert(s[i + p.len()] == s.subrange(i + p.len(), i + p.len() + 1)[0]);
        assert((m / 10) as int * 10 + (m % 10) as int == m as int);
    }
}

proof fn lemma_lex_item(t: Ast, s: Seq<char>, i: int)
    requires
        wf(t),
        0 <= i,
        i + render(t).len() <= s.len(),
        s.subrange(i, i + render(t).len()) == render(t),
        boundary(s, i + render(t).len()),
    ensures
        lex_from(s, i) == join(toks(t), lex_from(s, i + render(t).len())),
    decreases t, 0nat,
{
    let j = i + render(t).len();
    match t {
        Ast::Num(n) => {
            if n >= 0 {
                let m = n as nat;
                lemma_nat_text(m);
                assert(s[i] == s.subrange(i, j)[0]);
                lemma_lex_nat(s, i, m, false, i);
            } else {
                let m = (-n) as nat;
                lemma_nat_text(m);
                lemma_split(s, i, seq!['-'], nat_text(m));
                assert(s[i] == s.subrange(i, i + 1)[0]);
                assert(s[i + 1] == s.subrange(i + 1, j)[0]);
                lemma_lex_nat(s, i + 1, m, true, i);
            }
            lemma_prepend(Token::Num(n as i64), lex_from(s, j));
        },
        Ast::Sym(v) => {
            assert(s[i] == s.subrange(i, j)[0]);
            lemma_prepend(Token::Sym(v[0]), lex_from(s, j));
        },
        Ast::List(cs) => {
            let inner = render_list(cs, cs.len());
            lemma_split(s, i, seq!['('] + inner, seq![')']);
            lemma_split(s, i, seq!['('], inner);
            assert(s[i] == s.subrange(i, i + 1)[0]);
            assert(s[j - 1] == s.subrange(j - 1, j)[0]);
            lemma_lex_list(cs, cs.len(), s, i + 1);
            lemma_prepend(Token::Open, lex_from(s, i + 1));
            lemma_prepend(Token::Close, lex_from(s, j));
            let tl = toks_list(cs, cs.len());
            lemma_join(tl, seq![Token::Close], lex_from(s, j));
            lemma_join(seq![Token::Open], tl + seq![Token::Close], lex_from(s, j));
            assert(seq![Token::Open] + (tl + seq![Token::Close]) =~= toks(t));
        },
    }
}

proof fn lemma_lex_list(cs: Seq<Ast>, n: nat, s: Seq<char>, i: int)
    requires
        n <= cs.len(),
        wf_list(cs, n),
        0 <= i,
        i + render_list(cs, n).len() <= s.len(),
        s.subrange(i, i + render_list(cs, n).len()) == render_list(cs, n),
        boundary(s, i + render_list(cs, n).len()),
    ensures
        lex_from(s, i) == join(toks_list(cs, n), lex_from(s, i + render_list(cs, n).len())),
    decreases cs, n,
{
    if n == 0 {
        lemma_join(Seq::empty(), Seq::empty(), lex_from(s, i));
    } else if n == 1 {
        lemma_lex_item(cs[0], s, i);
        assert(toks_list(cs, 0) =~= Seq::<Token>::empty());
        assert(toks_list(cs, 1) =~= toks(cs[0]));
    } else {
        let a = render_list(cs, (n - 1) as nat);
        let b = render(cs[n - 1]);
        lemma_split(s, i, a + seq![' '], b);
        lemma_split(s, i, a, seq![' ']);
        let p = i + a.len();
        assert(s[p] == s.subrange(p, p + 1)[0]);
        lemma_lex_list(cs, (n - 1) as nat, s, i);
        lemma_lex_item(cs[n - 1], s, p + 1);
        lemma_join(toks_list(cs, (n - 1) as nat), toks(cs[n - 1]), lex_from(s, p + 1 + b.len()));
    }
}

/// Printing the top-level forms of a parsed line, as `print_ast_children`
/// does, and parsing that text gives the same tree again.
pub proof fn lemma_round_trip(line: Seq<char>, t: Ast)
    requires
        parses_to(line, t),
    ensures
        parses_to(render_list(t->List_0, t->List_0.len()), t),
{
    let cs = t->List_0;
    let s = render_list(cs, cs.len());
    assert(s.subrange(0, s.len() as int) =~= s);
    lemma_lex_list(cs, cs.len(), s, 0);
    lemma_join(toks_list(cs, cs.len()), Seq::empty(), Ok(Seq::empty()));
    assert(toks_list(cs, cs.len()) + Seq::<Token>::empty() =~= toks_list(cs, cs.len()));
}

/// Parsing the same line twice gives the same tree: what `parse` returns is
/// a function of the line alone.
pub proof fn lemma_parse_deterministic(line: Seq<char>, t1: Ast, t2: Ast)
    requires
        parses_to(line, t1),
        parses_to(line, t2),
    ensures
        t1 == t2,
{
}

} // verus!
