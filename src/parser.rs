use vstd::prelude::*;
use crate::eval::{in_i64, is_operator};
use crate::lexer::{operators_only, Token};
use crate::lval::{Ast, Lval};
use crate::text::push_char;

verus! {

/// The tokens that a tree is written with.
pub open spec fn toks(t: Ast) -> Seq<Token>
    decreases t, 0nat,
{
    match t {
        Ast::Num(n) => seq![Token::Num(n as i64)],
        Ast::Sym(s) => if s.len() > 0 {
            seq![Token::Sym(s[0])]
        } else {
            Seq::empty()
        },
        Ast::List(cs) => seq![Token::Open] + toks_list(cs, cs.len()) + seq![Token::Close],
    }
}

/// The tokens of `cs[0]`, ..., `cs[n - 1]`, one after the other.
pub open spec fn toks_list(cs: Seq<Ast>, n: nat) -> Seq<Token>
    decreases cs, n,
{
    if n == 0 || n > cs.len() {
        Seq::empty()
    } else {
        toks_list(cs, (n - 1) as nat) + toks(cs[n - 1])
    }
}

/// A tree that the grammar can produce: numbers fit in `i64`, symbols are
/// one operator character, and lists are not empty.
pub open spec fn wf(t: Ast) -> bool
    decreases t, 0nat,
{
    match t {
        Ast::Num(n) => in_i64(n),
        Ast::Sym(s) => s.len() == 1 && is_operator(s[0]),
        Ast::List(cs) => cs.len() > 0 && wf_list(cs, cs.len()),
    }
}

pub open spec fn wf_list(cs: Seq<Ast>, n: nat) -> bool
    decreases cs, n,
{
    if n == 0 || n > cs.len() {
        true
    } else {
        wf_list(cs, (n - 1) as nat) && wf(cs[n - 1])
    }
}

/// How many lists are open after the first `k` tokens.
pub open spec fn depth(ts: Seq<Token>, k: int) -> int
    decreases k,
{
    if k <= 0 || k > ts.len() {
        0
    } else {
        depth(ts, k - 1) + match ts[k - 1] {
            Token::Open => 1,
            Token::Close => -1,
            _ => 0,
        }
    }
}

/// The grammar of a line on its tokens: at least one token, every `)`
/// closes an open list that is not empty, and every list is closed.
pub open spec fn well_nested(ts: Seq<Token>) -> bool {
    &&& ts.len() > 0
    &&& depth(ts, ts.len() as int) == 0
    &&& forall|j: int|
        0 <= j < ts.len() && #[trigger] ts[j] == Token::Close ==> j >= 1 && depth(ts, j) >= 1
            && ts[j - 1] != Token::Open
}

/// The lists still open, outermost first, and the children read so far into
/// the innermost one.
pub struct Frames {
    pub outer: Seq<Seq<Ast>>,
    pub cur: Seq<Ast>,
}

/// Reading one token: `(` opens a list, `)` closes the innermost one into its
/// parent, and a number or a symbol is added to the innermost list.
pub open spec fn step(f: Frames, t: Token) -> Frames {
    match t {
        Token::Open => Frames { outer: f.outer.push(f.cur), cur: Seq::empty() },
        Token::Close => if f.outer.len() > 0 {
            Frames { outer: f.outer.drop_last(), cur: f.outer.last().push(Ast::List(f.cur)) }
        } else {
            f
        },
        Token::Num(n) => Frames { outer: f.outer, cur: f.cur.push(Ast::Num(n as int)) },
        Token::Sym(c) => Frames { outer: f.outer, cur: f.cur.push(Ast::Sym(seq![c])) },
    }
}

pub open spec fn run(ts: Seq<Token>, k: int) -> Frames
    decreases k,
{
    if k <= 0 || k > ts.len() {
        Frames { outer: Seq::empty(), cur: Seq::empty() }
    } else {
        step(run(ts, k - 1), ts[k - 1])
    }
}

/// The tree of a program: the list of its top-level forms.
pub open spec fn build(ts: Seq<Token>) -> Ast {
    Ast::List(run(ts, ts.len() as int).cur)
}

/// The tokens of the open lists: each list's children so far, then its `(`.
pub open spec fn outer_toks(outer: Seq<Seq<Ast>>) -> Seq<Token>
    decreases outer.len(),
{
    if outer.len() == 0 {
        Seq::empty()
    } else {
        outer_toks(outer.drop_last()) + toks_list(outer.last(), outer.last().len())
            + seq![Token::Open]
    }
}

pub open spec fn kids(v: Seq<Box<Lval>>) -> Seq<Ast> {
    Seq::new(v.len(), |i: int| (*v[i])@)
}

proof fn lemma_view_sexp(v: Vec<Box<Lval>>)
    ensures
        (Lval::Sexp(v))@ == Ast::List(kids(v@)),
{
    assert((Lval::Sexp(v))@->List_0 =~= kids(v@));
}

pub open spec fn frames_of(stack: Seq<Vec<Box<Lval>>>) -> Seq<Seq<Ast>> {
    stack.map_values(|f: Vec<Box<Lval>>| kids(f@))
}

proof fn lemma_toks_list_prefix(a: Seq<Ast>, b: Seq<Ast>, n: nat)
    requires
        n <= a.len(),
        n <= b.len(),
        forall|i: int| 0 <= i < n ==> a[i] == b[i],
    ensures
        toks_list(a, n) == toks_list(b, n),
        wf_list(a, n) == wf_list(b, n),
    decreases n,
{
    if n > 0 {
        lemma_toks_list_prefix(a, b, (n - 1) as nat);
    }
}

proof fn lemma_push(cs: Seq<Ast>, x: Ast)
    ensures
        toks_list(cs.push(x), cs.len() + 1) == toks_list(cs, cs.len()) + toks(x),
        wf_list(cs.push(x), cs.len() + 1) == (wf_list(cs, cs.len()) && wf(x)),
{
    lemma_toks_list_prefix(cs.push(x), cs, cs.len());
}

proof fn lemma_close(prefix: Seq<Token>, outer: Seq<Seq<Ast>>, cur: Seq<Ast>)
    requires
        outer.len() > 0,
        prefix == outer_toks(outer) + toks_list(cur, cur.len()),
    ensures
        prefix.push(Token::Close) == outer_toks(outer.drop_last()) + toks_list(
            outer.last().push(Ast::List(cur)),
            outer.last().len() + 1,
        ),
{
    lemma_push(outer.last(), Ast::List(cur));
    assert(prefix.push(Token::Close) =~= outer_toks(outer.drop_last()) + toks_list(
        outer.last().push(Ast::List(cur)),
        outer.last().len() + 1,
    ));
}

/// What goes wrong when a token sequence is not a program; a position is
/// the index of the offending token.
pub enum Misnesting {
    NoInput,
    UnexpectedClose(usize),
    EmptyList(usize),
    Unclosed,
}

/// Builds the tree of a program from its tokens.
#[verifier::rlimit(80)]
#[verifier::spinoff_prover]
pub fn build_tree(ts: &Vec<Token>) -> (r: Result<Lval, Misnesting>)
    requires
        operators_only(ts@),
    ensures
        well_nested(ts@) <==> r is Ok,
        r is Ok ==> r->Ok_0@ == build(ts@),
        r is Ok ==> r->Ok_0@ is List,
        r is Ok ==> toks_list(r->Ok_0@->List_0, r->Ok_0@->List_0.len()) == ts@,
        r is Ok ==> wf_list(r->Ok_0@->List_0, r->Ok_0@->List_0.len()),
        r matches Err(Misnesting::NoInput) ==> ts@.len() == 0,
        r matches Err(Misnesting::UnexpectedClose(k)) ==> k < ts@.len() && ts@[k as int]
            == Token::Close && depth(ts@, k as int) == 0,
        r matches Err(Misnesting::EmptyList(k)) ==> 1 <= k < ts@.len() && ts@[k as int]
            == Token::Close && ts@[k - 1] == Token::Open,
        r matches Err(Misnesting::Unclosed) ==> depth(ts@, ts@.len() as int) > 0,
{
    if ts.len() == 0 {
        return Err(Misnesting::NoInput);
    }
    let mut stack: Vec<Vec<Box<Lval>>> = Vec::new();
    let mut cur: Vec<Box<Lval>> = Vec::new();
    let mut k: usize = 0;
    assert(frames_of(stack@) =~= Seq::<Seq<Ast>>::empty());
    assert(kids(cur@) =~= Seq::<Ast>::empty());
    assert(ts@.subrange(0, 0) =~= outer_toks(frames_of(stack@)) + toks_list(kids(cur@), 0));
    while k < ts.len()
        invariant
            0 < ts.len(),
            k <= ts.len(),
            operators_only(ts@),
            run(ts@, k as int) == (Frames { outer: frames_of(stack@), cur: kids(cur@) }),
            ts@.subrange(0, k as int) == outer_toks(frames_of(stack@)) + toks_list(
                kids(cur@),
                kids(cur@).len(),
            ),
            wf_list(kids(cur@), kids(cur@).len()),
            forall|j: int|
                0 <= j < stack@.len() ==> wf_list(
                    #[trigger] frames_of(stack@)[j],
                    frames_of(stack@)[j].len(),
                ),
            depth(ts@, k as int) == stack@.len(),
            forall|j: int|
                0 <= j < k && #[trigger] ts@[j] == Token::Close ==> j >= 1 && depth(ts@, j)
                    >= 1 && ts@[j - 1] != Token::Open,
            cur@.len() == 0 && stack@.len() > 0 ==> k >= 1 && ts@[k - 1] == Token::Open,
        decreases ts.len() - k,
    {
        let ghost f0 = frames_of(stack@);
        let ghost c0 = kids(cur@);
        let t = ts[k];
        assert(ts@.subrange(0, k + 1) =~= ts@.subrange(0, k as int).push(t));
        match t {
            Token::Open => {
                stack.push(cur);
                cur = Vec::new();
                assert(frames_of(stack@) =~= f0.push(c0));
                assert(frames_of(stack@).drop_last() =~= f0);
                assert(kids(cur@) =~= Seq::<Ast>::empty());
                assert(ts@.subrange(0, k + 1) =~= outer_toks(frames_of(stack@)) + toks_list(
                    kids(cur@),
                    kids(cur@).len(),
                ));
            },
            Token::Close => {
                if stack.len() == 0 {
                    return Err(Misnesting::UnexpectedClose(k));
                }
                if cur.len() == 0 {
                    return Err(Misnesting::EmptyList(k));
                }
                let mut top = stack.pop().unwrap();
                let ghost p0 = kids(top@);
                proof {
                    lemma_view_sexp(cur);
                }
                let node = Lval::Sexp(cur);
                top.push(Box::new(node));
                cur = top;
                assert(kids(cur@) =~= p0.push(Ast::List(c0)));
                assert(frames_of(stack@) =~= f0.drop_last());
                assert(f0.last() == p0);
                proof {
                    lemma_push(p0, Ast::List(c0));
                    assert(wf_list(f0[f0.len() - 1], f0[f0.len() - 1].len()));
                    lemma_close(ts@.subrange(0, k as int), f0, c0);
                }
            },
            Token::Num(n) => {
                cur.push(Box::new(Lval::Num(n)));
                assert(kids(cur@) =~= c0.push(Ast::Num(n as int)));
                proof {
                    lemma_push(c0, Ast::Num(n as int));
                }
                assert(ts@.subrange(0, k + 1) =~= outer_toks(frames_of(stack@)) + toks_list(
                    kids(cur@),
                    kids(cur@).len(),
                ));
            },
            Token::Sym(c) => {
                let mut name = String::new();
                push_char(&mut name, c);
                assert(name@ =~= seq![c]);
                cur.push(Box::new(Lval::Sym(name)));
                assert(kids(cur@) =~= c0.push(Ast::Sym(seq![c])));
                proof {
                    lemma_push(c0, Ast::Sym(seq![c]));
                }
                assert(ts@.subrange(0, k + 1) =~= outer_toks(frames_of(stack@)) + toks_list(
                    kids(cur@),
                    kids(cur@).len(),
                ));
            },
        }
        k = k + 1;
    }
    if stack.len() > 0 {
        return Err(Misnesting::Unclosed);
    }
    assert(ts@.subrange(0, ts@.len() as int) =~= ts@);
    proof {
        lemma_view_sexp(cur);
    }
    let tree = Lval::Sexp(cur);
    Ok(tree)
}

} // verus!
