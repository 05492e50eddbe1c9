use vstd::prelude::*;
use crate::lval::{Ast, Lval};
use crate::parser::kids;
use crate::text::{int_text, push_char, push_int};

verus! {

broadcast use vstd::std_specs::vec::axiom_vec_index_decreases;

/// The text of a tree: a leaf as its literal, a list as its children
/// between parentheses, one space apart.
pub open spec fn render(t: Ast) -> Seq<char>
    decreases t, 0nat,
{
    match t {
        Ast::Num(n) => int_text(n),
        Ast::Sym(s) => s,
        Ast::List(cs) => seq!['('] + render_list(cs, cs.len()) + seq![')'],
    }
}

/// The texts of `cs[0]`, ..., `cs[n - 1]`, one space apart.
pub open spec fn render_list(cs: Seq<Ast>, n: nat) -> Seq<char>
    decreases cs, n,
{
    if n == 0 || n > cs.len() {
        Seq::empty()
    } else if n == 1 {
        render(cs[0])
    } else {
        render_list(cs, (n - 1) as nat) + seq![' '] + render(cs[n - 1])
    }
}

fn write_lval(t: &Lval, out: &mut String)
    ensures
        final(out)@ == old(out)@ + render(t@),
    decreases t,
{
    match t {
        Lval::Num(n) => push_int(out, *n),
        Lval::Sym(s) => {
            out.append(s.as_str());
        },
        Lval::Sexp(cs) => {
            push_char(out, '(');
            write_children(cs, out);
            push_char(out, ')');
            assert(t@->List_0 =~= kids(cs@));
            assert(final(out)@ =~= old(out)@ + render(t@));
        },
    }
}

fn write_children(cs: &Vec<Box<Lval>>, out: &mut String)
    ensures
        final(out)@ == old(out)@ + render_list(kids(cs@), cs@.len()),
    decreases cs,
{
    let ghost start = out@;
    let mut i: usize = 0;
    assert(out@ =~= start + render_list(kids(cs@), 0));
    while i < cs.len()
        invariant
            i <= cs.len(),
            out@ == start + render_list(kids(cs@), i as nat),
        decreases cs.len() - i,
    {
        if i > 0 {
            push_char(out, ' ');
        }
        write_lval(&*cs[i], out);
        i = i + 1;
        assert(out@ =~= start + render_list(kids(cs@), i as nat));
    }
}

/// The children of a list as text, one space apart: the text of a program
/// whose top-level forms they are.
pub fn print_ast_children(children: &Vec<Box<Lval>>) -> (r: String)
    ensures
        r@ == render_list(kids(children@), children@.len()),
{
    let mut out = String::new();
    write_children(children, &mut out);
    assert(out@ =~= render_list(kids(children@), children@.len()));
    out
}

impl Lval {
    /// The text of the tree.
    pub fn to_string(&self) -> (r: String)
        ensures
            r@ == render(self@),
    {
        let mut out = String::new();
        write_lval(self, &mut out);
        assert(out@ =~= render(self@));
        out
    }
}

} // verus!
