use vstd::prelude::*;

verus! {

broadcast use vstd::std_specs::vec::axiom_vec_index_decreases;

/// The mathematical form of a tree: what a `Lval` stands for.
pub enum Ast {
    Num(int),
    Sym(Seq<char>),
    List(Seq<Ast>),
}

/// A node of the syntax tree. A list owns its children, in order.
#[derive(Debug, PartialEq)]
pub enum Lval {
    Num(i64),
    Sym(String),
    Sexp(Vec<Box<Lval>>),
}

impl Lval {
    pub open spec fn view(&self) -> Ast
        decreases self,
    {
        match self {
            Lval::Num(n) => Ast::Num(*n as int),
            Lval::Sym(s) => Ast::Sym(s@),
            Lval::Sexp(cs) => Ast::List(
                Seq::new(
                    cs.len() as nat,
                    |i: int|
                        if 0 <= i < cs.len() {
                            (*cs[i]).view()
                        } else {
                            Ast::Num(0)
                        },
                ),
            ),
        }
    }
}

} // verus!
