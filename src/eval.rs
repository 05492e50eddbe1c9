use vstd::prelude::*;
use crate::error::{EvalFault, RisprError};
use crate::lval::{Ast, Lval};

verus! {

broadcast use vstd::std_specs::vec::axiom_vec_index_decreases;

pub open spec fn in_i64(v: int) -> bool {
    i64::MIN <= v <= i64::MAX
}

/// Integer division that truncates toward zero.
pub open spec fn trunc_div(a: int, b: int) -> int {
    if a == 0 {
        0
    } else if a > 0 && b > 0 {
        a / b
    } else if a < 0 && b < 0 {
        (a * -1) / (b * -1)
    } else if a < 0 {
        ((a * -1) / b) * -1
    } else {
        (a / (b * -1)) * -1
    }
}

pub open spec fn is_operator(c: char) -> bool {
    c == '+' || c == '-' || c == '*' || c == '/'
}

/// The operator that a symbol names, if it names one.
pub open spec fn operator_of(s: Seq<char>) -> Option<char> {
    if s.len() == 1 && is_operator(s[0]) {
        Some(s[0])
    } else {
        None
    }
}

/// One step of an operator on two integers, with the failures it can meet.
pub open spec fn apply(op: char, a: int, b: int) -> Result<int, EvalFault> {
    if op == '/' && b == 0 {
        Err(EvalFault::DivisionByZero)
    } else {
        let v = if op == '+' {
            a + b
        } else if op == '-' {
            a - b
        } else if op == '*' {
            a * b
        } else {
            trunc_div(a, b)
        };
        if in_i64(v) {
            Ok(v)
        } else {
            Err(EvalFault::Overflow)
        }
    }
}

/// Applies `op` from the left: `acc op xs[0] op xs[1] ...`.
pub open spec fn fold_left(op: char, acc: int, xs: Seq<int>) -> Result<int, EvalFault>
    decreases xs.len(),
{
    if xs.len() == 0 {
        Ok(acc)
    } else {
        match apply(op, acc, xs[0]) {
            Ok(a) => fold_left(op, a, xs.drop_first()),
            Err(e) => Err(e),
        }
    }
}

/// What an operator gives on its evaluated operands: `+` and `*` start from
/// their identity, `-` and `/` from their first operand, and give 0 with none.
pub open spec fn combine(op: char, xs: Seq<int>) -> Result<int, EvalFault> {
    if op == '+' {
        fold_left(op, 0, xs)
    } else if op == '*' {
        fold_left(op, 1, xs)
    } else if xs.len() == 0 {
        Ok(0)
    } else {
        fold_left(op, xs[0], xs.drop_first())
    }
}

/// The value of a tree: a number is itself; a list whose head is a number is
/// that number; a list whose head is an operator applies it to the values of
/// the other children, taken left to right; everything else is 0.
pub open spec fn eval(t: Ast) -> Result<int, EvalFault>
    decreases t, 1nat,
{
    match t {
        Ast::Num(n) => Ok(n),
        Ast::Sym(_) => Ok(0),
        Ast::List(cs) => {
            if cs.len() == 0 {
                Ok(0)
            } else {
                match cs[0] {
                    Ast::Num(n) => Ok(n),
                    Ast::Sym(s) => match operator_of(s) {
                        Some(op) => match eval_operands(cs, cs.len()) {
                            Ok(xs) => combine(op, xs),
                            Err(e) => Err(e),
                        },
                        None => Ok(0),
                    },
                    Ast::List(_) => Ok(0),
                }
            }
        },
    }
}

/// The values of `cs[1]`, ..., `cs[n - 1]`, or the first failure among them.
pub open spec fn eval_operands(cs: Seq<Ast>, n: nat) -> Result<Seq<int>, EvalFault>
    decreases cs, n,
{
    if n <= 1 || n > cs.len() {
        Ok(Seq::empty())
    } else {
        match eval_operands(cs, (n - 1) as nat) {
            Ok(xs) => match eval(cs[n - 1]) {
                Ok(v) => Ok(xs.push(v)),
                Err(e) => Err(e),
            },
            Err(e) => Err(e),
        }
    }
}

/// Whether `r` reports the outcome `o`: the same value, or the same fault.
pub open spec fn reports(r: Result<i64, RisprError>, o: Result<int, EvalFault>) -> bool {
    match o {
        Ok(v) => r is Ok && r->Ok_0 as int == v,
        Err(f) => r == Err::<i64, RisprError>(RisprError::EvalError(f)),
    }
}

/// Whether `r` holds the outcome `o`: the same value, or the same fault.
pub open spec fn holds(r: Result<i64, EvalFault>, o: Result<int, EvalFault>) -> bool {
    match o {
        Ok(v) => r is Ok && r->Ok_0 as int == v,
        Err(f) => r == Err::<i64, EvalFault>(f),
    }
}

proof fn lemma_operands_fail(cs: Seq<Ast>, k: nat, n: nat)
    requires
        1 <= k <= n <= cs.len(),
        eval_operands(cs, k) is Err,
    ensures
        eval_operands(cs, n) == eval_operands(cs, k),
    decreases n - k,
{
    if n > k {
        lemma_operands_fail(cs, k, (n - 1) as nat);
    }
}

fn apply_exec(op: char, a: i64, b: i64) -> (r: Result<i64, EvalFault>)
    requires
        is_operator(op),
    ensures
        holds(r, apply(op, a as int, b as int)),
{
    if op == '/' && b == 0 {
        return Err(EvalFault::DivisionByZero);
    }
    let c = if op == '+' {
        a.checked_add(b)
    } else if op == '-' {
        a.checked_sub(b)
    } else if op == '*' {
        a.checked_mul(b)
    } else {
        a.checked_div(b)
    };
    match c {
        Some(v) => Ok(v),
        None => Err(EvalFault::Overflow),
    }
}

/// Folds the operator over the operands, left to right.
fn combine_exec(op: char, xs: &Vec<i64>) -> (r: Result<i64, EvalFault>)
    requires
        is_operator(op),
    ensures
        holds(r, combine(op, xs@.map_values(|x: i64| x as int))),
{
    let ghost ys = xs@.map_values(|x: i64| x as int);
    let mut acc: i64;
    let mut i: usize;
    if op == '+' {
        acc = 0;
        i = 0;
    } else if op == '*' {
        acc = 1;
        i = 0;
    } else if xs.len() == 0 {
        return Ok(0);
    } else {
        acc = xs[0];
        i = 1;
        assert(ys.drop_first() =~= ys.subrange(1, ys.len() as int));
    }
    assert(ys.subrange(0, ys.len() as int) =~= ys);
    while i < xs.len()
        invariant
            i <= xs.len(),
            ys == xs@.map_values(|x: i64| x as int),
            is_operator(op),
            combine(op, ys) == fold_left(op, acc as int, ys.subrange(i as int, ys.len() as int)),
        decreases xs.len() - i,
    {
        let ghost rest = ys.subrange(i as int, ys.len() as int);
        assert(rest.drop_first() =~= ys.subrange(i + 1, ys.len() as int));
        match apply_exec(op, acc, xs[i]) {
            Ok(v) => {
                acc = v;
            },
            Err(e) => {
                return Err(e);
            },
        }
        i = i + 1;
    }
    Ok(acc)
}

/// Reduces a tree to an integer.
pub fn evaluate_ast(tree: &Lval) -> (r: Result<i64, RisprError>)
    ensures
        reports(r, eval(tree@)),
    decreases tree,
{
    match tree {
        Lval::Num(n) => Ok(*n),
        Lval::Sym(_) => Ok(0),
        Lval::Sexp(exp) => {
            if exp.len() == 0 {
                return Ok(0);
            }
            let ghost cs = tree@->List_0;
            match &*exp[0] {
                Lval::Num(n) => Ok(*n),
                Lval::Sexp(_) => Ok(0),
                Lval::Sym(name) => {
                    assert(cs[0] == (*exp[0])@);
                    let s = name.as_str();
                    if s.unicode_len() != 1 {
                        return Ok(0);
                    }
                    let op = s.get_char(0);
                    if !(op == '+' || op == '-' || op == '*' || op == '/') {
                        return Ok(0);
                    }
                    let mut vals: Vec<i64> = Vec::new();
                    let mut i: usize = 1;
                    assert(vals@.map_values(|x: i64| x as int) =~= Seq::<int>::empty());
                    while i < exp.len()
                        invariant
                            1 <= i <= exp.len(),
                            cs == tree@->List_0,
                            tree@ == (Ast::List(cs)),
                            cs.len() == exp.len(),
                            *tree == Lval::Sexp(*exp),
                            operator_of(cs[0]->Sym_0) == Some(op),
                            cs[0] is Sym,
                            eval_operands(cs, i as nat) == Ok::<Seq<int>, EvalFault>(
                                vals@.map_values(|x: i64| x as int),
                            ),
                        decreases exp.len() - i,
                    {
                        assert(cs[i as int] == (*exp[i as int])@);
                        let v = evaluate_ast(&*exp[i]);
                        match v {
                            Ok(x) => {
                                proof {
                                    let ys = vals@.map_values(|x: i64| x as int);
                                    assert(vals@.push(x).map_values(|x: i64| x as int) =~= ys.push(
                                        x as int,
                                    ));
                                }
                                vals.push(x);
                            },
                            Err(e) => {
                                proof {
                                    lemma_operands_fail(cs, (i + 1) as nat, cs.len());
                                }
                                return Err(e);
                            },
                        }
                        i = i + 1;
                    }
                    match combine_exec(op, &vals) {
                        Ok(v) => Ok(v),
                        Err(f) => Err(RisprError::EvalError(f)),
                    }
                },
            }
        },
    }
}

} // verus!
