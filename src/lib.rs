//! A small S-expression calculator: a parser from one line of text to a tree
//! of numbers, symbols and lists, a printer back to text, and an evaluator of
//! variadic integer arithmetic over that tree.
use vstd::prelude::*;

pub mod error;
pub mod eval;
pub mod laws;
pub mod lexer;
pub mod lval;
pub mod parser;
pub mod printer;
pub mod text;

pub use error::{EvalFault, RisprError};
pub use eval::evaluate_ast;
pub use lexer::RisprParser;
pub use lval::Lval;
pub use printer::print_ast_children;

use eval::{eval, reports};
use lexer::{chars_of, lex};
use lval::Ast;
use parser::{build, build_tree, toks_list, well_nested, wf_list, Misnesting};
use text::{nat_text, push_nat};

verus! {

/// A line that the grammar accepts: it splits into tokens, and they nest.
pub open spec fn parsable(line: Seq<char>) -> bool {
    lex(line) matches Ok(ts) && well_nested(ts)
}

/// `t` is the tree of the accepted line `line`: the tree built from its
/// tokens, a list of well-formed forms that is written with exactly those
/// tokens.
pub open spec fn parses_to(line: Seq<char>, t: Ast) -> bool {
    match lex(line) {
        Ok(ts) => {
            &&& well_nested(ts)
            &&& t == build(ts)
            &&& t is List
            &&& toks_list(t->List_0, t->List_0.len()) == ts
            &&& wf_list(t->List_0, t->List_0.len())
        },
        Err(_) => false,
    }
}

/// The value of a program: a program of one form is that form; a program of
/// several is read as one list.
pub open spec fn eval_program(t: Ast) -> Result<int, EvalFault> {
    match t {
        Ast::List(cs) => if cs.len() == 1 {
            eval(cs[0])
        } else {
            eval(t)
        },
        _ => eval(t),
    }
}

fn misnesting_message(m: Misnesting, cols: &Vec<usize>) -> String
    requires
        m matches Misnesting::UnexpectedClose(k) ==> k < cols@.len(),
        m matches Misnesting::EmptyList(k) ==> 1 <= k < cols@.len(),
        forall|j: int| 0 <= j < cols@.len() ==> #[trigger] cols@[j] < usize::MAX,
{
    match m {
        Misnesting::NoInput => String::from_str("empty input"),
        Misnesting::UnexpectedClose(k) => {
            let mut msg = String::from_str("unexpected ')' at column ");
            push_nat(&mut msg, (cols[k] + 1) as u64);
            msg
        },
        Misnesting::EmptyList(k) => {
            let mut msg = String::from_str("empty expression '()' at column ");
            push_nat(&mut msg, (cols[k - 1] + 1) as u64);
            msg
        },
        Misnesting::Unclosed => String::from_str("missing ')'"),
    }
}

/// Converts a line into its syntax tree.
pub fn parse(line: &str) -> (r: Result<Lval, RisprError>)
    ensures
        parsable(line@) <==> r is Ok,
        r is Ok ==> parses_to(line@, r->Ok_0@),
        r is Err ==> r->Err_0 is ParseError,
        lex(line@) matches Err(p) ==> r matches Err(RisprError::ParseError(m)) && m@
            == "unexpected input at column "@ + nat_text((p + 1) as nat),
{
    let chars = chars_of(line);
    match RisprParser::tokenize(&chars) {
        Err(at) => {
            let mut msg = String::from_str("unexpected input at column ");
            push_nat(&mut msg, (at + 1) as u64);
            Err(RisprError::ParseError(msg))
        },
        Ok((ts, cols)) => match build_tree(&ts) {
            Ok(t) => Ok(t),
            Err(m) => Err(RisprError::ParseError(misnesting_message(m, &cols))),
        },
    }
}

/// Reduces a program tree to an integer.
pub fn evaluate_program(tree: &Lval) -> (r: Result<i64, RisprError>)
    ensures
        reports(r, eval_program(tree@)),
{
    if let Lval::Sexp(cs) = tree {
        if cs.len() == 1 {
            return evaluate_ast(&*cs[0]);
        }
    }
    evaluate_ast(tree)
}

/// Parses a line and reduces it to an integer.
pub fn evaluate(line: &str) -> (r: Result<i64, RisprError>)
    ensures
        !parsable(line@) ==> r is Err && r->Err_0 is ParseError,
        parsable(line@) ==> reports(r, eval_program(build(lex(line@)->Ok_0))),
{
    match parse(line) {
        Ok(t) => evaluate_program(&t),
        Err(e) => Err(e),
    }
}

} // verus!
