use vstd::prelude::*;
use crate::eval::{in_i64, is_operator};

verus! {

/// A token of the surface syntax.
#[derive(Clone, Copy, Debug, PartialEq, Eq, Structural)]
pub enum Token {
    Open,
    Close,
    Num(i64),
    Sym(char),
}

pub open spec fn is_space(c: char) -> bool {
    c == ' ' || c == '\t' || c == '\n' || c == '\r'
}

pub open spec fn is_digit(c: char) -> bool {
    '0' <= c && c <= '9'
}

pub open spec fn digit_value(c: char) -> int {
    c as int - '0' as int
}

/// The tokens of a text, or the column at which it cannot be read.
pub type Lexed = Result<Seq<Token>, int>;

pub open spec fn prepend(t: Token, rest: Lexed) -> Lexed {
    match rest {
        Ok(r) => Ok(seq![t] + r),
        Err(p) => Err(p),
    }
}

/// The tokens of `s[i..]`. Whitespace separates tokens and is dropped; a
/// numeral is a run of digits, with an optional sign right before it, and must
/// fit in `i64`; an operator character that starts no numeral is a symbol.
/// Any other character makes the line unreadable, at that character; a
/// numeral out of range, at its first character.
pub open spec fn lex_from(s: Seq<char>, i: int) -> Lexed
    decreases s.len() - i, 0nat,
{
    if i < 0 || i >= s.len() {
        Ok(Seq::empty())
    } else if is_space(s[i]) {
        lex_from(s, i + 1)
    } else if s[i] == '(' {
        prepend(Token::Open, lex_from(s, i + 1))
    } else if s[i] == ')' {
        prepend(Token::Close, lex_from(s, i + 1))
    } else if is_digit(s[i]) {
        lex_digits(s, i + 1, false, digit_value(s[i]), i)
    } else if (s[i] == '-' || s[i] == '+') && i + 1 < s.len() && is_digit(s[i + 1]) {
        lex_digits(s, i + 2, s[i] == '-', digit_value(s[i + 1]), i)
    } else if is_operator(s[i]) {
        prepend(Token::Sym(s[i]), lex_from(s, i + 1))
    } else {
        Err(i)
    }
}

/// The rest of a numeral that starts at `start` and whose digits so far have
/// the magnitude `mag`, followed by the tokens after it.
pub open spec fn lex_digits(s: Seq<char>, i: int, neg: bool, mag: int, start: int) -> Lexed
    decreases s.len() - i, 1nat,
{
    if 0 <= i < s.len() && is_digit(s[i]) {
        lex_digits(s, i + 1, neg, mag * 10 + digit_value(s[i]), start)
    } else {
        let v = if neg {
            -mag
        } else {
            mag
        };
        if in_i64(v) {
            prepend(Token::Num(v as i64), lex_from(s, i))
        } else {
            Err(start)
        }
    }
}

/// Every symbol among the tokens is an operator character.
pub open spec fn operators_only(ts: Seq<Token>) -> bool {
    forall|j: int| 0 <= j < ts.len() ==> (#[trigger] ts[j] matches Token::Sym(c) ==> is_operator(c))
}

pub open spec fn lex(s: Seq<char>) -> Lexed {
    lex_from(s, 0)
}

pub open spec fn join(p: Seq<Token>, o: Lexed) -> Lexed {
    match o {
        Ok(r) => Ok(p + r),
        Err(q) => Err(q),
    }
}

proof fn lemma_join_prepend(p: Seq<Token>, t: Token, o: Lexed)
    ensures
        join(p, prepend(t, o)) == join(p.push(t), o),
{
    if let Ok(r) = o {
        assert(p + (seq![t] + r) =~= p.push(t) + r);
    }
}

/// A bound above every magnitude that fits in `i64`.
const MAG_CAP: i128 = 9223372036854775809;

/// The characters of a line, in order.
pub fn chars_of(line: &str) -> (r: Vec<char>)
    ensures
        r@ == line@,
{
    let n = line.unicode_len();
    let mut r: Vec<char> = Vec::new();
    let mut i: usize = 0;
    while i < n
        invariant
            n == line@.len(),
            i <= n,
            r@ == line@.subrange(0, i as int),
        decreases n - i,
    {
        r.push(line.get_char(i));
        i = i + 1;
        assert(r@ =~= line@.subrange(0, i as int));
    }
    assert(r@ =~= line@);
    r
}

/// The grammar of a line: numbers, operator symbols and parenthesised lists.
pub struct RisprParser;

impl RisprParser {
    /// Splits a line into tokens, each with the column at which it starts,
    /// or says at which character the line cannot be read.
    pub fn tokenize(s: &Vec<char>) -> (r: Result<(Vec<Token>, Vec<usize>), usize>)
        ensures
            match lex(s@) {
                Ok(ts) => {
                    &&& r is Ok
                    &&& r->Ok_0.0@ == ts
                    &&& operators_only(ts)
                    &&& r->Ok_0.1@.len() == ts.len()
                    &&& forall|j: int| 0 <= j < ts.len() ==> #[trigger] r->Ok_0.1@[j] < s@.len()
                },
                Err(p) => r is Err && r->Err_0 == p && p < s@.len(),
            },
    {
        let mut toks: Vec<Token> = Vec::new();
        let mut cols: Vec<usize> = Vec::new();
        let mut i: usize = 0;
        assert(toks@ + lex_from(s@, 0)->Ok_0 =~= lex_from(s@, 0)->Ok_0);
        while i < s.len()
            invariant
                i <= s.len(),
                lex(s@) == join(toks@, lex_from(s@, i as int)),
                operators_only(toks@),
                cols@.len() == toks@.len(),
                forall|j: int| 0 <= j < cols@.len() ==> #[trigger] cols@[j] < s@.len(),
            decreases s.len() - i,
        {
            let c = s[i];
            if c == ' ' || c == '\t' || c == '\n' || c == '\r' {
                i = i + 1;
            } else if c == '(' {
                proof {
                    lemma_join_prepend(toks@, Token::Open, lex_from(s@, i + 1));
                }
                toks.push(Token::Open);
                cols.push(i);
                i = i + 1;
            } else if c == ')' {
                proof {
                    lemma_join_prepend(toks@, Token::Close, lex_from(s@, i + 1));
                }
                toks.push(Token::Close);
                cols.push(i);
                i = i + 1;
            } else if ('0' <= c && c <= '9') || ((c == '-' || c == '+') && i + 1 < s.len() && '0'
                <= s[i + 1] && s[i + 1] <= '9') {
                let start = i;
                let neg = c == '-';
                if !('0' <= c && c <= '9') {
                    i = i + 1;
                }
                let mut mag: i128 = (s[i] as u32 - '0' as u32) as i128;
                let ghost mut gmag: int = mag as int;
                i = i + 1;
                while i < s.len() && '0' <= s[i] && s[i] <= '9'
                    invariant
                        start < i <= s.len(),
                        0 <= mag <= MAG_CAP,
                        gmag >= 0,
                        mag == (if gmag < MAG_CAP {
                            gmag
                        } else {
                            MAG_CAP as int
                        }),
                        lex(s@) == join(toks@, lex_digits(s@, i as int, neg, gmag, start as int)),
                        operators_only(toks@),
                        cols@.len() == toks@.len(),
                        forall|j: int| 0 <= j < cols@.len() ==> #[trigger] cols@[j] < s@.len(),
                    decreases s.len() - i,
                {
                    let d = (s[i] as u32 - '0' as u32) as i128;
                    proof {
                        gmag = gmag * 10 + d;
                    }
                    mag = mag * 10 + d;
                    if mag > MAG_CAP {
                        mag = MAG_CAP;
                    }
                    i = i + 1;
                }
                let v: i128 = if neg {
                    -mag
                } else {
                    mag
                };
                if v < i64::MIN as i128 || v > i64::MAX as i128 {
                    return Err(start);
                }
                proof {
                    lemma_join_prepend(toks@, Token::Num(v as i64), lex_from(s@, i as int));
                }
                toks.push(Token::Num(v as i64));
                cols.push(start);
            } else if c == '+' || c == '-' || c == '*' || c == '/' {
                proof {
                    lemma_join_prepend(toks@, Token::Sym(c), lex_from(s@, i + 1));
                }
                toks.push(Token::Sym(c));
                cols.push(i);
                i = i + 1;
            } else {
                return Err(i);
            }
        }
        assert(toks@ + Seq::<Token>::empty() =~= toks@);
        Ok((toks, cols))
    }
}

} // verus!
