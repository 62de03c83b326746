//! Recursive-descent parser for the predicate language.
//!
//! Grammar, with precedence from highest to lowest: parentheses and atoms,
//! `&` (left-associative), `\` (same level as `&`), `|` (right-associative).
//! `A \ B` evaluates as `A` and not `B`.
use vstd::prelude::*;

use crate::boolean::{Expr, ExprV};
use crate::dates::utc_midnight;
use crate::errors::{error, Error, Res};
use crate::fsexpr::{matcher_new, regex_ok, AtomV, FsAtom};
use crate::fstok::{lemma_toks_view, spec_tokenize, toks_view, Token, TokenV};

verus! {

/// Tokens left from position `i` on; the parser's termination measure.
pub open spec fn tleft(s: Seq<TokenV>, i: int) -> int {
    if i <= s.len() {
        s.len() - i
    } else {
        0
    }
}

/// The model of an atom expression.
pub open spec fn atom(a: AtomV) -> ExprV<AtomV> {
    ExprV::Atom(a)
}

/// Parses one factor at `i`: an atom, `%t`, `%f`, or a parenthesized
/// expression.  Returns the expression and how many tokens it took.
pub open spec fn spec_eat_one(s: Seq<TokenV>, i: int) -> Result<(ExprV<AtomV>, nat), Seq<char>>
    decreases tleft(s, i), 0int,
{
    if i < 0 || i >= s.len() {
        Err("Invalid syntax"@)
    } else {
        match s[i] {
            TokenV::False => Ok((ExprV::False, 1nat)),
            TokenV::True => Ok((ExprV::True, 1nat)),
            TokenV::Drive => if i + 1 < s.len() && s[i + 1] matches TokenV::Unsigned(x) {
                Ok((atom(AtomV::Drive(s[i + 1]->Unsigned_0)), 2nat))
            } else {
                Err("Invalid syntax"@)
            },
            TokenV::Smaller => if i + 1 < s.len() && s[i + 1] matches TokenV::Unsigned(x) {
                Ok((atom(AtomV::Smaller(s[i + 1]->Unsigned_0)), 2nat))
            } else {
                Err("Invalid syntax"@)
            },
            TokenV::Larger => if i + 1 < s.len() && s[i + 1] matches TokenV::Unsigned(x) {
                Ok((atom(AtomV::Larger(s[i + 1]->Unsigned_0)), 2nat))
            } else {
                Err("Invalid syntax"@)
            },
            TokenV::Before => if i + 1 < s.len() && s[i + 1] matches TokenV::Date(d) {
                match utc_midnight(
                    s[i + 1]->Date_0.year,
                    s[i + 1]->Date_0.month as u8,
                    s[i + 1]->Date_0.day as u8,
                ) {
                    Some(t) => Ok((atom(AtomV::Before(t)), 2nat)),
                    None => Err("Invalid date"@),
                }
            } else {
                Err("Invalid syntax"@)
            },
            TokenV::After => if i + 1 < s.len() && s[i + 1] matches TokenV::Date(d) {
                match utc_midnight(
                    s[i + 1]->Date_0.year,
                    s[i + 1]->Date_0.month as u8,
                    s[i + 1]->Date_0.day as u8,
                ) {
                    Some(t) => Ok((atom(AtomV::After(t)), 2nat)),
                    None => Err("Invalid date"@),
                }
            } else {
                Err("Invalid syntax"@)
            },
            TokenV::Name => if i + 1 < s.len() && s[i + 1] matches TokenV::Str(p) {
                if regex_ok(s[i + 1]->Str_0) {
                    Ok((atom(AtomV::NameMatch(s[i + 1]->Str_0)), 2nat))
                } else {
                    Err("Invalid regex: "@ + s[i + 1]->Str_0)
                }
            } else {
                Err("Invalid syntax"@)
            },
            TokenV::Str(p) => if regex_ok(p) {
                Ok((atom(AtomV::PathMatch(p)), 1nat))
            } else {
                Err("Invalid regex: "@ + p)
            },
            TokenV::LPar => match spec_eat(s, i + 1) {
                Err(m) => Err(m),
                Ok((x, k)) => {
                    if i + 1 + k < s.len() && (s[i + 1 + k] matches TokenV::RPar) {
                        Ok((x, k + 2))
                    } else {
                        Err("Expecting right parenthesis"@)
                    }
                },
            },
            _ => Err("Invalid syntax"@),
        }
    }
}

/// Parses what may follow a finished factor at `i`: a `\` factor, an `&`
/// chain, an `|` continuation, or nothing.
pub open spec fn spec_eat_rest(s: Seq<TokenV>, i: int, x: ExprV<AtomV>) -> Result<
    (ExprV<AtomV>, nat),
    Seq<char>,
>
    decreases tleft(s, i), 1int,
{
    if i < 0 || i >= s.len() {
        Ok((x, 0nat))
    } else {
        match s[i] {
            TokenV::Diff => match spec_eat_one(s, i + 1) {
                Err(m) => Err(m),
                Ok((y, k)) => match spec_eat_rest(
                    s,
                    i + 1 + k,
                    ExprV::Diff(Box::new(x), Box::new(y)),
                ) {
                    Err(m) => Err(m),
                    Ok((z, k2)) => Ok((z, k + k2 + 1)),
                },
            },
            TokenV::And => match spec_eat_and(s, i + 1, x) {
                Err(m) => Err(m),
                Ok((y, k)) => Ok((y, k + 1)),
            },
            TokenV::Or => match spec_eat(s, i + 1) {
                Err(m) => Err(m),
                Ok((y, k)) => Ok((ExprV::Or(Box::new(x), Box::new(y)), k + 1)),
            },
            _ => Ok((x, 0nat)),
        }
    }
}

/// Parses the factor after an `&` at `i` and folds the chain left,
/// handling a trailing `\` factor or an `|` continuation.
pub open spec fn spec_eat_and(s: Seq<TokenV>, i: int, x: ExprV<AtomV>) -> Result<
    (ExprV<AtomV>, nat),
    Seq<char>,
>
    decreases tleft(s, i), 1int,
{
    match spec_eat_one(s, i) {
        Err(m) => Err(m),
        Ok((y, k)) => {
            let j = i + k;
            if j < s.len() && (s[j] matches TokenV::And) {
                match spec_eat_and(s, j + 1, ExprV::And(Box::new(x), Box::new(y))) {
                    Err(m) => Err(m),
                    Ok((z, k2)) => Ok((z, k + k2 + 1)),
                }
            } else if j < s.len() && (s[j] matches TokenV::Diff) {
                match spec_eat_one(s, j + 1) {
                    Err(m) => Err(m),
                    Ok((z, k2)) => Ok(
                        (
                            ExprV::And(
                                Box::new(x),
                                Box::new(ExprV::Diff(Box::new(y), Box::new(z))),
                            ),
                            k + k2 + 1,
                        ),
                    ),
                }
            } else if j < s.len() && (s[j] matches TokenV::Or) {
                match spec_eat(s, j + 1) {
                    Err(m) => Err(m),
                    Ok((f, k2)) => Ok(
                        (
                            ExprV::Or(
                                Box::new(ExprV::And(Box::new(x), Box::new(y))),
                                Box::new(f),
                            ),
                            k + k2 + 1,
                        ),
                    ),
                }
            } else {
                Ok((ExprV::And(Box::new(x), Box::new(y)), k))
            }
        },
    }
}

/// Parses a whole expression at `i`: a factor and whatever follows it.
pub open spec fn spec_eat(s: Seq<TokenV>, i: int) -> Result<(ExprV<AtomV>, nat), Seq<char>>
    decreases tleft(s, i), 2int,
{
    match spec_eat_one(s, i) {
        Err(m) => Err(m),
        Ok((x, k)) => match spec_eat_rest(s, i + k, x) {
            Err(m) => Err(m),
            Ok((y, k2)) => Ok((y, k + k2)),
        },
    }
}

/// Parses a whole token stream; trailing tokens are an error.
pub open spec fn spec_parse_tokens(s: Seq<TokenV>) -> Result<ExprV<AtomV>, Seq<char>> {
    match spec_eat(s, 0) {
        Err(m) => Err(m),
        Ok((x, k)) => if k == s.len() {
            Ok(x)
        } else {
            Err("Junk at end of expression"@)
        },
    }
}

/// Parses an input string: tokens first, then the grammar.
pub open spec fn spec_parse(s: Seq<char>) -> Result<ExprV<AtomV>, Seq<char>> {
    match spec_tokenize(s) {
        Err(m) => Err(m),
        Ok(ts) => spec_parse_tokens(ts),
    }
}

/// Builds the error for a pattern regex rejected.
fn regex_fail_error(pat: &str) -> (r: Error)
    ensures
        r@ == "Invalid regex: "@ + pat@,
{
    let mut m = "Invalid regex: ".to_owned();
    m.append(pat);
    Error { msg: m }
}

impl Expr<FsAtom> {
    /// Parses one factor, as `spec_eat_one` describes; an error may also
    /// come from regex rejecting a pattern.
    fn eat_one(u: &Vec<Token>, pos: usize) -> (r: Res<(Expr<FsAtom>, usize)>)
        requires
            pos <= u@.len(),
        ensures
            match spec_eat_one(toks_view(*u), pos as int) {
                Err(m) => r matches Err(e) && e@ == m,
                Ok(p) => r matches Ok(q) && q.0@ == p.0 && q.1 as int == pos + p.1 && q.1
                    <= u@.len(),
            },
        decreases u@.len() - pos, 0int,
    {
        proof {
            lemma_toks_view(*u);
        }
        if pos >= u.len() {
            return Err(error("Invalid syntax"));
        }
        match &u[pos] {
            Token::False => Ok((Expr::False, pos + 1)),
            Token::True => Ok((Expr::True, pos + 1)),
            Token::Drive => {
                if pos + 1 < u.len() {
                    if let Token::Unsigned(x) = &u[pos + 1] {
                        return Ok((Expr::Atom(FsAtom::Drive(*x)), pos + 2));
                    }
                }
                Err(error("Invalid syntax"))
            },
            Token::Smaller => {
                if pos + 1 < u.len() {
                    if let Token::Unsigned(x) = &u[pos + 1] {
                        return Ok((Expr::Atom(FsAtom::Smaller(*x)), pos + 2));
                    }
                }
                Err(error("Invalid syntax"))
            },
            Token::Larger => {
                if pos + 1 < u.len() {
                    if let Token::Unsigned(x) = &u[pos + 1] {
                        return Ok((Expr::Atom(FsAtom::Larger(*x)), pos + 2));
                    }
                }
                Err(error("Invalid syntax"))
            },
            Token::Before => {
                if pos + 1 < u.len() {
                    if let Token::Date(d) = &u[pos + 1] {
                        let m: u8 = #[verifier::truncate] (d.month as u8);
                        let dd: u8 = #[verifier::truncate] (d.day as u8);
                        return match crate::dates::utc_midnight_timestamp(d.year, m, dd) {
                            Some(t) => Ok((Expr::Atom(FsAtom::Before(t)), pos + 2)),
                            None => Err(error("Invalid date")),
                        };
                    }
                }
                Err(error("Invalid syntax"))
            },
            Token::After => {
                if pos + 1 < u.len() {
                    if let Token::Date(d) = &u[pos + 1] {
                        let m: u8 = #[verifier::truncate] (d.month as u8);
                        let dd: u8 = #[verifier::truncate] (d.day as u8);
                        return match crate::dates::utc_midnight_timestamp(d.year, m, dd) {
                            Some(t) => Ok((Expr::Atom(FsAtom::After(t)), pos + 2)),
                            None => Err(error("Invalid date")),
                        };
                    }
                }
                Err(error("Invalid syntax"))
            },
            Token::Name => {
                if pos + 1 < u.len() {
                    if let Token::Str(p) = &u[pos + 1] {
                        return match matcher_new(p.as_str()) {
                            Some(mm) => Ok((Expr::Atom(FsAtom::NameMatch(mm)), pos + 2)),
                            None => Err(regex_fail_error(p.as_str())),
                        };
                    }
                }
                Err(error("Invalid syntax"))
            },
            Token::Str(p) => match matcher_new(p.as_str()) {
                Some(mm) => Ok((Expr::Atom(FsAtom::PathMatch(mm)), pos + 1)),
                None => Err(regex_fail_error(p.as_str())),
            },
            Token::LPar => {
                let (x, j) = match Self::eat(u, pos + 1) {
                    Ok(p) => p,
                    Err(e) => {
                        return Err(e);
                    },
                };
                if j < u.len() {
                    if let Token::RPar = &u[j] {
                        return Ok((x, j + 1));
                    }
                }
                Err(error("Expecting right parenthesis"))
            },
            _ => Err(error("Invalid syntax")),
        }
    }

    /// Parses what follows a finished factor, as `spec_eat_rest` describes.
    fn eat_rest(u: &Vec<Token>, pos: usize, x: Expr<FsAtom>) -> (r: Res<(Expr<FsAtom>, usize)>)
        requires
            pos <= u@.len(),
        ensures
            match spec_eat_rest(toks_view(*u), pos as int, x@) {
                Err(m) => r matches Err(e) && e@ == m,
                Ok(p) => r matches Ok(q) && q.0@ == p.0 && q.1 as int == pos + p.1 && q.1
                    <= u@.len(),
            },
        decreases u@.len() - pos, 1int,
    {
        proof {
            lemma_toks_view(*u);
        }
        if pos >= u.len() {
            return Ok((x, pos));
        }
        match &u[pos] {
            Token::Diff => {
                let (y, j) = match Self::eat_one(u, pos + 1) {
                    Ok(p) => p,
                    Err(e) => {
                        return Err(e);
                    },
                };
                Self::eat_rest(u, j, Expr::Diff(Box::new(x), Box::new(y)))
            },
            Token::And => Self::eat_and(u, pos + 1, x),
            Token::Or => {
                let (y, j) = match Self::eat(u, pos + 1) {
                    Ok(p) => p,
                    Err(e) => {
                        return Err(e);
                    },
                };
                Ok((Expr::Or(Box::new(x), Box::new(y)), j))
            },
            _ => Ok((x, pos)),
        }
    }

    /// Parses an `&` chain, as `spec_eat_and` describes.
    fn eat_and(u: &Vec<Token>, pos: usize, x: Expr<FsAtom>) -> (r: Res<(Expr<FsAtom>, usize)>)
        requires
            pos <= u@.len(),
        ensures
            match spec_eat_and(toks_view(*u), pos as int, x@) {
                Err(m) => r matches Err(e) && e@ == m,
                Ok(p) => r matches Ok(q) && q.0@ == p.0 && q.1 as int == pos + p.1 && q.1
                    <= u@.len(),
            },
        decreases u@.len() - pos, 1int,
    {
        proof {
            lemma_toks_view(*u);
        }
        let (y, j) = match Self::eat_one(u, pos) {
            Ok(p) => p,
            Err(e) => {
                return Err(e);
            },
        };
        if j < u.len() {
            match &u[j] {
                Token::And => {
                    return Self::eat_and(u, j + 1, Expr::And(Box::new(x), Box::new(y)));
                },
                Token::Diff => {
                    let (z, j2) = match Self::eat_one(u, j + 1) {
                        Ok(p) => p,
                        Err(e) => {
                            return Err(e);
                        },
                    };
                    let ghost yv = y@;
                    let ghost zv = z@;
                    let d = Expr::Diff(Box::new(y), Box::new(z));
                    proof {
                        assert(d@ == ExprV::Diff(Box::new(yv), Box::new(zv)));
                    }
                    return Ok((Expr::And(Box::new(x), Box::new(d)), j2));
                },
                Token::Or => {
                    let ghost xv = x@;
                    let ghost yv = y@;
                    let e = Expr::And(Box::new(x), Box::new(y));
                    proof {
                        assert(e@ == ExprV::And(Box::new(xv), Box::new(yv)));
                    }
                    let (f, j2) = match Self::eat(u, j + 1) {
                        Ok(p) => p,
                        Err(er) => {
                            return Err(er);
                        },
                    };
                    return Ok((Expr::Or(Box::new(e), Box::new(f)), j2));
                },
                _ => {},
            }
        }
        Ok((Expr::And(Box::new(x), Box::new(y)), j))
    }

    /// Parses a whole expression, as `spec_eat` describes.
    fn eat(u: &Vec<Token>, pos: usize) -> (r: Res<(Expr<FsAtom>, usize)>)
        requires
            pos <= u@.len(),
        ensures
            match spec_eat(toks_view(*u), pos as int) {
                Err(m) => r matches Err(e) && e@ == m,
                Ok(p) => r matches Ok(q) && q.0@ == p.0 && q.1 as int == pos + p.1 && q.1
                    <= u@.len(),
            },
        decreases u@.len() - pos, 2int,
    {
        proof {
            lemma_toks_view(*u);
        }
        let (x, j) = match Self::eat_one(u, pos) {
            Ok(p) => p,
            Err(e) => {
                return Err(e);
            },
        };
        Self::eat_rest(u, j, x)
    }

    /// Parses a whole token stream, as `spec_parse_tokens` describes.
    pub fn parse_from_tokens(u: &Vec<Token>) -> (r: Res<Expr<FsAtom>>)
        ensures
            match spec_parse_tokens(toks_view(*u)) {
                Err(m) => r matches Err(e) && e@ == m,
                Ok(ev) => r matches Ok(x) && x@ == ev,
            },
    {
        proof {
            lemma_toks_view(*u);
        }
        let (x, j) = match Self::eat(u, 0) {
            Ok(p) => p,
            Err(e) => {
                return Err(e);
            },
        };
        if j == u.len() {
            Ok(x)
        } else {
            Err(error("Junk at end of expression"))
        }
    }

    /// Parses an input string into an expression, as `spec_parse` describes;
    /// an error may also come from regex rejecting a pattern.
    pub fn parse(u: &str) -> (r: Res<Expr<FsAtom>>)
        ensures
            match spec_parse(u@) {
                Err(m) => r matches Err(e) && e@ == m,
                Ok(ev) => r matches Ok(x) && x@ == ev,
            },
    {
        let toks = match Token::tokenize(u) {
            Ok(v) => v,
            Err(e) => {
                return Err(e);
            },
        };
        Self::parse_from_tokens(&toks)
    }
}

} // verus!
