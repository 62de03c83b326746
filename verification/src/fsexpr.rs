//! Predicate-language values: dates, atoms, and the data record predicates see.
use vstd::prelude::*;

use crate::boolean::{Expr, ExprV};
use crate::dates::utc_midnight;
use crate::errors::Res;

verus! {

/// Declares regex's compiled pattern type, so values of it can be carried.
#[verifier::external_type_specification]
#[verifier::external_body]
pub struct ExRegex(regex::Regex);

/// A calendar date as written in an expression, `YYYY-MM-DD`.
#[derive(Copy, Clone, Debug, PartialEq, Eq, Structural)]
pub struct FsDate {
    pub year: i32,
    pub month: i32,
    pub day: i32,
}

/// What the traverser exposes about one entry: drive id, base name, full
/// path, and the optional timestamp (seconds) and size (bytes).
pub struct FsDataGen<T> {
    pub drive: u64,
    pub name: T,
    pub path: T,
    pub timestamp: Option<i64>,
    pub size: Option<u64>,
}

/// Entry data with borrowed text.
pub type FsData<'a> = FsDataGen<&'a str>;

/// Mathematical model of the data record.
pub struct FsDataV {
    pub drive: u64,
    pub name: Seq<char>,
    pub path: Seq<char>,
    pub timestamp: Option<i64>,
    pub size: Option<u64>,
}

impl<'a> View for FsDataGen<&'a str> {
    type V = FsDataV;

    open spec fn view(&self) -> FsDataV {
        FsDataV {
            drive: self.drive,
            name: self.name@,
            path: self.path@,
            timestamp: self.timestamp,
            size: self.size,
        }
    }
}

impl View for FsDataGen<String> {
    type V = FsDataV;

    open spec fn view(&self) -> FsDataV {
        FsDataV {
            drive: self.drive,
            name: self.name@,
            path: self.path@,
            timestamp: self.timestamp,
            size: self.size,
        }
    }
}

impl<'a> FsDataGen<&'a str> {
    /// An owned copy of the record.
    pub fn map(&self) -> (r: FsDataGen<String>)
        ensures
            r@ == self@,
    {
        FsDataGen {
            drive: self.drive,
            name: self.name.to_owned(),
            path: self.path.to_owned(),
            timestamp: self.timestamp,
            size: self.size,
        }
    }
}

/// A compiled pattern paired with its source text; its model is the source.
#[derive(Debug)]
pub struct Matcher {
    pattern: String,
    re: regex::Regex,
}

impl View for Matcher {
    type V = Seq<char>;

    closed spec fn view(&self) -> Seq<char> {
        self.pattern@
    }
}

/// Whether the pattern, as regex's syntax reads it, matches anywhere in the
/// text; a function of the pattern's source and the text alone.
pub uninterp spec fn regex_match(pattern: Seq<char>, text: Seq<char>) -> bool;

/// Whether regex's syntax accepts the pattern; a function of the pattern alone.
pub uninterp spec fn regex_ok(pattern: Seq<char>) -> bool;

/// Relies on regex's `Regex::new`: compiles the pattern, keeping its source
/// beside it; `None` exactly when regex rejects the pattern, which depends
/// on the pattern alone.
#[verifier::external_body]
pub(crate) fn matcher_new(pat: &str) -> (r: Option<Matcher>)
    ensures
        r is Some == regex_ok(pat@),
        r matches Some(m) ==> m@ == pat@,
{
    match regex::Regex::new(pat) {
        Ok(re) => Some(Matcher { pattern: pat.to_string(), re }),
        Err(_) => None,
    }
}

/// Relies on regex's `Regex::is_match`: a pure function of the compiled
/// pattern's source and the text.  Every `Matcher` pairs a compiled regex
/// with the exact source it was compiled from.
#[verifier::external_body]
pub(crate) fn matcher_is_match(m: &Matcher, text: &str) -> (b: bool)
    ensures
        b == regex_match(m@, text@),
{
    m.re.is_match(text)
}

/// One atom of the predicate language.  Time atoms hold the Unix timestamp
/// of midnight UTC on the written date; match atoms hold a compiled pattern.
#[derive(Debug)]
pub enum FsAtom {
    Drive(u64),
    PathMatch(Matcher),
    NameMatch(Matcher),
    Before(i64),
    After(i64),
    Smaller(u64),
    Larger(u64),
}

/// Mathematical model of an atom.
pub enum AtomV {
    Drive(u64),
    PathMatch(Seq<char>),
    NameMatch(Seq<char>),
    Before(i64),
    After(i64),
    Smaller(u64),
    Larger(u64),
}

impl View for FsAtom {
    type V = AtomV;

    open spec fn view(&self) -> AtomV {
        match self {
            FsAtom::Drive(x) => AtomV::Drive(*x),
            FsAtom::PathMatch(m) => AtomV::PathMatch(m@),
            FsAtom::NameMatch(m) => AtomV::NameMatch(m@),
            FsAtom::Before(t) => AtomV::Before(*t),
            FsAtom::After(t) => AtomV::After(*t),
            FsAtom::Smaller(x) => AtomV::Smaller(*x),
            FsAtom::Larger(x) => AtomV::Larger(*x),
        }
    }
}

/// What an atom means on given entry data.  A missing size or timestamp
/// makes the four comparison atoms false, never an error.
pub open spec fn spec_eval_atom(a: AtomV, d: FsDataV) -> bool {
    match a {
        AtomV::Drive(x) => d.drive == x,
        AtomV::PathMatch(p) => regex_match(p, d.path),
        AtomV::NameMatch(p) => regex_match(p, d.name),
        AtomV::Smaller(x) => d.size matches Some(s) && s <= x,
        AtomV::Larger(x) => d.size matches Some(s) && s >= x,
        AtomV::Before(x) => d.timestamp matches Some(t) && t <= x,
        AtomV::After(x) => d.timestamp matches Some(t) && t >= x,
    }
}

impl FsAtom {
    /// Decides one atom against entry data.
    pub fn eval(&self, data: &FsData<'_>) -> (r: bool)
        ensures
            r == spec_eval_atom(self@, data@),
    {
        match self {
            FsAtom::Drive(x) => data.drive == *x,
            FsAtom::PathMatch(m) => matcher_is_match(m, data.path),
            FsAtom::NameMatch(m) => matcher_is_match(m, data.name),
            FsAtom::Smaller(x) => match data.size {
                Some(s) => s <= *x,
                None => false,
            },
            FsAtom::Larger(x) => match data.size {
                Some(s) => s >= *x,
                None => false,
            },
            FsAtom::Before(t) => match data.timestamp {
                Some(u) => u <= *t,
                None => false,
            },
            FsAtom::After(t) => match data.timestamp {
                Some(u) => u >= *t,
                None => false,
            },
        }
    }
}

/// What an expression means on given entry data.  `Diff` is "and not".
pub open spec fn spec_eval(e: ExprV<AtomV>, d: FsDataV) -> bool
    decreases e,
{
    match e {
        ExprV::True => true,
        ExprV::False => false,
        ExprV::Atom(a) => spec_eval_atom(a, d),
        ExprV::And(x, y) => spec_eval(*x, d) && spec_eval(*y, d),
        ExprV::Or(x, y) => spec_eval(*x, d) || spec_eval(*y, d),
        ExprV::Diff(x, y) => spec_eval(*x, d) && !spec_eval(*y, d),
    }
}

/// An expression over the predicate language's atoms.
pub type FsExpr = Expr<FsAtom>;

impl Expr<FsAtom> {
    /// Evaluates the expression, short-circuiting `&` and `|`.
    pub fn eval(&self, data: &FsData<'_>) -> (r: bool)
        ensures
            r == spec_eval(self@, data@),
        decreases self,
    {
        match self {
            Expr::True => true,
            Expr::False => false,
            Expr::Atom(a) => a.eval(data),
            Expr::And(x, y) => x.eval(data) && y.eval(data),
            Expr::Or(x, y) => x.eval(data) || y.eval(data),
            Expr::Diff(x, y) => x.eval(data) && !y.eval(data),
        }
    }
}

impl FsDate {
    /// The Unix timestamp of midnight UTC on this date, as the calendar
    /// names it; the month and day are read modulo 256, as a byte.
    pub fn timestamp(&self) -> (r: Res<i64>)
        ensures
            match utc_midnight(self.year, self.month as u8, self.day as u8) {
                Some(t) => r matches Ok(v) && v == t,
                None => r matches Err(e) && e@ == "Invalid date"@,
            },
    {
        let m: u8 = #[verifier::truncate] (self.month as u8);
        let d: u8 = #[verifier::truncate] (self.day as u8);
        match crate::dates::utc_midnight_timestamp(self.year, m, d) {
            Some(t) => Ok(t),
            None => Err(crate::errors::error("Invalid date")),
        }
    }
}

/// Evaluation is pure: it reads the expression and the data, nothing else,
/// so evaluating twice on the same data gives the same answer.
pub proof fn law_eval_pure(e: ExprV<AtomV>, d1: FsDataV, d2: FsDataV)
    requires
        d1 == d2,
    ensures
        spec_eval(e, d1) == spec_eval(e, d2),
{
}

/// `A & B` and `B & A` hold of the same data.
pub proof fn law_and_comm(x: Box<ExprV<AtomV>>, y: Box<ExprV<AtomV>>, d: FsDataV)
    ensures
        spec_eval(ExprV::And(x, y), d) == spec_eval(ExprV::And(y, x), d),
{
}

/// `A | B` and `B | A` hold of the same data.
pub proof fn law_or_comm(x: Box<ExprV<AtomV>>, y: Box<ExprV<AtomV>>, d: FsDataV)
    ensures
        spec_eval(ExprV::Or(x, y), d) == spec_eval(ExprV::Or(y, x), d),
{
}

/// `A \ B` holds exactly when `A` holds and `B` does not.
pub proof fn law_diff_is_and_not(x: Box<ExprV<AtomV>>, y: Box<ExprV<AtomV>>, d: FsDataV)
    ensures
        spec_eval(ExprV::Diff(x, y), d) == (spec_eval(*x, d) && !spec_eval(*y, d)),
{
}

/// `%t & X` holds exactly when `X` does.
pub proof fn law_true_and(t: Box<ExprV<AtomV>>, x: Box<ExprV<AtomV>>, d: FsDataV)
    requires
        *t == ExprV::<AtomV>::True,
    ensures
        spec_eval(ExprV::And(t, x), d) == spec_eval(*x, d),
{
    assert(spec_eval(ExprV::<AtomV>::True, d));
}

/// `%f | X` holds exactly when `X` does.
pub proof fn law_false_or(f: Box<ExprV<AtomV>>, x: Box<ExprV<AtomV>>, d: FsDataV)
    requires
        *f == ExprV::<AtomV>::False,
    ensures
        spec_eval(ExprV::Or(f, x), d) == spec_eval(*x, d),
{
    assert(!spec_eval(ExprV::<AtomV>::False, d));
}

/// `X | %t` always holds, as `%t` does.
pub proof fn law_or_true(t: Box<ExprV<AtomV>>, x: Box<ExprV<AtomV>>, d: FsDataV)
    requires
        *t == ExprV::<AtomV>::True,
    ensures
        spec_eval(ExprV::Or(x, t), d) == spec_eval(ExprV::True, d),
{
}

/// `X & %f` never holds, as `%f` never does.
pub proof fn law_and_false(f: Box<ExprV<AtomV>>, x: Box<ExprV<AtomV>>, d: FsDataV)
    requires
        *f == ExprV::<AtomV>::False,
    ensures
        spec_eval(ExprV::And(x, f), d) == spec_eval(ExprV::False, d),
{
}

/// The spec-level test of a predicate value, as a function of the data.
pub open spec fn pred_of<P: Predicate>(p: P) -> spec_fn(FsDataV) -> bool {
    |d: FsDataV| p.spec_test(d)
}

/// A boolean test over entry data.
pub trait Predicate {
    /// What the test means on the data's model.
    spec fn spec_test(&self, data: FsDataV) -> bool;

    /// Decides the test; the result depends on `data` alone.
    fn test(&self, data: &FsData<'_>) -> (r: bool)
        ensures
            r == self.spec_test(data@),
    ;
}

impl Predicate for Expr<FsAtom> {
    open spec fn spec_test(&self, data: FsDataV) -> bool {
        spec_eval(self@, data)
    }

    fn test(&self, data: &FsData<'_>) -> (r: bool)
        ensures
            r == self.spec_test(data@),
    {
        self.eval(data)
    }
}

} // verus!
