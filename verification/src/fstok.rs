//! Tokenizer for the predicate language.
//!
//! Tokens: `%`-keywords, dates `YYYY-MM-DD`, unsigned numbers with an
//! optional `k`/`M`/`G` suffix, bare and single-quoted strings, the operators
//! `&` `|` `\` and parentheses.  Whitespace separates tokens.
use vstd::prelude::*;

use crate::errors::{Error, Res};
use crate::fsexpr::FsDate;
use crate::render::{dec_u64, push_char, spec_date_ymd, spec_dec_nat, string_of_chars};

verus! {

/// One token of the predicate language.
#[derive(Debug, Clone)]
pub enum Token {
    False,
    True,
    Unsigned(u64),
    Date(FsDate),
    Str(String),
    Drive,
    Name,
    Before,
    After,
    Smaller,
    Larger,
    And,
    Or,
    Diff,
    LPar,
    RPar,
    Eof,
}

/// Mathematical model of a token.
pub enum TokenV {
    False,
    True,
    Unsigned(u64),
    Date(FsDate),
    Str(Seq<char>),
    Drive,
    Name,
    Before,
    After,
    Smaller,
    Larger,
    And,
    Or,
    Diff,
    LPar,
    RPar,
    Eof,
}

impl View for Token {
    type V = TokenV;

    open spec fn view(&self) -> TokenV {
        match self {
            Token::False => TokenV::False,
            Token::True => TokenV::True,
            Token::Unsigned(n) => TokenV::Unsigned(*n),
            Token::Date(d) => TokenV::Date(*d),
            Token::Str(s) => TokenV::Str(s@),
            Token::Drive => TokenV::Drive,
            Token::Name => TokenV::Name,
            Token::Before => TokenV::Before,
            Token::After => TokenV::After,
            Token::Smaller => TokenV::Smaller,
            Token::Larger => TokenV::Larger,
            Token::And => TokenV::And,
            Token::Or => TokenV::Or,
            Token::Diff => TokenV::Diff,
            Token::LPar => TokenV::LPar,
            Token::RPar => TokenV::RPar,
            Token::Eof => TokenV::Eof,
        }
    }
}

/// The models of a token vector, in order.
pub open spec fn toks_view(v: Vec<Token>) -> Seq<TokenV> {
    Seq::new(v.len() as nat, |i: int| v[i]@)
}

/// The model of a token vector reads its elements off in place.
pub proof fn lemma_toks_view(v: Vec<Token>)
    ensures
        toks_view(v).len() == v@.len(),
        forall|j: int| 0 <= j < v@.len() ==> #[trigger] toks_view(v)[j] == v@[j]@,
{
}

/// The whitespace characters that separate tokens: the ASCII whitespace
/// set.  Exotic Unicode spacing is not token whitespace here.
pub open spec fn is_ws(c: char) -> bool {
    c == ' ' || c == '\t' || c == '\n' || c == '\r' || c == '\u{B}' || c == '\u{C}'
}

/// A decimal digit.
pub open spec fn is_digit(c: char) -> bool {
    48 <= c as u32 <= 57
}

/// The value of a decimal digit.
pub open spec fn digit_val(c: char) -> int {
    c as u32 - 48
}

/// A lower-case letter, as used in keywords.
pub open spec fn is_lower(c: char) -> bool {
    97 <= c as u32 <= 122
}

/// A character allowed in a bare string.
pub open spec fn is_basic(c: char) -> bool {
    is_lower(c) || (65 <= c as u32 <= 90) || is_digit(c) || c == '/' || c == '.' || c == ','
        || c == '*' || c == '?' || c == '$' || c == '^' || c == '-' || c == '_'
}

fn ws_char(c: char) -> (b: bool)
    ensures
        b == is_ws(c),
{
    c == ' ' || c == '\t' || c == '\n' || c == '\r' || c == '\u{B}' || c == '\u{C}'
}

fn digit_char_p(c: char) -> (b: bool)
    ensures
        b == is_digit(c),
{
    let u = c as u32;
    48 <= u && u <= 57
}

fn lower_char_p(c: char) -> (b: bool)
    ensures
        b == is_lower(c),
{
    let u = c as u32;
    97 <= u && u <= 122
}

fn basic_char_p(c: char) -> (b: bool)
    ensures
        b == is_basic(c),
{
    let u = c as u32;
    (97 <= u && u <= 122) || (65 <= u && u <= 90) || (48 <= u && u <= 57) || c == '/' || c == '.'
        || c == ',' || c == '*' || c == '?' || c == '$' || c == '^' || c == '-' || c == '_'
}

/// Collects keyword letters from `i` on: the letters read and the next index.
pub open spec fn scan_kw(s: Seq<char>, i: int, acc: Seq<char>) -> (Seq<char>, int)
    decreases s.len() - i,
{
    if 0 <= i < s.len() && is_lower(s[i]) {
        scan_kw(s, i + 1, acc.push(s[i]))
    } else {
        (acc, i)
    }
}

/// Collects bare-string characters from `i` on.
pub open spec fn scan_basic(s: Seq<char>, i: int, acc: Seq<char>) -> (Seq<char>, int)
    decreases s.len() - i,
{
    if 0 <= i < s.len() && is_basic(s[i]) {
        scan_basic(s, i + 1, acc.push(s[i]))
    } else {
        (acc, i)
    }
}

/// Reads a run of digits from `i` on: the accumulated value and the next index.
pub open spec fn scan_num(s: Seq<char>, i: int, acc: nat) -> (nat, int)
    decreases s.len() - i,
{
    if 0 <= i < s.len() && is_digit(s[i]) {
        scan_num(s, i + 1, acc * 10 + digit_val(s[i]) as nat)
    } else {
        (acc, i)
    }
}

/// Reads a quoted string from `i` on (the opening quote already consumed):
/// the unescaped contents and the index past the closing quote, or `None`
/// when the input ends inside the string.
pub open spec fn scan_quoted(s: Seq<char>, i: int, acc: Seq<char>) -> Option<(Seq<char>, int)>
    decreases s.len() - i,
{
    if i < 0 || i >= s.len() {
        None
    } else if s[i] == '\'' {
        Some((acc, i + 1))
    } else if s[i] == '\\' && i + 1 < s.len() && (s[i + 1] == '\\' || s[i + 1] == '\'') {
        scan_quoted(s, i + 2, acc.push(s[i + 1]))
    } else {
        scan_quoted(s, i + 1, acc.push(s[i]))
    }
}

/// The token a `%`-keyword stands for, if the keyword is known.
pub open spec fn keyword_token(kw: Seq<char>) -> Option<TokenV> {
    if kw == "after"@ {
        Some(TokenV::After)
    } else if kw == "before"@ {
        Some(TokenV::Before)
    } else if kw == "drive"@ {
        Some(TokenV::Drive)
    } else if kw == "f"@ {
        Some(TokenV::False)
    } else if kw == "larger"@ {
        Some(TokenV::Larger)
    } else if kw == "name"@ {
        Some(TokenV::Name)
    } else if kw == "smaller"@ {
        Some(TokenV::Smaller)
    } else if kw == "t"@ {
        Some(TokenV::True)
    } else {
        None
    }
}

/// Whether a date literal `YYYY-MM-DD` starts at `i`.
pub open spec fn is_date_at(s: Seq<char>, i: int) -> bool {
    &&& i + 10 <= s.len()
    &&& is_digit(s[i])
    &&& is_digit(s[i + 1])
    &&& is_digit(s[i + 2])
    &&& is_digit(s[i + 3])
    &&& s[i + 4] == '-'
    &&& is_digit(s[i + 5])
    &&& is_digit(s[i + 6])
    &&& s[i + 7] == '-'
    &&& is_digit(s[i + 8])
    &&& is_digit(s[i + 9])
}

/// The date literal starting at `i`.
pub open spec fn date_at(s: Seq<char>, i: int) -> FsDate {
    FsDate {
        year: (digit_val(s[i]) * 1000 + digit_val(s[i + 1]) * 100 + digit_val(s[i + 2]) * 10
            + digit_val(s[i + 3])) as i32,
        month: (digit_val(s[i + 5]) * 10 + digit_val(s[i + 6])) as i32,
        day: (digit_val(s[i + 8]) * 10 + digit_val(s[i + 9])) as i32,
    }
}

/// Reads one token starting at `i`: the token and the index just past it,
/// or an error message.  At the end of the input the token is `Eof`.
pub open spec fn spec_eat(s: Seq<char>, i: int) -> Result<(TokenV, int), Seq<char>>
    decreases s.len() - i,
{
    if i < 0 || i >= s.len() {
        Ok((TokenV::Eof, i))
    } else if is_ws(s[i]) {
        spec_eat(s, i + 1)
    } else if s[i] == '%' {
        let (kw, j) = scan_kw(s, i + 1, Seq::empty());
        match keyword_token(kw) {
            Some(t) => Ok((t, j)),
            None => Err("Unknown keyword "@ + kw),
        }
    } else if s[i] == '&' {
        Ok((TokenV::And, i + 1))
    } else if s[i] == '|' {
        Ok((TokenV::Or, i + 1))
    } else if s[i] == '\\' {
        Ok((TokenV::Diff, i + 1))
    } else if s[i] == '(' {
        Ok((TokenV::LPar, i + 1))
    } else if s[i] == ')' {
        Ok((TokenV::RPar, i + 1))
    } else if s[i] == '\'' {
        match scan_quoted(s, i + 1, Seq::empty()) {
            None => Err("Unexpected EOF in string"@),
            Some((q, j)) => Ok((TokenV::Str(q), j)),
        }
    } else if is_date_at(s, i) {
        Ok((TokenV::Date(date_at(s, i)), i + 10))
    } else if is_digit(s[i]) {
        let (v, j) = scan_num(s, i, 0);
        if v > 0xffff_ffff_ffff_ffff {
            Err("Invalid number"@)
        } else if j < s.len() && s[j] == 'G' {
            Ok((TokenV::Unsigned((v as u64) << 30u64), j + 1))
        } else if j < s.len() && s[j] == 'M' {
            Ok((TokenV::Unsigned((v as u64) << 20u64), j + 1))
        } else if j < s.len() && s[j] == 'k' {
            Ok((TokenV::Unsigned((v as u64) << 10u64), j + 1))
        } else {
            Ok((TokenV::Unsigned(v as u64), j))
        }
    } else if is_basic(s[i]) {
        let (b, j) = scan_basic(s, i, Seq::empty());
        Ok((TokenV::Str(b), j))
    } else {
        Err("Unexpected character "@ + seq![s[i]])
    }
}

proof fn lemma_scan_kw_bounds(s: Seq<char>, i: int, acc: Seq<char>)
    requires
        0 <= i <= s.len(),
    ensures
        i <= scan_kw(s, i, acc).1 <= s.len(),
    decreases s.len() - i,
{
    if i < s.len() && is_lower(s[i]) {
        lemma_scan_kw_bounds(s, i + 1, acc.push(s[i]));
    }
}

proof fn lemma_scan_basic_bounds(s: Seq<char>, i: int, acc: Seq<char>)
    requires
        0 <= i <= s.len(),
    ensures
        i <= scan_basic(s, i, acc).1 <= s.len(),
    decreases s.len() - i,
{
    if i < s.len() && is_basic(s[i]) {
        lemma_scan_basic_bounds(s, i + 1, acc.push(s[i]));
    }
}

proof fn lemma_scan_num_bounds(s: Seq<char>, i: int, acc: nat)
    requires
        0 <= i <= s.len(),
    ensures
        i <= scan_num(s, i, acc).1 <= s.len(),
        scan_num(s, i, acc).0 >= acc,
    decreases s.len() - i,
{
    if i < s.len() && is_digit(s[i]) {
        lemma_scan_num_bounds(s, i + 1, acc * 10 + digit_val(s[i]) as nat);
    }
}

proof fn lemma_scan_quoted_bounds(s: Seq<char>, i: int, acc: Seq<char>)
    requires
        0 <= i <= s.len(),
    ensures
        scan_quoted(s, i, acc) matches Some(p) ==> i < p.1 <= s.len(),
    decreases s.len() - i,
{
    if i < s.len() {
        if s[i] == '\'' {
        } else if s[i] == '\\' && i + 1 < s.len() && (s[i + 1] == '\\' || s[i + 1] == '\'') {
            lemma_scan_quoted_bounds(s, i + 2, acc.push(s[i + 1]));
        } else {
            lemma_scan_quoted_bounds(s, i + 1, acc.push(s[i]));
        }
    }
}

/// Reading a token never moves backward, stays inside the input, and moves
/// strictly forward unless the token is `Eof`; `Eof` is read only at the end.
pub proof fn lemma_eat_progress(s: Seq<char>, i: int)
    requires
        0 <= i <= s.len(),
    ensures
        spec_eat(s, i) matches Ok(p) ==> {
            &&& i <= p.1 <= s.len()
            &&& (!(p.0 is Eof) ==> p.1 > i)
            &&& (p.0 is Eof ==> p.1 == s.len())
        },
    decreases s.len() - i,
{
    if i < s.len() {
        if is_ws(s[i]) {
            lemma_eat_progress(s, i + 1);
        } else if s[i] == '%' {
            lemma_scan_kw_bounds(s, i + 1, Seq::empty());
        } else if s[i] == '&' || s[i] == '|' || s[i] == '\\' || s[i] == '(' || s[i] == ')' {
        } else if s[i] == '\'' {
            lemma_scan_quoted_bounds(s, i + 1, Seq::empty());
        } else if is_date_at(s, i) {
        } else if is_digit(s[i]) {
            lemma_scan_num_bounds(s, i + 1, digit_val(s[i]) as nat);
        } else if is_basic(s[i]) {
            lemma_scan_basic_bounds(s, i + 1, Seq::empty().push(s[i]));
        }
    }
}

/// The token stream from `i` on: every token up to the end of the input,
/// or the first error.
pub open spec fn spec_tokenize_from(s: Seq<char>, i: int) -> Result<Seq<TokenV>, Seq<char>>
    decreases s.len() - i,
    via spec_tokenize_from_dec
{
    match spec_eat(s, i) {
        Err(m) => Err(m),
        Ok((t, j)) => if t is Eof {
            Ok(Seq::empty())
        } else {
            match spec_tokenize_from(s, j) {
                Err(m) => Err(m),
                Ok(rest) => Ok(seq![t] + rest),
            }
        },
    }
}

#[via_fn]
proof fn spec_tokenize_from_dec(s: Seq<char>, i: int) {
    if 0 <= i <= s.len() {
        lemma_eat_progress(s, i);
    }
}

/// The token stream of a whole input.
pub open spec fn spec_tokenize(s: Seq<char>) -> Result<Seq<TokenV>, Seq<char>> {
    spec_tokenize_from(s, 0)
}

fn scan_kw_x(u: &Vec<char>, start: usize) -> (r: (Vec<char>, usize))
    requires
        start <= u@.len(),
    ensures
        (r.0@, r.1 as int) == scan_kw(u@, start as int, Seq::<char>::empty()),
        start <= r.1 <= u@.len(),
{
    let mut acc: Vec<char> = Vec::new();
    let mut i: usize = start;
    while i < u.len() && lower_char_p(u[i])
        invariant
            start <= i <= u@.len(),
            scan_kw(u@, start as int, Seq::empty()) == scan_kw(u@, i as int, acc@),
        decreases u@.len() - i,
    {
        acc.push(u[i]);
        i = i + 1;
    }
    (acc, i)
}

fn scan_basic_x(u: &Vec<char>, start: usize) -> (r: (Vec<char>, usize))
    requires
        start <= u@.len(),
    ensures
        (r.0@, r.1 as int) == scan_basic(u@, start as int, Seq::<char>::empty()),
        start <= r.1 <= u@.len(),
{
    let mut acc: Vec<char> = Vec::new();
    let mut i: usize = start;
    while i < u.len() && basic_char_p(u[i])
        invariant
            start <= i <= u@.len(),
            scan_basic(u@, start as int, Seq::empty()) == scan_basic(u@, i as int, acc@),
        decreases u@.len() - i,
    {
        acc.push(u[i]);
        i = i + 1;
    }
    (acc, i)
}

/// Reads a digit run; the boolean reports overflow past `u64::MAX`.
pub(crate) fn scan_num_x(u: &Vec<char>, start: usize) -> (r: (u64, usize, bool))
    requires
        start <= u@.len(),
    ensures
        ({
            let (v, j) = scan_num(u@, start as int, 0);
            &&& r.1 as int == j
            &&& start <= r.1 <= u@.len()
            &&& r.2 == (v > 0xffff_ffff_ffff_ffffnat)
            &&& (!r.2 ==> r.0 as nat == v)
        }),
{
    let mut acc: u64 = 0;
    let ghost mut acc_g: nat = 0nat;
    let mut over: bool = false;
    let mut i: usize = start;
    while i < u.len() && digit_char_p(u[i])
        invariant
            start <= i <= u@.len(),
            scan_num(u@, start as int, 0) == scan_num(u@, i as int, acc_g),
            over == (acc_g > 0xffff_ffff_ffff_ffffnat),
            !over ==> acc as nat == acc_g,
        decreases u@.len() - i,
    {
        let d: u64 = (u[i] as u32 as u64) - 48;
        proof {
            assert(d as int == digit_val(u@[i as int]));
        }
        if !over {
            if acc > (0xffff_ffff_ffff_ffffu64 - d) / 10 {
                over = true;
            } else {
                assert(acc * 10 + d <= 0xffff_ffff_ffff_ffffu64) by (nonlinear_arith)
                    requires
                        acc <= (0xffff_ffff_ffff_ffffu64 - d) / 10,
                        d < 10,
                ;
                acc = acc * 10 + d;
            }
        }
        proof {
            if over && !(acc_g > 0xffff_ffff_ffff_ffffnat) {
                assert(acc_g * 10 + d > 0xffff_ffff_ffff_ffffnat) by (nonlinear_arith)
                    requires
                        acc_g == acc as nat,
                        acc > (0xffff_ffff_ffff_ffffu64 - d as u64) / 10,
                        d < 10,
                ;
            }
            acc_g = acc_g * 10 + d as nat;
            if acc_g > 0xffff_ffff_ffff_ffffnat && !over {
                assert(false);
            }
        }
        i = i + 1;
    }
    (acc, i, over)
}

fn scan_quoted_x(u: &Vec<char>, start: usize) -> (r: Option<(Vec<char>, usize)>)
    requires
        start <= u@.len(),
    ensures
        match r {
            Some(p) => scan_quoted(u@, start as int, Seq::empty()) == Some((p.0@, p.1 as int))
                && start < p.1 <= u@.len(),
            None => scan_quoted(u@, start as int, Seq::<char>::empty()) is None,
        },
{
    let mut acc: Vec<char> = Vec::new();
    let mut i: usize = start;
    loop
        invariant
            start <= i <= u@.len(),
            scan_quoted(u@, start as int, Seq::empty()) == scan_quoted(u@, i as int, acc@),
        ensures
            match scan_quoted(u@, i as int, acc@) {
                Some(p) => i < u@.len() && u@[i as int] == '\'',
                None => i == u@.len(),
            },
        decreases u@.len() - i,
    {
        if i >= u.len() {
            break;
        }
        let c = u[i];
        if c == '\'' {
            break;
        }
        if c == '\\' && i + 1 < u.len() && (u[i + 1] == '\\' || u[i + 1] == '\'') {
            acc.push(u[i + 1]);
            i = i + 2;
        } else {
            acc.push(c);
            i = i + 1;
        }
    }
    if i >= u.len() {
        None
    } else {
        proof {
            lemma_scan_quoted_bounds(u@, start as int, Seq::empty());
        }
        Some((acc, i + 1))
    }
}

/// Compares collected characters against a keyword.
pub(crate) fn chars_eq_str(v: &Vec<char>, s: &str) -> (b: bool)
    ensures
        b == (v@ =~= s@),
{
    let n = s.unicode_len();
    if v.len() != n {
        return false;
    }
    let mut i: usize = 0;
    while i < n
        invariant
            n == s@.len(),
            v@.len() == n,
            i <= n,
            forall|j: int| 0 <= j < i ==> v@[j] == s@[j],
        decreases n - i,
    {
        if v[i] != s.get_char(i) {
            return false;
        }
        i = i + 1;
    }
    proof {
        assert(v@ =~= s@);
    }
    true
}

impl Token {
    /// Reads one token of `u` starting at `pos`, as `spec_eat` describes.
    fn eat(u: &Vec<char>, pos: usize) -> (r: Res<(Token, usize)>)
        requires
            pos <= u@.len(),
        ensures
            match spec_eat(u@, pos as int) {
                Ok(p) => r matches Ok(q) && q.0@ == p.0 && q.1 as int == p.1 && pos <= q.1
                    <= u@.len(),
                Err(m) => r matches Err(e) && e@ == m,
            },
    {
        proof {
            lemma_eat_progress(u@, pos as int);
        }
        let mut i: usize = pos;
        while i < u.len() && ws_char(u[i])
            invariant
                pos <= i <= u@.len(),
                spec_eat(u@, pos as int) == spec_eat(u@, i as int),
            decreases u@.len() - i,
        {
            i = i + 1;
        }
        proof {
            lemma_eat_progress(u@, i as int);
        }
        if i >= u.len() {
            return Ok((Token::Eof, i));
        }
        let c = u[i];
        if c == '%' {
            let (kw, j) = scan_kw_x(u, i + 1);
            let kws = string_of_chars(&kw);
            let t: Token = if chars_eq_str(&kw, "after") {
                Token::After
            } else if chars_eq_str(&kw, "before") {
                Token::Before
            } else if chars_eq_str(&kw, "drive") {
                Token::Drive
            } else if chars_eq_str(&kw, "f") {
                Token::False
            } else if chars_eq_str(&kw, "larger") {
                Token::Larger
            } else if chars_eq_str(&kw, "name") {
                Token::Name
            } else if chars_eq_str(&kw, "smaller") {
                Token::Smaller
            } else if chars_eq_str(&kw, "t") {
                Token::True
            } else {
                let mut m = "Unknown keyword ".to_owned();
                m.append(kws.as_str());
                return Err(Error { msg: m });
            };
            Ok((t, j))
        } else if c == '&' {
            Ok((Token::And, i + 1))
        } else if c == '|' {
            Ok((Token::Or, i + 1))
        } else if c == '\\' {
            Ok((Token::Diff, i + 1))
        } else if c == '(' {
            Ok((Token::LPar, i + 1))
        } else if c == ')' {
            Ok((Token::RPar, i + 1))
        } else if c == '\'' {
            match scan_quoted_x(u, i + 1) {
                None => Err(Error { msg: "Unexpected EOF in string".to_owned() }),
                Some((q, j)) => {
                    let qs = string_of_chars(&q);
                    Ok((Token::Str(qs), j))
                },
            }
        } else {
            let date_here = u.len() - i >= 10 && digit_char_p(u[i]) && digit_char_p(u[i + 1])
                && digit_char_p(u[i + 2]) && digit_char_p(u[i + 3]) && u[i + 4] == '-'
                && digit_char_p(u[i + 5]) && digit_char_p(u[i + 6]) && u[i + 7] == '-'
                && digit_char_p(u[i + 8]) && digit_char_p(u[i + 9]);
            if date_here {
                let year: i32 = ((u[i] as u32 as i32) - 48) * 1000 + ((u[i + 1] as u32 as i32) - 48)
                    * 100 + ((u[i + 2] as u32 as i32) - 48) * 10 + ((u[i + 3] as u32 as i32) - 48);
                let month: i32 = ((u[i + 5] as u32 as i32) - 48) * 10 + ((u[i + 6] as u32 as i32)
                    - 48);
                let day: i32 = ((u[i + 8] as u32 as i32) - 48) * 10 + ((u[i + 9] as u32 as i32)
                    - 48);
                Ok((Token::Date(FsDate { year, month, day }), i + 10))
            } else if digit_char_p(c) {
                let (v, j, over) = scan_num_x(u, i);
                if over {
                    Err(Error { msg: "Invalid number".to_owned() })
                } else if j < u.len() && u[j] == 'G' {
                    Ok((Token::Unsigned(v << 30u64), j + 1))
                } else if j < u.len() && u[j] == 'M' {
                    Ok((Token::Unsigned(v << 20u64), j + 1))
                } else if j < u.len() && u[j] == 'k' {
                    Ok((Token::Unsigned(v << 10u64), j + 1))
                } else {
                    Ok((Token::Unsigned(v), j))
                }
            } else if basic_char_p(c) {
                let (b, j) = scan_basic_x(u, i);
                let bs = string_of_chars(&b);
                Ok((Token::Str(bs), j))
            } else {
                let mut m = "Unexpected character ".to_owned();
                push_char(&mut m, c);
                Err(Error { msg: m })
            }
        }
    }

    /// Splits a whole input into tokens, as `spec_tokenize` describes.
    pub fn tokenize(u: &str) -> (r: Res<Vec<Token>>)
        ensures
            match spec_tokenize(u@) {
                Ok(ts) => r matches Ok(v) && toks_view(v) == ts,
                Err(m) => r matches Err(e) && e@ == m,
            },
    {
        let chars = crate::render::chars_of_str(u);
        let mut res: Vec<Token> = Vec::new();
        let mut pos: usize = 0;
        loop
            invariant
                pos <= chars@.len(),
                chars@ =~= u@,
                spec_tokenize_from(u@, 0) == (match spec_tokenize_from(u@, pos as int) {
                    Ok(rest) => Ok::<Seq<TokenV>, Seq<char>>(toks_view(res) + rest),
                    Err(m) => Err::<Seq<TokenV>, Seq<char>>(m),
                }),
            decreases chars@.len() - pos,
        {
            proof {
                lemma_eat_progress(u@, pos as int);
            }
            let step = Self::eat(&chars, pos);
            match step {
                Err(e) => {
                    return Err(e);
                },
                Ok((t, j)) => {
                    let is_eof = match &t {
                        Token::Eof => true,
                        _ => false,
                    };
                    if is_eof {
                        proof {
                            assert(toks_view(res) + Seq::<TokenV>::empty() =~= toks_view(res));
                        }
                        return Ok(res);
                    }
                    let ghost res0 = res;
                    res.push(t);
                    pos = j;
                    proof {
                        assert(toks_view(res) =~= toks_view(res0) + seq![res@[res@.len() - 1]@]);
                        if spec_tokenize_from(u@, pos as int) is Ok {
                            let rest = spec_tokenize_from(u@, pos as int)->Ok_0;
                            assert(toks_view(res0) + (seq![t@] + rest) =~= toks_view(res) + rest);
                        }
                    }
                },
            }
        }
    }
}

/// A string's characters with `\\` and `'` escaped for a quoted literal.
pub open spec fn esc_chars(s: Seq<char>, i: int) -> Seq<char>
    decreases s.len() - i,
{
    if i < 0 || i >= s.len() {
        Seq::empty()
    } else {
        (if s[i] == '\\' {
            seq!['\\', '\\']
        } else if s[i] == '\'' {
            seq!['\\', '\'']
        } else {
            seq![s[i]]
        }) + esc_chars(s, i + 1)
    }
}

/// One token written back as text.  Strings are quoted with escapes; a
/// date's month and day are read modulo 256, as the calendar atom reads
/// them.  `Eof` has no text.
pub open spec fn render_token(t: TokenV) -> Seq<char> {
    match t {
        TokenV::False => "%f"@,
        TokenV::True => "%t"@,
        TokenV::Unsigned(n) => spec_dec_nat(n as nat),
        TokenV::Date(d) => spec_date_ymd(d.year, d.month as u8, d.day as u8),
        TokenV::Str(q) => seq!['\''] + esc_chars(q, 0) + seq!['\''],
        TokenV::Drive => "%drive"@,
        TokenV::Name => "%name"@,
        TokenV::Before => "%before"@,
        TokenV::After => "%after"@,
        TokenV::Smaller => "%smaller"@,
        TokenV::Larger => "%larger"@,
        TokenV::And => "&"@,
        TokenV::Or => "|"@,
        TokenV::Diff => "\\"@,
        TokenV::LPar => "("@,
        TokenV::RPar => ")"@,
        TokenV::Eof => Seq::empty(),
    }
}

/// A token stream written back as text, one space after every token.
pub open spec fn render_tokens(ts: Seq<TokenV>, i: int) -> Seq<char>
    decreases ts.len() - i,
{
    if i < 0 || i >= ts.len() {
        Seq::empty()
    } else {
        render_token(ts[i]) + seq![' '] + render_tokens(ts, i + 1)
    }
}

impl Token {
    /// Writes a token stream back as text, as `render_tokens` describes.
    pub fn pretty(ts: &Vec<Token>) -> (r: String)
        ensures
            r@ == render_tokens(toks_view(*ts), 0),
    {
        proof {
            lemma_toks_view(*ts);
        }
        let mut out = String::new();
        let n = ts.len();
        let mut i: usize = 0;
        while i < n
            invariant
                i <= n,
                n == ts@.len(),
                toks_view(*ts).len() == n,
                forall|j: int| 0 <= j < n ==> #[trigger] toks_view(*ts)[j] == ts@[j]@,
                render_tokens(toks_view(*ts), 0) =~= out@ + render_tokens(
                    toks_view(*ts),
                    i as int,
                ),
            decreases n - i,
        {
            let ghost before = out@;
            match &ts[i] {
                Token::False => out.append("%f"),
                Token::True => out.append("%t"),
                Token::Unsigned(x) => {
                    let d = dec_u64(*x);
                    out.append(d.as_str());
                },
                Token::Date(d) => {
                    let m: u8 = #[verifier::truncate] (d.month as u8);
                    let dd: u8 = #[verifier::truncate] (d.day as u8);
                    let t = crate::render::date_ymd(d.year, m, dd);
                    out.append(t.as_str());
                },
                Token::Str(q) => {
                    push_char(&mut out, '\'');
                    let chars = crate::render::chars_of_str(q.as_str());
                    let cn = chars.len();
                    let mut ci: usize = 0;
                    while ci < cn
                        invariant
                            ci <= cn,
                            cn == chars@.len(),
                            chars@ =~= q@,
                            esc_chars(q@, 0) =~= out@.subrange(
                                before.len() as int + 1,
                                out@.len() as int,
                            ) + esc_chars(q@, ci as int),
                            out@.len() >= before.len() as int + 1,
                            out@.subrange(0, before.len() as int + 1) =~= before.push('\''),
                        decreases cn - ci,
                    {
                        let ghost produced = out@.subrange(before.len() as int + 1, out@.len() as int);
                        let c = chars[ci];
                        if c == '\\' {
                            push_char(&mut out, '\\');
                            push_char(&mut out, '\\');
                        } else if c == '\'' {
                            push_char(&mut out, '\\');
                            push_char(&mut out, '\'');
                        } else {
                            push_char(&mut out, c);
                        }
                        ci = ci + 1;
                        proof {
                            assert(out@.subrange(0, before.len() as int + 1) =~= before.push('\''));
                            if q@[ci - 1] == '\\' {
                                assert(out@.subrange(before.len() as int + 1, out@.len() as int)
                                    =~= produced + seq!['\\', '\\']);
                            } else if q@[ci - 1] == '\'' {
                                assert(out@.subrange(before.len() as int + 1, out@.len() as int)
                                    =~= produced + seq!['\\', '\'']);
                            } else {
                                assert(out@.subrange(before.len() as int + 1, out@.len() as int)
                                    =~= produced + seq![q@[ci - 1]]);
                            }
                            assert(esc_chars(q@, ci - 1) =~= (if q@[ci - 1] == '\\' {
                                seq!['\\', '\\']
                            } else if q@[ci - 1] == '\'' {
                                seq!['\\', '\'']
                            } else {
                                seq![q@[ci - 1]]
                            }) + esc_chars(q@, ci as int));
                        }
                    }
                    proof {
                        assert(esc_chars(q@, cn as int) =~= Seq::<char>::empty());
                        assert(esc_chars(q@, 0) =~= out@.subrange(
                            before.len() as int + 1,
                            out@.len() as int,
                        ));
                    }
                    let ghost pre_final = out@;
                    push_char(&mut out, '\'');
                    proof {
                        assert(pre_final =~= pre_final.subrange(0, before.len() as int + 1)
                            + pre_final.subrange(before.len() as int + 1, pre_final.len() as int));
                        assert(pre_final =~= before.push('\'') + esc_chars(q@, 0));
                        assert(out@ =~= pre_final.push('\''));
                        assert(out@ =~= before + (seq!['\''] + esc_chars(q@, 0) + seq!['\'']));
                    }
                },
                Token::Drive => out.append("%drive"),
                Token::Name => out.append("%name"),
                Token::Before => out.append("%before"),
                Token::After => out.append("%after"),
                Token::Smaller => out.append("%smaller"),
                Token::Larger => out.append("%larger"),
                Token::And => out.append("&"),
                Token::Or => out.append("|"),
                Token::Diff => out.append("\\"),
                Token::LPar => out.append("("),
                Token::RPar => out.append(")"),
                Token::Eof => {},
            }
            push_char(&mut out, ' ');
            i = i + 1;
            proof {
                assert(toks_view(*ts)[i - 1] == ts@[i - 1]@);
                assert(out@ =~= before + (render_token(ts@[i - 1]@) + seq![' ']));
                assert(before + (render_token(ts@[i - 1]@) + seq![' ']) + render_tokens(
                    toks_view(*ts),
                    i as int,
                ) =~= before + ((render_token(ts@[i - 1]@) + seq![' ']) + render_tokens(
                    toks_view(*ts),
                    i as int,
                )));
            }
        }
        proof {
            assert(render_tokens(toks_view(*ts), n as int) =~= Seq::<char>::empty());
        }
        out
    }
}

/// Escaped text scans back as the text it escaped: reading a quoted
/// literal undoes `esc_chars`.
proof fn lemma_scan_esc(q: Seq<char>, qi: int, s: Seq<char>, pos: int, acc: Seq<char>)
    requires
        0 <= qi <= q.len(),
        0 <= pos,
        pos + esc_chars(q, qi).len() + 1 <= s.len(),
        s.subrange(pos, pos + esc_chars(q, qi).len()) == esc_chars(q, qi),
        s[pos + esc_chars(q, qi).len()] == '\'',
    ensures
        scan_quoted(s, pos, acc) == Some(
            (acc + q.subrange(qi, q.len() as int), pos + esc_chars(q, qi).len() + 1),
        ),
    decreases q.len() - qi,
{
    let e = esc_chars(q, qi);
    if qi >= q.len() {
        assert(e =~= Seq::<char>::empty());
        assert(acc + q.subrange(qi, q.len() as int) =~= acc);
    } else {
        let c = q[qi];
        let rest = esc_chars(q, qi + 1);
        let head: Seq<char> = if c == '\\' {
            seq!['\\', '\\']
        } else if c == '\'' {
            seq!['\\', '\'']
        } else {
            seq![c]
        };
        assert(e =~= head + rest);
        assert(forall|j: int| 0 <= j < e.len() ==> #[trigger] e[j] == s[pos + j]);
        assert(s.subrange(pos + head.len(), pos + head.len() + rest.len()) =~= rest) by {
            assert(forall|j: int|
                0 <= j < rest.len() ==> #[trigger] s.subrange(
                    pos + head.len(),
                    pos + head.len() + rest.len(),
                )[j] == e[j + head.len()]);
        }
        lemma_scan_esc(q, qi + 1, s, pos + head.len(), acc.push(c));
        assert(acc.push(c) + q.subrange(qi + 1, q.len() as int) =~= acc + q.subrange(
            qi,
            q.len() as int,
        ));
        assert(s[pos] == e[0]);
        if head.len() == 2 {
            assert(s[pos + 1] == e[1]);
        }
    }
}

/// `10^k`.
pub open spec fn pow10(k: nat) -> nat
    decreases k,
{
    if k == 0 {
        1
    } else {
        10 * pow10((k - 1) as nat)
    }
}

/// Digits folded onto an accumulator, as the scanner reads them.
spec fn dig_fold(acc: nat, ds: Seq<char>) -> nat
    decreases ds.len(),
{
    if ds.len() == 0 {
        acc
    } else {
        dig_fold(acc * 10 + digit_val(ds[0]) as nat, ds.drop_first())
    }
}

proof fn lemma_dig_fold_push(acc: nat, ds: Seq<char>, d: char)
    requires
        is_digit(d),
    ensures
        dig_fold(acc, ds.push(d)) == dig_fold(acc, ds) * 10 + digit_val(d),
    decreases ds.len(),
{
    if ds.len() == 0 {
        assert(ds.push(d)[0] == d);
        assert(ds.push(d).drop_first() =~= Seq::<char>::empty());
        assert(dig_fold(acc, ds.push(d)) == dig_fold(
            acc * 10 + digit_val(d) as nat,
            ds.push(d).drop_first(),
        ));
        assert(dig_fold(acc * 10 + digit_val(d) as nat, Seq::<char>::empty()) == acc * 10
            + digit_val(d) as nat) by {
            reveal_with_fuel(dig_fold, 2);
        }
        assert(dig_fold(acc, ds) == acc);
    } else {
        assert(ds.push(d)[0] == ds[0]);
        assert(ds.push(d).drop_first() =~= ds.drop_first().push(d));
        lemma_dig_fold_push(acc * 10 + digit_val(ds[0]) as nat, ds.drop_first(), d);
    }
}

/// Every character of a decimal rendering is a digit, and the rendering is
/// never empty.
proof fn lemma_dec_digits(n: nat)
    ensures
        spec_dec_nat(n).len() >= 1,
        forall|j: int|
            0 <= j < spec_dec_nat(n).len() ==> is_digit(#[trigger] spec_dec_nat(n)[j]),
    decreases n,
{
    assert(is_digit(crate::render::digit_char((n % 10) as int))) by {
        let d = (n % 10) as int;
        assert(0 <= d < 10);
    }
    if n >= 10 {
        lemma_dec_digits(n / 10);
        assert(forall|j: int|
            0 <= j < spec_dec_nat(n / 10).len() ==> #[trigger] spec_dec_nat(n)[j]
                == spec_dec_nat(n / 10)[j]);
    }
}

/// Folding the digits of `n` onto `acc` scales `acc` past them and adds `n`.
proof fn lemma_fold_dec(acc: nat, n: nat)
    ensures
        dig_fold(acc, spec_dec_nat(n)) == acc * pow10(spec_dec_nat(n).len()) + n,
    decreases n,
{
    let ds = spec_dec_nat(n);
    if n < 10 {
        assert(ds =~= seq![crate::render::digit_char(n as int)]);
        assert(ds.drop_first() =~= Seq::<char>::empty());
        assert(digit_val(crate::render::digit_char(n as int)) == n);
        assert(pow10(1) == 10) by {
            reveal_with_fuel(pow10, 3);
        }
        assert(dig_fold(acc, ds) == dig_fold(acc * 10 + n, ds.drop_first()));
        assert(dig_fold(acc * 10 + n, Seq::<char>::empty()) == acc * 10 + n);
    } else {
        let hd = spec_dec_nat(n / 10);
        let d = crate::render::digit_char((n % 10) as int);
        assert(is_digit(d));
        assert(ds =~= hd.push(d));
        lemma_fold_dec(acc, n / 10);
        lemma_dig_fold_push(acc, hd, d);
        assert(digit_val(d) == n % 10);
        let k = hd.len();
        assert(pow10(k + 1) == 10 * pow10(k));
        assert((acc * pow10(k) + n / 10) * 10 == acc * (10 * pow10(k)) + (n / 10) * 10)
            by (nonlinear_arith);
        assert(acc * (10 * pow10(k)) == acc * pow10(k + 1)) by (nonlinear_arith)
            requires
                pow10(k + 1) == 10 * pow10(k),
        ;
        assert((n / 10) * 10 + n % 10 == n);
    }
}

/// Scanning a run of digits folds them onto the accumulator and stops at
/// the first non-digit.
proof fn lemma_scan_run(s: Seq<char>, pos: int, k: nat, acc: nat)
    requires
        0 <= pos,
        pos + k < s.len(),
        forall|j: int| 0 <= j < k ==> is_digit(#[trigger] s[pos + j]),
        !is_digit(s[pos + k]),
    ensures
        scan_num(s, pos, acc) == (
            dig_fold(acc, s.subrange(pos, pos + k)),
            pos + k,
        ),
    decreases k,
{
    if k == 0 {
        assert(s.subrange(pos, pos) =~= Seq::<char>::empty());
    } else {
        assert(is_digit(s[pos + 0]));
        assert forall|j: int| 0 <= j < k - 1 implies is_digit(#[trigger] s[pos + 1 + j]) by {
            assert(is_digit(s[pos + (j + 1)]));
        }
        lemma_scan_run(s, pos + 1, (k - 1) as nat, acc * 10 + digit_val(s[pos]) as nat);
        let run = s.subrange(pos, pos + k);
        assert(run[0] == s[pos]);
        assert(run.drop_first() =~= s.subrange(pos + 1, pos + k));
        assert(dig_fold(acc, run) == dig_fold(
            acc * 10 + digit_val(s[pos]) as nat,
            s.subrange(pos + 1, pos + k),
        ));
    }
}

/// Scanning the decimal rendering of `n`, followed by a non-digit, reads
/// `n` back and stops right after it.
proof fn lemma_scan_dec(s: Seq<char>, pos: int, n: nat)
    requires
        0 <= pos,
        pos + spec_dec_nat(n).len() < s.len(),
        s.subrange(pos, pos + spec_dec_nat(n).len()) == spec_dec_nat(n),
        !is_digit(s[pos + spec_dec_nat(n).len()]),
    ensures
        scan_num(s, pos, 0) == (n, pos + spec_dec_nat(n).len()),
{
    let ds = spec_dec_nat(n);
    lemma_dec_digits(n);
    assert(forall|j: int| 0 <= j < ds.len() ==> #[trigger] s[pos + j] == ds[j]);
    lemma_scan_run(s, pos, ds.len(), 0);
    assert(s.subrange(pos, pos + ds.len()) =~= ds);
    lemma_fold_dec(0, n);
    assert(0 * pow10(ds.len()) == 0) by (nonlinear_arith);
}

proof fn lemma_dig_fold_concat(acc: nat, a: Seq<char>, b: Seq<char>)
    ensures
        dig_fold(acc, a + b) == dig_fold(dig_fold(acc, a), b),
    decreases a.len(),
{
    if a.len() == 0 {
        assert(a + b =~= b);
    } else {
        assert((a + b)[0] == a[0]);
        assert((a + b).drop_first() =~= a.drop_first() + b);
        lemma_dig_fold_concat(acc * 10 + digit_val(a[0]) as nat, a.drop_first(), b);
    }
}

proof fn lemma_dig_fold_zeros(acc: nat, k: int)
    requires
        acc == 0,
        k >= 0,
    ensures
        dig_fold(0, crate::render::spec_repeat('0', k)) == 0,
    decreases k,
{
    let z = crate::render::spec_repeat('0', k);
    if k > 0 {
        let z1 = crate::render::spec_repeat('0', k - 1);
        assert(z =~= z1.push('0'));
        lemma_dig_fold_zeros(0, k - 1);
        assert(is_digit('0'));
        lemma_dig_fold_push(0, z1, '0');
        assert(digit_val('0') == 0);
    }
}

/// Decimal renderings of small values are short.
proof fn lemma_dec_len(n: nat, k: nat)
    requires
        k >= 1,
        n < pow10(k),
    ensures
        spec_dec_nat(n).len() <= k,
    decreases k,
{
    if n >= 10 {
        assert(pow10(k) == 10 * pow10((k - 1) as nat));
        assert(n / 10 < pow10((k - 1) as nat)) by (nonlinear_arith)
            requires
                n < 10 * pow10((k - 1) as nat),
        ;
        assert(pow10((k - 1) as nat) >= 1 ==> (k - 1) >= 1 || n / 10 < 1);
        if k == 1 {
            assert(pow10(1) == 10) by {
                reveal_with_fuel(pow10, 3);
            }
            assert(false);
        } else {
            lemma_dec_len(n / 10, (k - 1) as nat);
        }
    }
}

/// A value below `10^k`, zero-padded to width `k`, folds back to itself
/// and is all digits.
proof fn lemma_zero_pad_digits(n: nat, k: nat)
    requires
        k >= 1,
        n < pow10(k),
    ensures
        crate::render::spec_zero_pad(spec_dec_nat(n), k as int).len() == k,
        dig_fold(0, crate::render::spec_zero_pad(spec_dec_nat(n), k as int)) == n,
        forall|j: int|
            0 <= j < k ==> is_digit(
                #[trigger] crate::render::spec_zero_pad(spec_dec_nat(n), k as int)[j],
            ),
{
    let ds = spec_dec_nat(n);
    let z = crate::render::spec_zero_pad(ds, k as int);
    lemma_dec_digits(n);
    lemma_dec_len(n, k);
    if ds.len() >= k {
        assert(z == ds);
        lemma_fold_dec(0, n);
        assert(0 * pow10(ds.len()) == 0) by (nonlinear_arith);
    } else {
        let pad = crate::render::spec_repeat('0', k - ds.len());
        assert(z == pad + ds);
        lemma_repeat_zero_chars(k - ds.len());
        assert(pad.len() == k - ds.len());
        lemma_dig_fold_concat(0, pad, ds);
        lemma_dig_fold_zeros(0, k - ds.len());
        lemma_fold_dec(0, n);
        assert(0 * pow10(ds.len()) == 0) by (nonlinear_arith);
        assert(forall|j: int| 0 <= j < z.len() ==> z[j] == (pad + ds)[j]);
        assert forall|j: int| 0 <= j < k implies is_digit(#[trigger] z[j]) by {
            if j < pad.len() {
                assert(z[j] == pad[j]);
                assert(pad[j] == '0');
                assert(is_digit('0'));
            } else {
                assert(z[j] == ds[j - pad.len()]);
            }
        }
    }
}

proof fn lemma_repeat_zero_chars(k: int)
    ensures
        crate::render::spec_repeat('0', k).len() == (if k >= 0 { k } else { 0 }),
        forall|j: int|
            0 <= j < k ==> #[trigger] crate::render::spec_repeat('0', k)[j] == '0',
    decreases k,
{
    if k > 0 {
        lemma_repeat_zero_chars(k - 1);
        let z = crate::render::spec_repeat('0', k);
        let z1 = crate::render::spec_repeat('0', k - 1);
        assert(z == z1.push('0'));
        assert(forall|j: int| 0 <= j < k - 1 ==> #[trigger] z[j] == z1[j]);
    }
}

/// Four digits fold to their place values.
proof fn lemma_fold4(z: Seq<char>)
    requires
        z.len() == 4,
        forall|j: int| 0 <= j < 4 ==> is_digit(#[trigger] z[j]),
    ensures
        dig_fold(0, z) == digit_val(z[0]) * 1000 + digit_val(z[1]) * 100 + digit_val(z[2]) * 10
            + digit_val(z[3]),
{
    reveal_with_fuel(dig_fold, 3);
    let r1 = z.drop_first();
    let r2 = r1.drop_first();
    let r3 = r2.drop_first();
    let r4 = r3.drop_first();
    assert(r4 =~= Seq::<char>::empty());
    assert(r1[0] == z[1] && r2[0] == z[2] && r3[0] == z[3]);
    assert(dig_fold(0, z) == dig_fold(digit_val(z[0]) as nat, r1));
    assert(dig_fold(digit_val(z[0]) as nat, r1) == dig_fold(
        (digit_val(z[0]) * 10 + digit_val(z[1])) as nat,
        r2,
    ));
    assert(dig_fold((digit_val(z[0]) * 10 + digit_val(z[1])) as nat, r2) == dig_fold(
        ((digit_val(z[0]) * 10 + digit_val(z[1])) * 10 + digit_val(z[2])) as nat,
        r3,
    ));
    assert(dig_fold(
        ((digit_val(z[0]) * 10 + digit_val(z[1])) * 10 + digit_val(z[2])) as nat,
        r3,
    ) == (((digit_val(z[0]) * 10 + digit_val(z[1])) * 10 + digit_val(z[2])) * 10 + digit_val(
        z[3],
    )) as nat);
}

/// Two digits fold to their place values.
proof fn lemma_fold2(z: Seq<char>)
    requires
        z.len() == 2,
        forall|j: int| 0 <= j < 2 ==> is_digit(#[trigger] z[j]),
    ensures
        dig_fold(0, z) == digit_val(z[0]) * 10 + digit_val(z[1]),
{
    reveal_with_fuel(dig_fold, 3);
    let r1 = z.drop_first();
    let r2 = r1.drop_first();
    assert(r2 =~= Seq::<char>::empty());
    assert(r1[0] == z[1]);
    assert(dig_fold(0, z) == dig_fold(digit_val(z[0]) as nat, r1));
    assert(dig_fold(digit_val(z[0]) as nat, r1) == (digit_val(z[0]) * 10 + digit_val(
        z[1],
    )) as nat);
}

/// A token that can stand in a stream: not `Eof`, and a date's parts as
/// the tokenizer produces them.
pub open spec fn wf_tok(t: TokenV) -> bool {
    match t {
        TokenV::Eof => false,
        TokenV::Date(d) => 0 <= d.year <= 9999 && 0 <= d.month <= 99 && 0 <= d.day <= 99,
        _ => true,
    }
}

pub open spec fn wf_toks(ts: Seq<TokenV>) -> bool {
    forall|i: int| 0 <= i < ts.len() ==> wf_tok(#[trigger] ts[i])
}

/// Reveals every keyword literal the tokenizer knows.
proof fn reveal_keywords()
    ensures
        "after"@ =~= seq!['a', 'f', 't', 'e', 'r'],
        "before"@ =~= seq!['b', 'e', 'f', 'o', 'r', 'e'],
        "drive"@ =~= seq!['d', 'r', 'i', 'v', 'e'],
        "f"@ =~= seq!['f'],
        "larger"@ =~= seq!['l', 'a', 'r', 'g', 'e', 'r'],
        "name"@ =~= seq!['n', 'a', 'm', 'e'],
        "smaller"@ =~= seq!['s', 'm', 'a', 'l', 'l', 'e', 'r'],
        "t"@ =~= seq!['t'],
{
    reveal_strlit("after");
    reveal_strlit("before");
    reveal_strlit("drive");
    reveal_strlit("f");
    reveal_strlit("larger");
    reveal_strlit("name");
    reveal_strlit("smaller");
    reveal_strlit("t");
}

/// Reading one rendered token, followed by a space, gives that token back
/// and stops at the space.
proof fn lemma_eat_rendered(t: TokenV, s: Seq<char>, pos: int)
    requires
        wf_tok(t),
        0 <= pos,
        pos + render_token(t).len() + 1 <= s.len(),
        s.subrange(pos, pos + render_token(t).len()) == render_token(t),
        s[pos + render_token(t).len()] == ' ',
    ensures
        spec_eat(s, pos) == Ok::<(TokenV, int), Seq<char>>((t, pos + render_token(t).len())),
{
    let rt = render_token(t);
    let n = rt.len() as int;
    assert(forall|j: int| 0 <= j < n ==> #[trigger] rt[j] == s[pos + j]);
    assert forall|j: int| 0 <= j < n implies #[trigger] s[pos + j] == rt[j] by {
        assert(rt[j] == s[pos + j]);
    }
    reveal_keywords();
    match t {
        TokenV::And => {
            reveal_strlit("&");
            assert(s[pos + 0] == rt[0]);
            assert(s[pos] == '&');
        },
        TokenV::Or => {
            reveal_strlit("|");
            assert(s[pos + 0] == rt[0]);
            assert(s[pos] == '|');
        },
        TokenV::Diff => {
            reveal_strlit("\\");
            assert(s[pos + 0] == rt[0]);
            assert(s[pos] == '\\');
        },
        TokenV::LPar => {
            reveal_strlit("(");
            assert(s[pos + 0] == rt[0]);
            assert(s[pos] == '(');
        },
        TokenV::RPar => {
            reveal_strlit(")");
            assert(s[pos + 0] == rt[0]);
            assert(s[pos] == ')');
        },
        TokenV::True => {
            reveal_strlit("%t");
            assert(s[pos + 0] == rt[0] && s[pos + 1] == rt[1]);
            assert(s[pos] == '%' && s[pos + 1] == 't');
            assert forall|j: int| 0 <= j < "t"@.len() implies #[trigger] s[pos + 1 + j]
                == "t"@[j] by {
                assert(s[pos + (1 + j)] == rt[1 + j]);
            }
            lemma_scan_keyword(s, pos + 1, "t"@);
            assert(keyword_token("t"@) == Some(TokenV::True)) by {
                assert("t"@[0] == 't' && "f"@[0] == 'f');
                assert("t"@ != "f"@);
            }
        },
        TokenV::False => {
            reveal_strlit("%f");
            assert(s[pos + 0] == rt[0] && s[pos + 1] == rt[1]);
            assert(s[pos] == '%' && s[pos + 1] == 'f');
            assert forall|j: int| 0 <= j < "f"@.len() implies #[trigger] s[pos + 1 + j]
                == "f"@[j] by {
                assert(s[pos + (1 + j)] == rt[1 + j]);
            }
            lemma_scan_keyword(s, pos + 1, "f"@);
            assert(keyword_token("f"@) == Some(TokenV::False));
        },
        TokenV::Drive => {
            reveal_strlit("%drive");
            assert(s[pos + 0] == rt[0]);
            assert(s[pos] == '%');
            assert forall|j: int| 0 <= j < "drive"@.len() implies #[trigger] s[pos + 1 + j]
                == "drive"@[j] by {
                assert(s[pos + (1 + j)] == rt[1 + j]);
            }
            lemma_scan_keyword(s, pos + 1, "drive"@);
            assert(keyword_token("drive"@) == Some(TokenV::Drive));
        },
        TokenV::Name => {
            reveal_strlit("%name");
            assert(s[pos + 0] == rt[0]);
            assert(s[pos] == '%');
            assert forall|j: int| 0 <= j < "name"@.len() implies #[trigger] s[pos + 1 + j]
                == "name"@[j] by {
                assert(s[pos + (1 + j)] == rt[1 + j]);
            }
            lemma_scan_keyword(s, pos + 1, "name"@);
            assert(keyword_token("name"@) == Some(TokenV::Name));
        },
        TokenV::Before => {
            reveal_strlit("%before");
            assert(s[pos + 0] == rt[0]);
            assert(s[pos] == '%');
            assert forall|j: int| 0 <= j < "before"@.len() implies #[trigger] s[pos + 1 + j]
                == "before"@[j] by {
                assert(s[pos + (1 + j)] == rt[1 + j]);
            }
            lemma_scan_keyword(s, pos + 1, "before"@);
            assert(keyword_token("before"@) == Some(TokenV::Before));
        },
        TokenV::After => {
            reveal_strlit("%after");
            assert(s[pos + 0] == rt[0]);
            assert(s[pos] == '%');
            assert forall|j: int| 0 <= j < "after"@.len() implies #[trigger] s[pos + 1 + j]
                == "after"@[j] by {
                assert(s[pos + (1 + j)] == rt[1 + j]);
            }
            lemma_scan_keyword(s, pos + 1, "after"@);
            assert(keyword_token("after"@) == Some(TokenV::After));
        },
        TokenV::Smaller => {
            reveal_strlit("%smaller");
            assert(s[pos + 0] == rt[0]);
            assert(s[pos] == '%');
            assert forall|j: int| 0 <= j < "smaller"@.len() implies #[trigger] s[pos + 1 + j]
                == "smaller"@[j] by {
                assert(s[pos + (1 + j)] == rt[1 + j]);
            }
            lemma_scan_keyword(s, pos + 1, "smaller"@);
            assert(keyword_token("smaller"@) == Some(TokenV::Smaller));
        },
        TokenV::Larger => {
            reveal_strlit("%larger");
            assert(s[pos + 0] == rt[0]);
            assert(s[pos] == '%');
            assert forall|j: int| 0 <= j < "larger"@.len() implies #[trigger] s[pos + 1 + j]
                == "larger"@[j] by {
                assert(s[pos + (1 + j)] == rt[1 + j]);
            }
            lemma_scan_keyword(s, pos + 1, "larger"@);
            assert(keyword_token("larger"@) == Some(TokenV::Larger));
        },
        TokenV::Str(q) => {
            assert(rt =~= seq!['\''] + esc_chars(q, 0) + seq!['\'']);
            assert(s[pos] == '\'');
            assert(s[pos + n - 1] == rt[n - 1]);
            assert(rt[n - 1] == '\'');
            assert(s.subrange(pos + 1, pos + 1 + esc_chars(q, 0).len()) =~= esc_chars(q, 0))
                by {
                assert(forall|j: int|
                    0 <= j < esc_chars(q, 0).len() ==> #[trigger] s.subrange(
                        pos + 1,
                        pos + 1 + esc_chars(q, 0).len(),
                    )[j] == rt[j + 1]);
            }
            lemma_scan_esc(q, 0, s, pos + 1, Seq::empty());
            assert(Seq::<char>::empty() + q.subrange(0, q.len() as int) =~= q);
        },
        TokenV::Unsigned(v) => {
            lemma_eat_rendered_number(v, s, pos);
        },
        TokenV::Date(d) => {
            reveal_with_fuel(pow10, 6);
            lemma_zero_pad_digits(d.year as nat, 4);
            lemma_zero_pad_digits((d.month as u8) as nat, 2);
            lemma_zero_pad_digits((d.day as u8) as nat, 2);
            assert(crate::render::spec_dec_int(d.year as int) == spec_dec_nat(d.year as nat));
            assert(render_token(TokenV::Date(d)).len() == 10);
            lemma_eat_rendered_date(d, s, pos);
        },
        TokenV::Eof => {},
    }
}

/// Collecting keyword letters over a rendered keyword, followed by a
/// space, gives the keyword back.
proof fn lemma_scan_keyword(s: Seq<char>, pos: int, kw: Seq<char>)
    requires
        0 <= pos,
        pos + kw.len() < s.len(),
        forall|j: int| 0 <= j < kw.len() ==> #[trigger] s[pos + j] == kw[j],
        forall|j: int| 0 <= j < kw.len() ==> is_lower(#[trigger] kw[j]),
        s[pos + kw.len()] == ' ',
    ensures
        scan_kw(s, pos, Seq::empty()) == (kw, pos + kw.len()),
{
    lemma_scan_keyword_acc(s, pos, kw, 0, Seq::empty());
    assert(Seq::<char>::empty() + kw.subrange(0, kw.len() as int) =~= kw);
}

proof fn lemma_scan_keyword_acc(s: Seq<char>, pos: int, kw: Seq<char>, i: int, acc: Seq<char>)
    requires
        0 <= pos,
        0 <= i <= kw.len(),
        pos + (kw.len() - i) < s.len(),
        forall|j: int| i <= j < kw.len() ==> #[trigger] s[pos + (j - i)] == kw[j],
        forall|j: int| 0 <= j < kw.len() ==> is_lower(#[trigger] kw[j]),
        s[pos + (kw.len() - i)] == ' ',
    ensures
        scan_kw(s, pos, acc) == (acc + kw.subrange(i, kw.len() as int), pos + (kw.len() - i)),
    decreases kw.len() - i,
{
    if i >= kw.len() {
        assert(s[pos] == ' ');
        assert(!is_lower(' '));
        assert(acc + kw.subrange(i, kw.len() as int) =~= acc);
    } else {
        assert(s[pos + (i - i)] == kw[i]);
        assert(s[pos] == kw[i]);
        assert(is_lower(kw[i]));
        assert forall|j: int| i + 1 <= j < kw.len() implies #[trigger] s[pos + 1 + (j - (i
            + 1))] == kw[j] by {
            assert(s[pos + (j - i)] == kw[j]);
        }
        lemma_scan_keyword_acc(s, pos + 1, kw, i + 1, acc.push(kw[i]));
        assert(acc.push(kw[i]) + kw.subrange(i + 1, kw.len() as int) =~= acc + kw.subrange(
            i,
            kw.len() as int,
        ));
    }
}

/// Reading a rendered number, followed by a space, gives the number back.
proof fn lemma_eat_rendered_number(v: u64, s: Seq<char>, pos: int)
    requires
        0 <= pos,
        pos + spec_dec_nat(v as nat).len() + 1 <= s.len(),
        s.subrange(pos, pos + spec_dec_nat(v as nat).len()) == spec_dec_nat(v as nat),
        s[pos + spec_dec_nat(v as nat).len()] == ' ',
    ensures
        spec_eat(s, pos) == Ok::<(TokenV, int), Seq<char>>(
            (TokenV::Unsigned(v), pos + spec_dec_nat(v as nat).len()),
        ),
{
    let ds = spec_dec_nat(v as nat);
    let k = ds.len() as int;
    lemma_dec_digits(v as nat);
    assert(forall|j: int| 0 <= j < k ==> #[trigger] s[pos + j] == ds[j]);
    assert(s[pos + 0] == ds[0]);
    assert(is_digit(ds[0]));
    assert(is_digit(s[pos]));
    assert(!is_date_at(s, pos)) by {
        if k >= 5 {
            assert(is_digit(s[pos + 4]));
            assert(s[pos + 4] as u32 != 45);
            assert(s[pos + 4] != '-');
        } else if k == 4 {
            assert(s[pos + 4] == ' ');
            assert(s[pos + 4] != '-');
        } else {
            assert(s[pos + k] == ' ');
            assert(!is_digit(s[pos + k]));
        }
    }
    lemma_scan_dec(s, pos, v as nat);
    assert(s[pos + k] != 'G' && s[pos + k] != 'M' && s[pos + k] != 'k');
}

/// Reading a rendered date gives the date back.
proof fn lemma_eat_rendered_date(d: crate::fsexpr::FsDate, s: Seq<char>, pos: int)
    requires
        0 <= d.year <= 9999,
        0 <= d.month <= 99,
        0 <= d.day <= 99,
        0 <= pos,
        pos + 10 + 1 <= s.len(),
        render_token(TokenV::Date(d)).len() == 10,
        s.subrange(pos, pos + 10) == render_token(TokenV::Date(d)),
        s[pos + 10] == ' ',
    ensures
        spec_eat(s, pos) == Ok::<(TokenV, int), Seq<char>>((TokenV::Date(d), pos + 10)),
{
    let rt = render_token(TokenV::Date(d));
    assert(forall|j: int| 0 <= j < 10 ==> #[trigger] rt[j] == s[pos + j]);
    assert(s[pos + 0] == rt[0] && s[pos + 1] == rt[1] && s[pos + 2] == rt[2] && s[pos + 3]
        == rt[3] && s[pos + 4] == rt[4]);
    assert(s[pos + 5] == rt[5] && s[pos + 6] == rt[6] && s[pos + 7] == rt[7] && s[pos + 8]
        == rt[8] && s[pos + 9] == rt[9]);
    reveal_with_fuel(pow10, 6);
    let zy = crate::render::spec_zero_pad(crate::render::spec_dec_int(d.year as int), 4);
    let zm = crate::render::spec_zero_pad(spec_dec_nat((d.month as u8) as nat), 2);
    let zd = crate::render::spec_zero_pad(spec_dec_nat((d.day as u8) as nat), 2);
    assert(crate::render::spec_dec_int(d.year as int) == spec_dec_nat(d.year as nat));
    lemma_zero_pad_digits(d.year as nat, 4);
    lemma_zero_pad_digits((d.month as u8) as nat, 2);
    lemma_zero_pad_digits((d.day as u8) as nat, 2);
    assert(rt =~= zy + seq!['-'] + zm + seq!['-'] + zd);
    assert(rt[4] == '-' && rt[7] == '-');
    assert(forall|j: int| 0 <= j < 4 ==> #[trigger] rt[j] == zy[j]);
    assert(rt[5] == zm[0] && rt[6] == zm[1]);
    assert(rt[8] == zd[0] && rt[9] == zd[1]);
    assert(is_date_at(s, pos));
    assert(is_digit(s[pos]));
    assert(!is_ws(s[pos]) && s[pos] != '%' && s[pos] != '&' && s[pos] != '|' && s[pos]
        != '\\' && s[pos] != '(' && s[pos] != ')' && s[pos] != '\'');
    lemma_fold4(zy);
    lemma_fold2(zm);
    lemma_fold2(zd);
    let got = date_at(s, pos);
    assert(got.year == d.year) by {
        assert(digit_val(s[pos]) * 1000 + digit_val(s[pos + 1]) * 100 + digit_val(s[pos + 2])
            * 10 + digit_val(s[pos + 3]) == d.year as nat);
    }
    assert(got.month == d.month) by {
        assert(digit_val(s[pos + 5]) * 10 + digit_val(s[pos + 6]) == (d.month as u8) as nat);
    }
    assert(got.day == d.day) by {
        assert(digit_val(s[pos + 8]) * 10 + digit_val(s[pos + 9]) == (d.day as u8) as nat);
    }
    assert(got == d);
}

/// Tokenizing rendered tokens from a boundary reads the remaining stream.
proof fn lemma_tokenize_rendered(ts: Seq<TokenV>, i: int, s: Seq<char>, pos: int)
    requires
        wf_toks(ts),
        0 <= i <= ts.len(),
        0 <= pos,
        s.len() == pos + render_tokens(ts, i).len(),
        s.subrange(pos, s.len() as int) == render_tokens(ts, i),
    ensures
        spec_tokenize_from(s, pos) == Ok::<Seq<TokenV>, Seq<char>>(
            ts.subrange(i, ts.len() as int),
        ),
    decreases ts.len() - i,
{
    let full = render_tokens(ts, i);
    assert forall|j: int| 0 <= j < full.len() implies #[trigger] s[pos + j] == full[j] by {
        assert(s.subrange(pos, s.len() as int)[j] == full[j]);
    }
    if i >= ts.len() {
        assert(full =~= Seq::<char>::empty());
        assert(pos == s.len());
        assert(ts.subrange(i, ts.len() as int) =~= Seq::<TokenV>::empty());
    } else {
        let t = ts[i];
        assert(wf_tok(t));
        let rt = render_token(t);
        let rest = render_tokens(ts, i + 1);
        assert(full =~= rt + seq![' '] + rest);
        let m = rt.len() as int;
        assert(s.subrange(pos, pos + m) =~= rt) by {
            assert(forall|j: int|
                0 <= j < m ==> #[trigger] s.subrange(pos, pos + m)[j] == s[pos + j]);
            assert(forall|j: int| 0 <= j < m ==> #[trigger] full[j] == rt[j]);
        }
        assert(s[pos + m] == ' ') by {
            assert(full[m] == ' ');
        }
        lemma_eat_rendered(t, s, pos);
        let pos2 = pos + m;
        assert(s.subrange(pos2 + 1, s.len() as int) =~= rest) by {
            assert(forall|j: int|
                0 <= j < rest.len() ==> #[trigger] s.subrange(pos2 + 1, s.len() as int)[j]
                    == s[pos + (m + 1 + j)]);
            assert(forall|j: int| 0 <= j < rest.len() ==> #[trigger] full[m + 1 + j] == rest[j]);
        }
        lemma_tokenize_rendered(ts, i + 1, s, pos2 + 1);
        assert(is_ws(s[pos2]));
        assert(spec_eat(s, pos2) == spec_eat(s, pos2 + 1));
        assert(spec_tokenize_from(s, pos2) == spec_tokenize_from(s, pos2 + 1));
        assert(!(t is Eof));
        assert(seq![t] + ts.subrange(i + 1, ts.len() as int) =~= ts.subrange(
            i,
            ts.len() as int,
        ));
    }
}

/// Writing a token stream back as text and tokenizing that text gives the
/// same stream, token for token.
pub proof fn law_pretty_tokenize(ts: Seq<TokenV>)
    requires
        wf_toks(ts),
    ensures
        spec_tokenize(render_tokens(ts, 0)) == Ok::<Seq<TokenV>, Seq<char>>(ts),
{
    let s = render_tokens(ts, 0);
    assert(s.subrange(0, s.len() as int) =~= s);
    lemma_tokenize_rendered(ts, 0, s, 0);
    assert(ts.subrange(0, ts.len() as int) =~= ts);
}

/// Every token the tokenizer reads can stand in a stream.
proof fn lemma_eat_wf(s: Seq<char>, i: int)
    requires
        0 <= i <= s.len(),
    ensures
        spec_eat(s, i) matches Ok(p) ==> (!(p.0 is Eof) ==> wf_tok(p.0)),
    decreases s.len() - i,
{
    if i < s.len() {
        if is_ws(s[i]) {
            lemma_eat_wf(s, i + 1);
        } else if is_date_at(s, i) && s[i] != '%' && s[i] != '&' && s[i] != '|' && s[i]
            != '\\' && s[i] != '(' && s[i] != ')' && s[i] != '\'' {
            let d = date_at(s, i);
            assert(0 <= d.year <= 9999 && 0 <= d.month <= 99 && 0 <= d.day <= 99) by {
                assert(is_digit(s[i]) && is_digit(s[i + 1]) && is_digit(s[i + 2]) && is_digit(
                    s[i + 3],
                ));
                assert(is_digit(s[i + 5]) && is_digit(s[i + 6]));
                assert(is_digit(s[i + 8]) && is_digit(s[i + 9]));
            }
        }
    }
}

/// Everything the tokenizer produces can be written back: tokenizing, then
/// writing the tokens as text, then tokenizing again gives the same stream.
pub proof fn law_tokenize_pretty_tokenize(u: Seq<char>)
    requires
        spec_tokenize(u) is Ok,
    ensures
        spec_tokenize(render_tokens(spec_tokenize(u)->Ok_0, 0)) == spec_tokenize(u),
{
    lemma_tokenize_from_wf(u, 0);
    law_pretty_tokenize(spec_tokenize(u)->Ok_0);
}

proof fn lemma_tokenize_from_wf(s: Seq<char>, i: int)
    requires
        0 <= i <= s.len(),
    ensures
        spec_tokenize_from(s, i) matches Ok(ts) ==> wf_toks(ts),
    decreases s.len() - i,
{
    lemma_eat_progress(s, i);
    lemma_eat_wf(s, i);
    match spec_eat(s, i) {
        Err(m) => {},
        Ok((t, j)) => {
            if !(t is Eof) {
                lemma_tokenize_from_wf(s, j);
                let tr = spec_tokenize_from(s, j);
                if tr is Ok {
                    let rest = tr->Ok_0;
                    assert forall|x: int|
                        0 <= x < (seq![t] + rest).len() implies wf_tok(
                        #[trigger] (seq![t] + rest)[x],
                    ) by {
                        if x > 0 {
                            assert((seq![t] + rest)[x] == rest[x - 1]);
                        }
                    }
                }
            } else {
                assert(wf_toks(Seq::<TokenV>::empty()));
            }
        },
    }
}

} // verus!
