//! Verified text building: strings from characters, decimal numbers, padding.
use vstd::prelude::*;

verus! {

/// Relies on String::push: appends exactly the given character.
#[verifier::external_body]
pub fn push_char(s: &mut String, c: char)
    ensures
        final(s)@ == old(s)@.push(c),
{
    s.push(c);
}

/// Builds a string holding exactly the given characters.
pub fn string_of_chars(v: &Vec<char>) -> (r: String)
    ensures
        r@ =~= v@,
{
    let mut r = String::new();
    let mut i: usize = 0;
    while i < v.len()
        invariant
            i <= v@.len(),
            r@ =~= v@.subrange(0, i as int),
        decreases v@.len() - i,
    {
        push_char(&mut r, v[i]);
        i = i + 1;
        proof {
            assert(r@ =~= v@.subrange(0, i as int));
        }
    }
    proof {
        assert(v@.subrange(0, v@.len() as int) =~= v@);
    }
    r
}

/// The characters of a string, in order.
pub fn chars_of_str(s: &str) -> (r: Vec<char>)
    ensures
        r@ =~= s@,
{
    let n = s.unicode_len();
    let mut r: Vec<char> = Vec::new();
    let mut i: usize = 0;
    while i < n
        invariant
            n == s@.len(),
            i <= n,
            r@ =~= s@.subrange(0, i as int),
        decreases n - i,
    {
        r.push(s.get_char(i));
        i = i + 1;
        proof {
            assert(r@ =~= s@.subrange(0, i as int));
        }
    }
    proof {
        assert(s@.subrange(0, n as int) =~= s@);
    }
    r
}

/// The character for one decimal digit.
pub open spec fn digit_char(d: int) -> char {
    if d == 0 {
        '0'
    } else if d == 1 {
        '1'
    } else if d == 2 {
        '2'
    } else if d == 3 {
        '3'
    } else if d == 4 {
        '4'
    } else if d == 5 {
        '5'
    } else if d == 6 {
        '6'
    } else if d == 7 {
        '7'
    } else if d == 8 {
        '8'
    } else {
        '9'
    }
}

/// The decimal rendering of a natural number, most significant digit first.
pub open spec fn spec_dec_nat(n: nat) -> Seq<char>
    decreases n,
{
    if n < 10 {
        seq![digit_char(n as int)]
    } else {
        spec_dec_nat(n / 10).push(digit_char((n % 10) as int))
    }
}

/// The decimal rendering of a signed value: a minus sign when negative.
pub open spec fn spec_dec_int(n: int) -> Seq<char> {
    if n >= 0 {
        spec_dec_nat(n as nat)
    } else {
        seq!['-'] + spec_dec_nat((-n) as nat)
    }
}

fn digit_of(d: u64) -> (c: char)
    requires
        d < 10,
    ensures
        c == digit_char(d as int),
{
    if d == 0 {
        '0'
    } else if d == 1 {
        '1'
    } else if d == 2 {
        '2'
    } else if d == 3 {
        '3'
    } else if d == 4 {
        '4'
    } else if d == 5 {
        '5'
    } else if d == 6 {
        '6'
    } else if d == 7 {
        '7'
    } else if d == 8 {
        '8'
    } else {
        '9'
    }
}

/// The decimal digits of `n`, as characters.
pub fn dec_u64_chars(n: u64) -> (r: Vec<char>)
    ensures
        r@ =~= spec_dec_nat(n as nat),
    decreases n,
{
    if n < 10 {
        let mut r: Vec<char> = Vec::new();
        r.push(digit_of(n));
        proof {
            assert(r@ =~= spec_dec_nat(n as nat));
        }
        r
    } else {
        let mut r = dec_u64_chars(n / 10);
        r.push(digit_of(n % 10));
        proof {
            assert(r@ =~= spec_dec_nat(n as nat));
        }
        r
    }
}

/// Renders an unsigned value in decimal.
pub fn dec_u64(n: u64) -> (r: String)
    ensures
        r@ =~= spec_dec_nat(n as nat),
{
    let v = dec_u64_chars(n);
    string_of_chars(&v)
}

/// Renders a usize in decimal.
pub fn dec_usize(n: usize) -> (r: String)
    ensures
        r@ =~= spec_dec_nat(n as nat),
{
    dec_u64(n as u64)
}

/// Renders a signed value in decimal.
pub fn dec_i64(n: i64) -> (r: String)
    ensures
        r@ =~= spec_dec_int(n as int),
{
    if n >= 0 {
        dec_u64(n as u64)
    } else {
        let mut v: Vec<char> = Vec::new();
        v.push('-');
        let m: u64 = if n == i64::MIN {
            0x8000_0000_0000_0000u64
        } else {
            (-n) as u64
        };
        let mut d = dec_u64_chars(m);
        v.append(&mut d);
        proof {
            assert(v@ =~= spec_dec_int(n as int));
        }
        string_of_chars(&v)
    }
}

/// Renders an i32 in decimal.
pub fn dec_i32(n: i32) -> (r: String)
    ensures
        r@ =~= spec_dec_int(n as int),
{
    dec_i64(n as i64)
}

/// `n` copies of one character.
pub open spec fn spec_repeat(c: char, n: int) -> Seq<char>
    decreases n,
{
    if n <= 0 {
        Seq::empty()
    } else {
        spec_repeat(c, n - 1).push(c)
    }
}

/// Builds `n` copies of one character.
pub fn repeat_char(c: char, n: usize) -> (r: Vec<char>)
    ensures
        r@ =~= spec_repeat(c, n as int),
{
    let mut r: Vec<char> = Vec::new();
    let mut i: usize = 0;
    while i < n
        invariant
            i <= n,
            r@ =~= spec_repeat(c, i as int),
        decreases n - i,
    {
        r.push(c);
        i = i + 1;
        proof {
            assert(r@ =~= spec_repeat(c, i as int));
        }
    }
    r
}

/// `s` padded on the left with spaces to width `w` (unchanged when longer).
pub open spec fn spec_pad_left(s: Seq<char>, w: int) -> Seq<char> {
    if s.len() >= w {
        s
    } else {
        spec_repeat(' ', w - s.len()) + s
    }
}

/// `s` padded on the right with spaces to width `w` (unchanged when longer).
pub open spec fn spec_pad_right(s: Seq<char>, w: int) -> Seq<char> {
    if s.len() >= w {
        s
    } else {
        s + spec_repeat(' ', w - s.len())
    }
}

/// Pads a string on the left with spaces to the given width.
pub fn pad_left(s: &str, w: usize) -> (r: String)
    ensures
        r@ =~= spec_pad_left(s@, w as int),
{
    let n = s.unicode_len();
    if n >= w {
        s.to_owned()
    } else {
        let pad = repeat_char(' ', w - n);
        let mut r = string_of_chars(&pad);
        r.append(s);
        r
    }
}

/// Pads a string on the right with spaces to the given width.
pub fn pad_right(s: &str, w: usize) -> (r: String)
    ensures
        r@ =~= spec_pad_right(s@, w as int),
{
    let n = s.unicode_len();
    let mut r = s.to_owned();
    if n < w {
        let pad = repeat_char(' ', w - n);
        let p = string_of_chars(&pad);
        r.append(p.as_str());
    }
    r
}

/// `s` padded on the left with zeroes to width `w` (unchanged when longer).
pub open spec fn spec_zero_pad(s: Seq<char>, w: int) -> Seq<char> {
    if s.len() >= w {
        s
    } else {
        spec_repeat('0', w - s.len()) + s
    }
}

/// A date as `YYYY-MM-DD`, each part zero-padded.
pub open spec fn spec_date_ymd(y: i32, mo: u8, d: u8) -> Seq<char> {
    spec_zero_pad(spec_dec_int(y as int), 4) + seq!['-'] + spec_zero_pad(
        spec_dec_nat(mo as nat),
        2,
    ) + seq!['-'] + spec_zero_pad(spec_dec_nat(d as nat), 2)
}

/// Renders a date as `YYYY-MM-DD`.
pub fn date_ymd(y: i32, mo: u8, d: u8) -> (r: String)
    ensures
        r@ == spec_date_ymd(y, mo, d),
{
    let ys = dec_i32(y);
    let mos = dec_u64(mo as u64);
    let ds = dec_u64(d as u64);
    let mut r = zero_pad(ys.as_str(), 4);
    push_char(&mut r, '-');
    let mp = zero_pad(mos.as_str(), 2);
    r.append(mp.as_str());
    push_char(&mut r, '-');
    let dp = zero_pad(ds.as_str(), 2);
    r.append(dp.as_str());
    proof {
        assert(r@ =~= spec_date_ymd(y, mo, d));
    }
    r
}

/// Pads a number's digits on the left with zeroes to the given width.
pub fn zero_pad(s: &str, w: usize) -> (r: String)
    ensures
        r@ =~= spec_zero_pad(s@, w as int),
{
    let n = s.unicode_len();
    if n >= w {
        s.to_owned()
    } else {
        let pad = repeat_char('0', w - n);
        let mut r = string_of_chars(&pad);
        r.append(s);
        r
    }
}

} // verus!
