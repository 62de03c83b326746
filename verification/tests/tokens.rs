//! Tokenizer details: sizes, dates, strings, and each error message.
use fsmap::boolean::Expr;
use fsmap::fsexpr::FsAtom;
use fsmap::fstok::Token;

fn tok1(u: &str) -> Token {
    let mut v = Token::tokenize(u).unwrap();
    assert_eq!(v.len(), 1);
    v.pop().unwrap()
}

#[test]
fn sizes_with_suffixes() {
    assert!(matches!(tok1("2k"), Token::Unsigned(2048)));
    assert!(matches!(tok1("3M"), Token::Unsigned(3145728)));
    assert!(matches!(tok1("1G"), Token::Unsigned(1073741824)));
    assert!(matches!(tok1("1500"), Token::Unsigned(1500)));
}

#[test]
fn dates_and_keywords() {
    match tok1("2021-01-01") {
        Token::Date(d) => {
            assert_eq!(d.year, 2021);
            assert_eq!(d.month, 1);
            assert_eq!(d.day, 1);
        },
        t => panic!("not a date: {:?}", t),
    }
    assert!(matches!(tok1("%t"), Token::True));
    assert!(matches!(tok1("%f"), Token::False));
    assert!(matches!(tok1("%drive"), Token::Drive));
    assert!(matches!(tok1("%name"), Token::Name));
    assert!(matches!(tok1("%before"), Token::Before));
    assert!(matches!(tok1("%after"), Token::After));
    assert!(matches!(tok1("%smaller"), Token::Smaller));
    assert!(matches!(tok1("%larger"), Token::Larger));
}

#[test]
fn ascii_whitespace_separates_tokens() {
    let toks = Token::tokenize("%t \u{B}\u{C}\t\r\n %f").unwrap();
    assert_eq!(toks.len(), 2);
    assert!(matches!(toks[0], Token::True));
    assert!(matches!(toks[1], Token::False));
}

#[test]
fn quoted_strings_unescape() {
    match tok1("'a\\\\b\\'c'") {
        Token::Str(s) => assert_eq!(s, "a\\b'c"),
        t => panic!("not a string: {:?}", t),
    }
}

#[test]
fn tokenizer_errors() {
    assert_eq!(
        Token::tokenize("%oops").unwrap_err().message().as_str(),
        "Unknown keyword oops"
    );
    assert_eq!(
        Token::tokenize("'abc").unwrap_err().message().as_str(),
        "Unexpected EOF in string"
    );
    assert_eq!(
        Token::tokenize("#").unwrap_err().message().as_str(),
        "Unexpected character #"
    );
    assert_eq!(
        Token::tokenize("99999999999999999999999").unwrap_err().message().as_str(),
        "Invalid number"
    );
}

#[test]
fn parser_errors() {
    assert_eq!(
        Expr::<FsAtom>::parse("(a").unwrap_err().message().as_str(),
        "Expecting right parenthesis"
    );
    assert_eq!(
        Expr::<FsAtom>::parse("a b").unwrap_err().message().as_str(),
        "Junk at end of expression"
    );
    assert_eq!(Expr::<FsAtom>::parse(")").unwrap_err().message().as_str(), "Invalid syntax");
    assert_eq!(Expr::<FsAtom>::parse("%drive x").unwrap_err().message().as_str(), "Invalid syntax");
    assert_eq!(
        Expr::<FsAtom>::parse("%name '['").unwrap_err().message().as_str(),
        "Invalid regex: ["
    );
    assert_eq!(
        Expr::<FsAtom>::parse("%before 2021-13-01").unwrap_err().message().as_str(),
        "Invalid date"
    );
}

#[test]
fn pretty_tokens_round_trip() {
    for u in &[
        "%t & %f | %drive 3",
        "%name 'y$' \\ %larger 2k",
        "'it''s' 'a\\\\b' path.*txt",
        "%before 2021-01-01 | %after 1999-12-31",
        "( a & b ) | c",
        "12 34k 5M 6G",
    ] {
        let t1 = Token::tokenize(u).unwrap();
        let printed = Token::pretty(&t1);
        let t2 = Token::tokenize(&printed).unwrap();
        assert_eq!(format!("{:?}", t1), format!("{:?}", t2), "input {:?}", u);
        let printed2 = Token::pretty(&t2);
        assert_eq!(printed, printed2);
    }
}

#[test]
fn parse_shapes() {
    fn is_atom(e: &Expr<FsAtom>) -> bool {
        matches!(e, Expr::Atom(_))
    }
    match Expr::<FsAtom>::parse("a & b | c").unwrap() {
        Expr::Or(l, r) => {
            assert!(matches!(*l, Expr::And(_, _)));
            assert!(is_atom(&r));
        },
        e => panic!("wrong shape: {:?}", e),
    }
    match Expr::<FsAtom>::parse("a | b & c").unwrap() {
        Expr::Or(l, r) => {
            assert!(is_atom(&l));
            assert!(matches!(*r, Expr::And(_, _)));
        },
        e => panic!("wrong shape: {:?}", e),
    }
    match Expr::<FsAtom>::parse("a \\ b & c").unwrap() {
        Expr::And(l, r) => {
            assert!(matches!(*l, Expr::Diff(_, _)));
            assert!(is_atom(&r));
        },
        e => panic!("wrong shape: {:?}", e),
    }
}

#[test]
fn eval_is_pure_and_lawful() {
    let data = fsmap::fsexpr::FsDataGen {
        drive: 0,
        name: "x.txt",
        path: "/a/x.txt",
        timestamp: Some(1000),
        size: Some(10),
    };
    let ab = Expr::<FsAtom>::parse("a & x").unwrap();
    let ba = Expr::<FsAtom>::parse("x & a").unwrap();
    assert_eq!(ab.eval(&data), ba.eval(&data));
    assert_eq!(ab.eval(&data), ab.eval(&data));
    let or1 = Expr::<FsAtom>::parse("zzz | x").unwrap();
    let or2 = Expr::<FsAtom>::parse("x | zzz").unwrap();
    assert_eq!(or1.eval(&data), or2.eval(&data));
    let diff = Expr::<FsAtom>::parse("x \\ zzz").unwrap();
    assert!(diff.eval(&data));
    let t_and = Expr::<FsAtom>::parse("%t & zzz").unwrap();
    let just = Expr::<FsAtom>::parse("zzz").unwrap();
    assert_eq!(t_and.eval(&data), just.eval(&data));
    let f_or = Expr::<FsAtom>::parse("%f | zzz").unwrap();
    assert_eq!(f_or.eval(&data), just.eval(&data));
    let or_t = Expr::<FsAtom>::parse("zzz | %t").unwrap();
    assert!(or_t.eval(&data));
    let and_f = Expr::<FsAtom>::parse("zzz & %f").unwrap();
    assert!(!and_f.eval(&data));
}

#[test]
fn absent_fields_are_false() {
    let data = fsmap::fsexpr::FsDataGen {
        drive: 0,
        name: "d",
        path: "/d",
        timestamp: None,
        size: None,
    };
    assert!(!Expr::<FsAtom>::parse("%smaller 10").unwrap().eval(&data));
    assert!(!Expr::<FsAtom>::parse("%larger 0").unwrap().eval(&data));
    assert!(!Expr::<FsAtom>::parse("%before 2100-01-01").unwrap().eval(&data));
    assert!(!Expr::<FsAtom>::parse("%after 1900-01-01").unwrap().eval(&data));
}

#[test]
fn date_timestamp_value() {
    let d = fsmap::fsexpr::FsDate { year: 2021, month: 1, day: 1 };
    assert_eq!(d.timestamp().unwrap(), 1609459200);
    let bad = fsmap::fsexpr::FsDate { year: 2021, month: 13, day: 1 };
    assert!(bad.timestamp().is_err());
}
