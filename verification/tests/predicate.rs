//! Tokenizer and parser smoke checks over a spread of expressions.
use fsmap::boolean::Expr;
use fsmap::fstok::Token;

#[test]
fn test_tokenize() {
    for u in &[
        "'/etc/passwd'",
        "F | FF 'this is an escaped \\'quote\\''    blah blah    ",
        "'foo' | 'bar'",
        "/dead/beef/bad/cafe",
        "/etc/foo.*bar$",
        "a \\\\ backslash",
        "(aaab |b ) &( c |dddd ) \\ (e | f ( g hh)",
    ] {
        let toks = Token::tokenize(u).unwrap();
        println!("{:?} -> {:?}", u, toks);
    }
}

#[test]
fn test_parse() {
    for u in &[
        "a",
        "a | b",
        "a | b | c",
        "a",
        "a & b",
        "a & b & c",
        "a | b & c",
        "a & b | c",
        "a | b | c | d",
        "a | b | c & d",
        "a | b & c | d",
        "a | b & c & d",
        "a & b | c | d",
        "a & b | c & d",
        "a & b & c | d",
        "a & b & c & d",
        "a | (b | c)",
        "a | (b | c)",
        "a \\ b",
        "a & b \\ c",
        "a \\ b & c",
    ] {
        let toks = Token::tokenize(u).unwrap();
        let expr = Expr::parse_from_tokens(&toks).unwrap();
        println!("{:?} -> {:?} -> {:?}", u, toks, expr);
    }
}
