use rust_minify::serializer::SEPARATED;

#[test]
fn test_punct_space() {
    // https://docs.rs/syn/latest/src/syn/token.rs.html#791-838
    const TOKENS: [&str; 46] = [
        "&", "&&", "&=", "@", "^", "^=", ":", ",", "$", ".", "..", "...", "..=", "=", "==",
        "=>", ">=", ">", "<-", "<=", "<", "-", "-=", "!=", "!", "|", "|=", "||", "::", "%",
        "%=", "+", "+=", "#", "?", "->", ";", "<<", "<<=", ">>", ">>=", "/", "/=", "*", "*=",
        "~",
    ];

    let mut separated = vec![];
    for t0 in TOKENS.iter() {
        for t1 in TOKENS.iter() {
            let mut t = t0.to_string();
            t.push_str(t1);
            if TOKENS.contains(&t.as_str()) {
                separated.push((t0.chars().next_back().unwrap(), t1.chars().next().unwrap()));
            }
        }
    }
    separated.sort_unstable();
    separated.dedup();
    assert_eq!(SEPARATED, &separated[..]);
}
