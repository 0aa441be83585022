use argus::grammar::parse_grammar;

#[test]
fn grammar_words_are_trimmed_and_non_empty() {
    let words = parse_grammar("[\"argus\", \"open\", \"\", \"kill port\"]");
    assert_eq!(words, vec!["argus", "open", "kill port"]);
}

#[test]
fn empty_grammar_has_no_words() {
    assert!(parse_grammar("[]").is_empty());
    assert!(parse_grammar("").is_empty());
}

#[test]
fn grammar_spread_over_lines() {
    let words = parse_grammar("[\n  \"eighty\",\n  \"[unk]\"\n]\n");
    assert_eq!(words, vec!["eighty", "unk"]);
}
