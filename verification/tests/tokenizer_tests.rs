use ngrams::tokenizer::tokenize;

fn lines(v: &[&str]) -> Vec<String> {
    v.iter().map(|s| s.to_string()).collect()
}

#[test]
fn splits_on_punctuation_keeps_apostrophe() {
    let tokens = tokenize(&lines(&["It's a test-run."]));
    assert_eq!(tokens, vec!["It's", "a", "test", "run"]);
}

#[test]
fn empty_input_gives_no_tokens() {
    assert_eq!(tokenize(&lines(&[])), Vec::<String>::new());
    assert_eq!(tokenize(&lines(&[""])), Vec::<String>::new());
    assert_eq!(tokenize(&lines(&["!!! ???  ..."])), Vec::<String>::new());
}

#[test]
fn line_boundary_separates_tokens() {
    let tokens = tokenize(&lines(&["ab", "cd ef"]));
    assert_eq!(tokens, vec!["ab", "cd", "ef"]);
}

#[test]
fn digits_and_letters_mix() {
    let tokens = tokenize(&lines(&["a1b2 3,4;5"]));
    assert_eq!(tokens, vec!["a1b2", "3", "4", "5"]);
}

#[test]
fn unicode_letters_stay_inside_tokens() {
    let tokens = tokenize(&lines(&["héllo wörld—twice"]));
    assert_eq!(tokens, vec!["héllo", "wörld", "twice"]);
}

#[test]
fn tokenization_is_deterministic() {
    let input = lines(&["It's a test-run.", "second line; here"]);
    let first = tokenize(&input);
    let second = tokenize(&input);
    assert_eq!(first, second);
}

#[test]
fn leading_and_trailing_separators() {
    let tokens = tokenize(&lines(&["  .hello.  "]));
    assert_eq!(tokens, vec!["hello"]);
}

#[test]
fn apostrophe_only_is_a_token() {
    let tokens = tokenize(&lines(&["'' can't ''"]));
    assert_eq!(tokens, vec!["''", "can't", "''"]);
}
