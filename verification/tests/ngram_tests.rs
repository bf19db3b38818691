use ngrams::ngram::create_ngrams;
use ngrams::pipeline::{args_valid, build_ngrams_checked, NgramError};
use ngrams::tokenizer::tokenize;

fn tokens(v: &[&str]) -> Vec<String> {
    v.iter().map(|s| s.to_string()).collect()
}

#[test]
fn size_one_returns_each_token() {
    let ngrams = create_ngrams(tokens(&["a", "b", "c"]), 3, 1);
    assert_eq!(ngrams, vec!["a", "b", "c"]);
}

#[test]
fn size_one_has_no_comma_and_one_ngram_per_token() {
    let ngrams = create_ngrams(tokens(&["one", "two", "three", "four"]), 4, 1);
    assert_eq!(ngrams.len(), 4);
    for g in &ngrams {
        assert!(!g.contains(','));
    }
}

#[test]
fn size_two_wraps_modulo_size() {
    let ngrams = create_ngrams(tokens(&["a", "b", "c", "d"]), 4, 2);
    assert_eq!(ngrams, vec!["a,b", "b,a", "a,b", "b,a"]);
}

#[test]
fn larger_sizes_have_size_minus_one_commas() {
    let ngrams = create_ngrams(tokens(&["v", "w", "x", "y", "z"]), 5, 3);
    assert_eq!(ngrams.len(), 5);
    for g in &ngrams {
        assert_eq!(g.matches(',').count(), 2);
    }
}

#[test]
fn size_three_exact_values() {
    let ngrams = create_ngrams(tokens(&["p", "q", "r", "s"]), 4, 3);
    assert_eq!(ngrams, vec!["p,q,r", "q,r,p", "r,p,q", "p,q,r"]);
}

#[test]
fn token_count_equal_to_size_gives_size_ngrams() {
    let r = build_ngrams_checked(tokens(&["x", "y", "z"]), 3, 3);
    let ngrams = r.expect("size equal to the token count must pass validation");
    assert_eq!(ngrams.len(), 3);
    assert_eq!(ngrams, vec!["x,y,z", "y,z,x", "z,x,y"]);
}

#[test]
fn size_larger_than_token_count_is_rejected() {
    let r = build_ngrams_checked(tokens(&["x", "y", "z"]), 3, 5);
    assert_eq!(
        r,
        Err(NgramError::SizeTooLarge {
            size: 5,
            data_size: 3,
        })
    );
}

#[test]
fn pipeline_from_text_to_ngrams() {
    let lines = vec!["the quick brown fox".to_string()];
    let data = tokenize(&lines);
    assert_eq!(data.len(), 4);
    let ngrams = build_ngrams_checked(data, 4, 2).expect("four tokens fit a size of two");
    assert_eq!(ngrams, vec!["the,quick", "quick,the", "the,quick", "quick,the"]);
}

#[test]
fn empty_path_or_nonpositive_size_is_invalid() {
    assert!(!args_valid(&String::new(), 2));
    assert!(!args_valid(&"input.txt".to_string(), 0));
    assert!(!args_valid(&"input.txt".to_string(), -3));
    assert!(args_valid(&"input.txt".to_string(), 1));
}
