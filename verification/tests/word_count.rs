use rust_exercises::word_count::split_words;
use rust_exercises::word_count::tally;
use rust_exercises::word_count::word_count;

fn count_of(counts: &[(String, usize)], key: &str) -> Option<usize> {
    counts.iter().find(|entry| entry.0 == key).map(|entry| entry.1)
}

#[test]
fn test_counts_each_word() {
    let counts = word_count("one fish two fish red fish blue fish");
    assert_eq!(count_of(&counts, "fish"), Some(4));
    assert_eq!(count_of(&counts, "one"), Some(1));
    assert_eq!(count_of(&counts, "two"), Some(1));
    assert_eq!(count_of(&counts, "red"), Some(1));
    assert_eq!(count_of(&counts, "blue"), Some(1));
    assert_eq!(counts.len(), 5);
}

#[test]
fn test_lowercases_before_counting() {
    let counts = word_count("Go GO go gO");
    assert_eq!(count_of(&counts, "go"), Some(4));
    assert_eq!(count_of(&counts, "Go"), None);
    assert_eq!(counts.len(), 1);
}

#[test]
fn test_splits_on_any_whitespace() {
    let counts = word_count("alpha\tbeta\ngamma  alpha");
    assert_eq!(count_of(&counts, "alpha"), Some(2));
    assert_eq!(count_of(&counts, "beta"), Some(1));
    assert_eq!(count_of(&counts, "gamma"), Some(1));
    assert_eq!(counts.len(), 3);
}

#[test]
fn test_empty_phrase_has_no_words() {
    assert_eq!(word_count("").len(), 0);
    assert_eq!(word_count("   \t  ").len(), 0);
}

#[test]
fn test_split_words() {
    assert_eq!(split_words("  hello   world "), vec!["hello", "world"]);
    assert_eq!(split_words("one"), vec!["one"]);
    assert_eq!(split_words("").len(), 0);
}

#[test]
fn test_tally() {
    let words = vec![String::from("a"), String::from("b"), String::from("a")];
    let counts = tally(&words);
    assert_eq!(count_of(&counts, "a"), Some(2));
    assert_eq!(count_of(&counts, "b"), Some(1));
    assert_eq!(counts.len(), 2);
}
