use gorillatype::errors::TrialError;
use gorillatype::passage::{normalize, Passage};

fn chars_of(s: &str) -> Vec<char> {
    s.chars().collect()
}

#[test]
fn zero_target_returns_passage_unchanged() {
    let p = normalize(Passage::new(chars_of("cat")), 0).unwrap();
    assert_eq!(p.as_chars(), &chars_of("cat"));
}

#[test]
fn zero_target_keeps_an_empty_passage() {
    let p = normalize(Passage::new(Vec::new()), 0).unwrap();
    assert_eq!(p.as_chars(), &Vec::new());
}

#[test]
fn equal_length_returns_passage_unchanged() {
    let p = normalize(Passage::new(chars_of("cat")), 3).unwrap();
    assert_eq!(p.as_chars(), &chars_of("cat"));
    assert_eq!(p.len(), 3);
}

#[test]
fn shorter_target_truncates_with_a_leading_space() {
    let p = normalize(Passage::new(chars_of("abcdef")), 3).unwrap();
    assert_eq!(p.as_chars(), &chars_of(" abc"));
    assert_eq!(p.len(), 3 + 1);
}

#[test]
fn longer_target_repeats_with_space_separators() {
    let p = normalize(Passage::new(chars_of("ab")), 7).unwrap();
    assert_eq!(p.as_chars(), &chars_of(" ab ab a"));
    assert_eq!(p.len(), 7 + 1);
}

#[test]
fn longer_target_result_is_a_prefix_of_space_joined_repetition() {
    let p = normalize(Passage::new(chars_of("gorilla")), 30).unwrap();
    assert_eq!(p.len(), 31);
    let segments: Vec<char> = chars_of(&" gorilla".repeat(6));
    assert_eq!(p.as_chars().as_slice(), &segments[..31]);
}

#[test]
fn empty_source_with_nonzero_target_is_an_error() {
    let r = normalize(Passage::new(Vec::new()), 5);
    assert_eq!(r, Err(TrialError::EmptySource));
}
