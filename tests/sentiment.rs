use crypto_feed::sentiment::{analyze_sentiment, occurs_in_exec, score_lowered};

#[test]
fn rising_headline_scores_positive() {
    let v = analyze_sentiment("Bitcoin price up today");
    assert!(v > 0);
    assert_eq!(v, 20);
}

#[test]
fn falling_headline_scores_negative() {
    let v = analyze_sentiment("Market crash, prices fall");
    assert!(v < 0);
    assert_eq!(v, -20);
}

#[test]
fn empty_text_scores_zero() {
    assert_eq!(analyze_sentiment(""), 0);
}

#[test]
fn uppercase_keywords_count() {
    assert_eq!(analyze_sentiment("BULL RUN: GROWTH AND RISE"), 60);
    assert_eq!(score_lowered("BULL RUN: GROWTH AND RISE"), 0);
}

#[test]
fn substrings_count_and_score_is_clamped() {
    assert_eq!(analyze_sentiment("Upbeat bulls see rise, growth, positive news"), 100);
    assert_eq!(analyze_sentiment("down fall bear drop negative"), -100);
    assert_eq!(analyze_sentiment("up and down"), 0);
}

#[test]
fn score_stays_in_range() {
    for t in ["", "up", "uprisebullgrowthpositive", "downfallbeardropnegative", "ÄÖÜ up"] {
        let v = analyze_sentiment(t);
        assert!((-100..=100).contains(&v));
    }
}

#[test]
fn substring_search() {
    assert!(occurs_in_exec("hello", ""));
    assert!(occurs_in_exec("hello", "llo"));
    assert!(!occurs_in_exec("hello", "hello!"));
    assert!(!occurs_in_exec("", "a"));
}
