use keyword_dataset_rs::content::keyword::KeywordExtractor;
use keyword_dataset_rs::content::keyword::take_until_double_newline;
use keyword_dataset_rs::err::AppError;

#[test]
fn headers_strategy_extracts_terms_between_headers() {
    let ex = KeywordExtractor::new();
    let text = "Title\n\nKeywords\n\nalpha, beta\n\n1 Introduction\n\nBody";
    let ks = ex.extract_keywords(text).unwrap();
    assert_eq!(ks, vec!["alpha".to_string(), "beta".to_string()]);
}

#[test]
fn headers_strategy_keeps_source_order() {
    let ex = KeywordExtractor::new();
    let text = "X\n\n  Keywords  \n\nzeta, alpha, mu\n\n2. Introduction  \n\nBody";
    let ks = ex.extract_keywords_headers(text).unwrap();
    assert_eq!(ks, vec!["zeta".to_string(), "alpha".to_string(), "mu".to_string()]);
}

#[test]
fn index_terms_strategy() {
    let ex = KeywordExtractor::new();
    let text = "Index Terms—Security, Privacy\n\n1 Introduction\n\n";
    let ks = ex.extract_keywords(text).unwrap();
    assert_eq!(ks, vec!["Security".to_string(), "Privacy".to_string()]);
}

#[test]
fn small_label_strategy() {
    let ex = KeywordExtractor::new();
    let text = "Keywords: alpha, beta\n\nrest of the paper";
    let ks = ex.extract_keywords(text).unwrap();
    assert_eq!(ks, vec!["alpha".to_string(), "beta".to_string()]);
}

#[test]
fn small_label_strategy_lowercase_marker() {
    let ex = KeywordExtractor::new();
    let text = "some text keywords gamma,delta\n\nmore";
    let ks = ex.extract_keywords_small_label(text).unwrap();
    assert_eq!(ks, vec!["gamma".to_string(), "delta".to_string()]);
}

#[test]
fn small_label_is_case_insensitive() {
    let ex = KeywordExtractor::new();
    let ks = ex.extract_keywords("KEYWORDS: alpha, beta\n\nrest").unwrap();
    assert_eq!(ks, vec!["alpha".to_string(), "beta".to_string()]);
}

#[test]
fn singular_keyword_label_matches() {
    let ex = KeywordExtractor::new();
    let ks = ex.extract_keywords("Keyword: solo\n\nrest").unwrap();
    assert_eq!(ks, vec!["solo".to_string()]);
}

#[test]
fn unicode_whitespace_is_trimmed_from_terms() {
    let ex = KeywordExtractor::new();
    let text = "Keywords:\u{a0}alpha,\u{2003}beta\u{a0}\n\nrest";
    let ks = ex.extract_keywords(text).unwrap();
    assert_eq!(ks, vec!["alpha".to_string(), "beta".to_string()]);
}

#[test]
fn no_keywords_marker_fails() {
    let ex = KeywordExtractor::new();
    let r = ex.extract_keywords("nothing recognisable here");
    assert_eq!(r.unwrap_err(), AppError::NoKeywords);
}

#[test]
fn header_without_following_intro_falls_through() {
    let ex = KeywordExtractor::new();
    // A blank-line header exists but no Introduction follows, so the header
    // strategy fails; the small label then matches the same word inline and
    // scans only up to the blank line right after it.
    let text = "A\n\nKeywords\n\nalpha, beta\n\nno further sections";
    assert!(ex.extract_keywords_headers(text).is_err());
    let ks = ex.extract_keywords(text).unwrap();
    assert_eq!(ks, vec!["".to_string()]);
}

#[test]
fn empty_entries_are_preserved() {
    let ex = KeywordExtractor::new();
    let text = "Keywords: ,\n\nrest";
    let ks = ex.extract_keywords(text).unwrap();
    assert_eq!(ks, vec!["".to_string(), "".to_string()]);
}

#[test]
fn keywords_with_embedded_newlines_are_cleaned() {
    let ex = KeywordExtractor::new();
    let text = "Q\n\nKeywords\n\ndata mi\nning, graphs\n\nI. INTRODUCTION\n\nBody";
    let ks = ex.extract_keywords(text).unwrap();
    assert_eq!(ks, vec!["data mining".to_string(), "graphs".to_string()]);
}

#[test]
fn take_until_double_newline_keeps_single_trailing_break() {
    assert_eq!(take_until_double_newline("ab\n\ncd"), "ab\n");
    assert_eq!(take_until_double_newline("abc"), "abc");
    assert_eq!(take_until_double_newline("\n\nx"), "\n");
    assert_eq!(take_until_double_newline("a\nb\n\nc"), "a\nb\n");
    assert_eq!(take_until_double_newline(""), "");
}
