use keyword_dataset_rs::content::body::PaperBodyExtractor;
use keyword_dataset_rs::err::AppError;

#[test]
fn body_spans_intro_through_references() {
    let ex = PaperBodyExtractor::new();
    let text = "Title\n\n1 Introduction\n\nBody text here\n\nReferences\n\n[1] someone";
    let body = ex.extract_body(text).unwrap();
    assert_eq!(body, "1 Introduction\n\nBody text here");
}

#[test]
fn permissive_references_header_is_fallback() {
    let ex = PaperBodyExtractor::new();
    let text = "T\n\nI. INTRODUCTION  \n\ncontent\n\n7. References\n\n[1]";
    let body = ex.extract_body(text).unwrap();
    assert_eq!(body, "I. INTRODUCTION  \n\ncontent");
}

#[test]
fn missing_introduction_is_reported() {
    let ex = PaperBodyExtractor::new();
    let r = ex.extract_body("no sections at all");
    assert_eq!(r.unwrap_err(), AppError::MissingSection("INTRODUCTION".to_string()));
}

#[test]
fn missing_references_is_reported() {
    let ex = PaperBodyExtractor::new();
    let r = ex.extract_body("1 Introduction\n\nbody with no references");
    assert_eq!(r.unwrap_err(), AppError::MissingSection("REFERENCES".to_string()));
}

#[test]
fn references_before_introduction_does_not_end_body_early() {
    let ex = PaperBodyExtractor::new();
    // A table of contents lists References before the Introduction header;
    // the search for References starts at the Introduction's offset, so the
    // body runs to the later, real References section.
    let text = "Contents\n\nReferences\n\n1 Introduction\n\nreal body\n\nReferences\n\n[1] x";
    let body = ex.extract_body(text).unwrap();
    assert_eq!(body, "1 Introduction\n\nreal body");
}

#[test]
fn unicode_space_in_the_intro_gap() {
    let ex = PaperBodyExtractor::new();
    let text = "x\n\n1\u{2003}Introduction\n\nbody\n\nReferences\n\ny";
    assert_eq!(ex.extract_body(text).unwrap(), "1\u{2003}Introduction\n\nbody");
}

#[test]
fn case_insensitive_headers() {
    let ex = PaperBodyExtractor::new();
    let text = "p\n\n1.1 iNtRoDuCtIoN\n\nstuff\n\nREFERENCES \n\nq";
    let body = ex.extract_body(text).unwrap();
    assert_eq!(body, "1.1 iNtRoDuCtIoN\n\nstuff");
}
