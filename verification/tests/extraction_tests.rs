use keyword_dataset_rs::content::ArxivPaperContentEntity;
use keyword_dataset_rs::err::AppError;
use keyword_dataset_rs::err::ErrorKind;
use keyword_dataset_rs::extraction::ContentExtractor;
use keyword_dataset_rs::extraction::ExtractResultRecord;
use keyword_dataset_rs::extraction::ExtractError;
use keyword_dataset_rs::outline::find_section;
use keyword_dataset_rs::pages::QueryPage;
use keyword_dataset_rs::pages::page_iter;
use keyword_dataset_rs::training::TrainingRecord;
use keyword_dataset_rs::training::strip_internal_newlines;

#[test]
fn extraction_is_all_or_nothing() {
    let ex = ContentExtractor::new();
    let text =
        "Title\n\nKeywords\n\nalpha, beta\n\n1 Introduction\n\nThe body\n\nReferences\n\n[1] z";
    let content = ex.extract_content("2503.20579".to_string(), text).unwrap();
    assert_eq!(content.id, "2503.20579");
    assert_eq!(content.keywords, vec!["alpha".to_string(), "beta".to_string()]);
    assert_eq!(content.paper_content, "1 Introduction\n\nThe body");
    assert_eq!(content.abstract_text, "");
}

#[test]
fn failures_carry_the_identifier() {
    let ex = ContentExtractor::new();
    let err = ex.extract_content("2503.1".to_string(), "no markers").unwrap_err();
    assert_eq!(err.id(), "2503.1");
    assert_eq!(*err.app_err(), AppError::NoKeywords);
    assert_eq!(err.into_app_error(), AppError::NoKeywords);
}

#[test]
fn keywords_without_body_is_still_a_failure() {
    let ex = ContentExtractor::new();
    let text = "Keywords: alpha\n\nno body sections";
    let err = ex.extract_content("2503.2".to_string(), text).unwrap_err();
    assert_eq!(err.id(), "2503.2");
    assert_eq!(*err.app_err(), AppError::MissingSection("INTRODUCTION".to_string()));
}

fn minimal_pdf(text_line: &str) -> Vec<u8> {
    let mut out: Vec<u8> = Vec::new();
    out.extend_from_slice(b"%PDF-1.4\n");
    let content = format!("BT /F1 12 Tf 72 720 Td ({text_line}) Tj ET");
    let objs = vec![
        "<< /Type /Catalog /Pages 2 0 R >>".to_string(),
        "<< /Type /Pages /Kids [3 0 R] /Count 1 >>".to_string(),
        "<< /Type /Page /Parent 2 0 R /MediaBox [0 0 612 792] /Contents 4 0 R \
         /Resources << /Font << /F1 5 0 R >> >> >>"
            .to_string(),
        format!("<< /Length {} >>\nstream\n{}\nendstream", content.len(), content),
        "<< /Type /Font /Subtype /Type1 /BaseFont /Helvetica >>".to_string(),
    ];
    let mut offsets = Vec::new();
    for (i, body) in objs.iter().enumerate() {
        offsets.push(out.len());
        out.extend_from_slice(format!("{} 0 obj\n{}\nendobj\n", i + 1, body).as_bytes());
    }
    let xref_pos = out.len();
    out.extend_from_slice(b"xref\n0 6\n0000000000 65535 f \n");
    for off in &offsets {
        out.extend_from_slice(format!("{off:010} 00000 n \n").as_bytes());
    }
    out.extend_from_slice(
        format!("trailer\n<< /Size 6 /Root 1 0 R >>\nstartxref\n{xref_pos}\n%%EOF\n").as_bytes(),
    );
    out
}

#[test]
fn text_pulled_out_of_a_real_document_feeds_extraction() {
    // The text-extraction collaborator runs at the edge, outside the
    // library; feed its real output for a small document into the service.
    let bytes = minimal_pdf("Keywords: alpha, beta");
    let text = pdf_extract::extract_text_from_mem(&bytes).unwrap();
    let ex = ContentExtractor::new();
    // The converted text carries the keyword label, so the keyword stage
    // succeeds and the pipeline fails on the missing Introduction header —
    // not with NoKeywords.
    let err = ex.extract_content("2503.7".to_string(), &text).unwrap_err();
    assert_eq!(err.id(), "2503.7");
    assert_eq!(err.app_err().kind(), ErrorKind::MissingSection);
}

#[test]
fn status_rows_record_code_and_message() {
    let ok = ExtractResultRecord::success("2503.4");
    assert_eq!(ok.arxiv_id, "2503.4");
    assert_eq!(ok.extract_status, "OK");
    assert!(ok.extract_msg.is_none());

    let failed = ExtractResultRecord::from_error(ExtractError {
        arxiv_id: "2503.5".to_string(),
        err: AppError::HttpStatusError(503),
    });
    assert_eq!(failed.arxiv_id, "2503.5");
    assert_eq!(failed.extract_status, "HTTP_STAT");
    assert_eq!(failed.extract_msg.as_deref(), Some("503"));
}

#[test]
fn error_kinds_have_distinct_codes() {
    let cases = [
        (AppError::IO("x".to_string()), "IO"),
        (AppError::JsonDeserialization("x".to_string()), "JSON_DESER"),
        (AppError::PdfError("x".to_string()), "PDF"),
        (AppError::NoKeywords, "NO_KEYWORDS"),
        (AppError::MissingSection("x".to_string()), "MISSING_SECTION"),
        (AppError::Utf8("x".to_string()), "UTF8"),
        (AppError::Db("x".to_string()), "DB"),
        (AppError::Network("x".to_string()), "NETWORK"),
        (AppError::HttpStatusError(500), "HTTP_STAT"),
        (AppError::NoBucketObject("x".to_string()), "NO_GCS_OBJ"),
        (AppError::Other("x".to_string()), "OTHER"),
    ];
    for (err, expected) in &cases {
        assert_eq!(keyword_dataset_rs::err::kind_code_string(err.kind()), *expected);
    }
    assert_eq!(keyword_dataset_rs::err::kind_code_string(ErrorKind::NoGcsObj), "NO_GCS_OBJ");
}

#[test]
fn pages_cover_the_universe() {
    let pages = page_iter(25, 10);
    assert_eq!(pages.len(), 3);
    assert_eq!((pages[0].offset, pages[0].limit), (0, 10));
    assert_eq!((pages[1].offset, pages[1].limit), (10, 10));
    assert_eq!((pages[2].offset, pages[2].limit), (20, 10));
    assert_eq!(page_iter(0, 10).len(), 0);
    assert_eq!(page_iter(20, 10).len(), 2);
}

#[test]
fn page_displays_as_offset_and_limit() {
    let p = QueryPage::default();
    assert_eq!((p.offset, p.limit), (0, 100));
    assert_eq!(p.display_string(), "(0:100)");
    let q = QueryPage { offset: 30, limit: 10 };
    assert_eq!(q.display_string(), "(30:10)");
}

#[test]
fn stored_keywords_split_back_into_terms() {
    let terms = TrainingRecord::parse_keywords("alpha, be\nta ,gamma".to_string());
    assert_eq!(terms, vec!["alpha".to_string(), "beta".to_string(), "gamma".to_string()]);
    assert_eq!(strip_internal_newlines("a\nb\nc"), "abc");
}

#[test]
fn training_record_comes_from_a_stored_row() {
    let entity = ArxivPaperContentEntity {
        id: "2503.6".to_string(),
        abstract_text: "abs".to_string(),
        keywords: "one,two".to_string(),
        paper_content: "the content".to_string(),
    };
    let rec = TrainingRecord::from_entity(entity);
    assert_eq!(rec.arxiv_id, "2503.6");
    assert_eq!(rec.content, "the content");
    assert_eq!(rec.abstract_content, "abs");
    assert_eq!(rec.keywords, vec!["one".to_string(), "two".to_string()]);
}

#[test]
fn outline_walk_searches_from_the_back() {
    let titles = vec![Some("Intro".to_string()), Some("Abstract".to_string())];
    assert_eq!(find_section(&titles, "Abstract").unwrap(), 1);
    assert_eq!(find_section(&titles, "Intro").unwrap(), 0);
    let with_bad = vec![None, Some("Abstract".to_string())];
    assert_eq!(find_section(&with_bad, "Abstract").unwrap(), 1);
    let err = find_section(&with_bad, "Intro").unwrap_err();
    assert_eq!(err, AppError::PdfError("outline title could not be decoded".to_string()));
    let missing = find_section(&titles, "Results").unwrap_err();
    assert_eq!(missing, AppError::Other("no destination found".to_string()));
}
