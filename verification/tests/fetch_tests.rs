use keyword_dataset_rs::err::AppError;
use keyword_dataset_rs::err::ErrorKind;
use keyword_dataset_rs::fetch::check_object_downloadable;
use keyword_dataset_rs::fetch::check_response_code;
use keyword_dataset_rs::fetch::glob_factory;
use keyword_dataset_rs::fetch::id_well_formed;
use keyword_dataset_rs::fetch::is_success_status;
use keyword_dataset_rs::fetch::model::GcsListObjectResponse;
use keyword_dataset_rs::fetch::model::GcsObject;
use keyword_dataset_rs::fetch::resolve_object;

fn object(id: &str, content_type: &str, size: &str) -> GcsObject {
    GcsObject {
        bucket: "arxiv-dataset".to_string(),
        content_type: content_type.to_string(),
        id: id.to_string(),
        md5_hash: String::new(),
        media_link: format!("https://example.invalid/{id}"),
        name: id.to_string(),
        self_link: String::new(),
        size: size.to_string(),
    }
}

#[test]
fn glob_is_built_from_the_two_id_parts() {
    assert_eq!(glob_factory("2503.20579"), "arxiv/arxiv/pdf/2503/2503.20579**");
}

#[test]
fn malformed_id_is_caught_before_any_call() {
    // resolving starts from the glob, whose precondition demands exactly one
    // dot; the guard refuses these identifiers before any listing happens.
    assert!(id_well_formed("2503.20579"));
    assert!(!id_well_formed("250320579"));
    assert!(!id_well_formed("a.b.c"));
    assert!(!id_well_formed(""));
}

#[test]
fn resolve_picks_the_last_listed_object() {
    let listing = GcsListObjectResponse {
        items: vec![object("a", "application/pdf", "1"), object("b", "application/pdf", "2")],
        kind: "storage#objects".to_string(),
    };
    let picked = resolve_object("2503.20579", listing).unwrap();
    assert_eq!(picked.id, "b");
}

#[test]
fn resolve_fails_on_empty_listing() {
    let listing = GcsListObjectResponse { items: vec![], kind: "storage#objects".to_string() };
    let err = resolve_object("2503.20579", listing).unwrap_err();
    assert_eq!(err, AppError::NoBucketObject("2503.20579".to_string()));
    assert_eq!(err.kind(), ErrorKind::NoGcsObj);
}

#[test]
fn non_pdf_content_type_refuses_download() {
    let ok = object("x", "application/pdf", "10");
    assert!(check_object_downloadable(&ok).is_ok());
    let bad = object("y", "text/html", "10");
    let err = check_object_downloadable(&bad).unwrap_err();
    assert_eq!(err, AppError::Other("object 'y' content type is not PDF".to_string()));
}

#[test]
fn response_codes_outside_success_fail() {
    assert!(is_success_status(200));
    assert!(is_success_status(299));
    assert!(!is_success_status(199));
    assert!(!is_success_status(300));
    assert!(check_response_code(204).is_ok());
    let err = check_response_code(404).unwrap_err();
    assert_eq!(err, AppError::HttpStatusError(404));
    assert_eq!(err.kind(), ErrorKind::HttpStat);
    assert_eq!(err.message(), "404");
}

#[test]
fn declared_size_is_read_as_decimal() {
    let o = object("x", "application/pdf", "123456");
    assert_eq!(o.size(), 123456);
}

#[test]
fn take_most_recent_is_listing_order() {
    let listing = GcsListObjectResponse {
        items: vec![object("first", "application/pdf", "1"), object("last", "application/pdf", "2")],
        kind: "k".to_string(),
    };
    assert_eq!(listing.take_most_recent().unwrap().id, "last");
    let empty = GcsListObjectResponse { items: vec![], kind: "k".to_string() };
    assert!(empty.take_most_recent().is_none());
}
