use keyword_dataset_rs::metadata::ArxivMetadata;
use keyword_dataset_rs::metadata::ArxivVersion;
use keyword_dataset_rs::metadata::CsCategoryFilter;
use keyword_dataset_rs::metadata::keep_metadata;

fn version(created: &str) -> ArxivVersion {
    ArxivVersion { version: "v1".to_string(), created: created.to_string() }
}

fn metadata(categories: Option<&str>, versions: Vec<ArxivVersion>) -> ArxivMetadata {
    ArxivMetadata {
        id: Some("2503.20579".to_string()),
        submitter: Some("someone".to_string()),
        authors: None,
        title: Some("a title".to_string()),
        comments: None,
        journal_ref: None,
        doi: None,
        categories: categories.map(|c| c.to_string()),
        abstract_text: Some("the abstract".to_string()),
        versions,
    }
}

#[test]
fn rfc2822_dates_parse_to_epoch_seconds() {
    let v = version("Wed, 18 Feb 2015 23:16:09 GMT");
    assert_eq!(v.created_date(), Some(1424301369));
    assert!(v.is_after(1424301368));
    assert!(!v.is_after(1424301369));
}

#[test]
fn unparseable_dates_never_count_as_after() {
    let v = version("not a date");
    assert_eq!(v.created_date(), None);
    assert!(!v.is_after(0));
}

#[test]
fn cs_categories_are_recognised() {
    let f = CsCategoryFilter::new();
    assert!(f.has_cs_categories("cs.AI math.CO"));
    assert!(f.has_cs_categories("math.CO cs.LG"));
    assert!(!f.has_cs_categories("math.CO"));
    assert!(!f.has_cs_categories("cs.A"));
    assert!(!f.has_cs_categories(""));
}

#[test]
fn corpus_filter_needs_recent_version_and_cs_category() {
    let f = CsCategoryFilter::new();
    let cutoff = 1577858400;  // start of 2020, as the loader uses it
    let keep = metadata(Some("cs.AI"), vec![version("Sat, 04 Jan 2020 12:00:00 GMT")]);
    assert!(keep_metadata(&keep, cutoff, &f));
    let too_old = metadata(Some("cs.AI"), vec![version("Wed, 18 Feb 2015 23:16:09 GMT")]);
    assert!(!keep_metadata(&too_old, cutoff, &f));
    let wrong_field = metadata(Some("math.CO"), vec![version("Sat, 04 Jan 2020 12:00:00 GMT")]);
    assert!(!keep_metadata(&wrong_field, cutoff, &f));
    let no_versions = metadata(Some("cs.AI"), vec![]);
    assert!(!keep_metadata(&no_versions, cutoff, &f));
}

#[test]
fn accessors_hand_fields_back() {
    let m = metadata(Some("cs.AI"), vec![version("Wed, 18 Feb 2015 23:16:09 GMT")]);
    assert_eq!(m.id().map(|s| s.as_str()), Some("2503.20579"));
    assert_eq!(m.submitter().map(|s| s.as_str()), Some("someone"));
    assert_eq!(m.authors(), None);
    assert_eq!(m.title().map(|s| s.as_str()), Some("a title"));
    assert_eq!(m.comments(), None);
    assert_eq!(m.journal_ref(), None);
    assert_eq!(m.doi(), None);
    assert_eq!(m.categories().map(|s| s.as_str()), Some("cs.AI"));
    assert_eq!(m.abstract_text().map(|s| s.as_str()), Some("the abstract"));
    assert_eq!(m.versions().len(), 1);
    assert_eq!(m.versions()[0].version(), "v1");
    assert_eq!(m.versions()[0].created(), "Wed, 18 Feb 2015 23:16:09 GMT");
}
