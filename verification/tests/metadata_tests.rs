use pdfmeta::metadata::{build_metadata, update_metadata, Metadata};
use pdfmeta::version::{Version, VersionError};

fn fresh() -> Metadata {
    Metadata::new("file.pdf")
}

#[test]
fn new_record_has_filename_default_version_and_nothing_else() {
    let m = fresh();
    assert_eq!(m.filename, "file.pdf");
    assert_eq!(m.pdf_version, Version { primary: 1, secondary: 0 });
    assert!(m.producer.is_none());
    assert!(m.creator.is_none());
    assert!(m.author.is_none());
    assert!(m.creator_tool.is_none());
    assert!(m.title.is_none());
    assert!(m.xmp_toolkit.is_none());
    assert!(m.create_date.is_none());
    assert!(m.modify_date.is_none());
}

#[test]
fn producer_line_stores_the_exact_value() {
    let mut m = fresh();
    let r = update_metadata(&mut m, "Producer : Acrobat Distiller 9.0.0 (Windows)");
    assert!(r.is_ok());
    assert_eq!(m.producer.as_deref(), Some("Acrobat Distiller 9.0.0 (Windows)"));
}

#[test]
fn line_without_separator_changes_nothing() {
    let mut m = fresh();
    let r = update_metadata(&mut m, "Not A Key And No Colon");
    assert!(r.is_ok());
    assert!(m.producer.is_none());
    assert!(m.creator.is_none());
    assert!(m.author.is_none());
    assert!(m.creator_tool.is_none());
    assert!(m.title.is_none());
    assert!(m.xmp_toolkit.is_none());
    assert!(m.create_date.is_none());
    assert!(m.modify_date.is_none());
    assert_eq!(m.pdf_version, Version { primary: 1, secondary: 0 });
    assert_eq!(m.filename, "file.pdf");
}

#[test]
fn unrecognized_key_changes_nothing() {
    let mut m = fresh();
    let r = update_metadata(&mut m, "File Size : 127 kB");
    assert!(r.is_ok());
    assert!(m.producer.is_none());
    assert!(m.title.is_none());
}

#[test]
fn key_whitespace_is_removed_for_dispatch() {
    let mut m = fresh();
    update_metadata(&mut m, "Creator Tool : PScript5.dll Version 5.2.2").unwrap();
    assert_eq!(m.creator_tool.as_deref(), Some("PScript5.dll Version 5.2.2"));
    update_metadata(&mut m, "X M P Toolkit : Image::ExifTool 10.80").unwrap();
    assert_eq!(m.xmp_toolkit.as_deref(), Some("Image::ExifTool 10.80"));
}

#[test]
fn value_is_not_trimmed() {
    let mut m = fresh();
    update_metadata(&mut m, "Title :  Annual Report ").unwrap();
    assert_eq!(m.title.as_deref(), Some(" Annual Report "));
}

#[test]
fn split_happens_at_the_first_separator() {
    let mut m = fresh();
    update_metadata(&mut m, "Author : Smith : Jones").unwrap();
    assert_eq!(m.author.as_deref(), Some("Smith : Jones"));
}

#[test]
fn version_line_replaces_the_version() {
    let mut m = fresh();
    update_metadata(&mut m, "PDFVersion : 1.4").unwrap();
    assert_eq!(m.pdf_version, Version { primary: 1, secondary: 4 });
}

#[test]
fn malformed_version_is_an_error_and_leaves_the_record() {
    let mut m = fresh();
    let r = update_metadata(&mut m, "PDFVersion : six");
    assert_eq!(r, Err(VersionError::NotDecimal));
    assert_eq!(m.pdf_version, Version { primary: 1, secondary: 0 });
}

#[test]
fn date_lines_store_raw_text() {
    let mut m = fresh();
    update_metadata(&mut m, "Create Date : 2010:03:16 09:47:23+01:00").unwrap();
    update_metadata(&mut m, "Modify Date : 2011:01:02 10:00:00").unwrap();
    assert_eq!(m.create_date.as_deref(), Some("2010:03:16 09:47:23+01:00"));
    assert_eq!(m.modify_date.as_deref(), Some("2011:01:02 10:00:00"));
}

#[test]
fn repeated_author_key_last_wins() {
    let lines = vec!["Author : A".to_string(), "Author : B".to_string()];
    let m = build_metadata("file.pdf", &lines).unwrap();
    assert_eq!(m.author.as_deref(), Some("B"));
}

#[test]
fn built_record_has_a_version_even_without_a_version_line() {
    let lines = vec!["Producer : GPL Ghostscript 8.15".to_string()];
    let m = build_metadata("file.pdf", &lines).unwrap();
    assert_eq!(m.pdf_version, Version { primary: 1, secondary: 0 });
    assert_eq!(m.pdf_version.as_str(), "1.0");
}

#[test]
fn builder_feeds_every_line_in_order() {
    let lines = vec![
        "Producer : Acrobat Distiller 9.0.0 (Windows)".to_string(),
        "Creator : Writer".to_string(),
        "PDFVersion : 1.7".to_string(),
        "Title : Letter".to_string(),
    ];
    let m = build_metadata("letter.pdf", &lines).unwrap();
    assert_eq!(m.filename, "letter.pdf");
    assert_eq!(m.producer.as_deref(), Some("Acrobat Distiller 9.0.0 (Windows)"));
    assert_eq!(m.creator.as_deref(), Some("Writer"));
    assert_eq!(m.pdf_version, Version { primary: 1, secondary: 7 });
    assert_eq!(m.title.as_deref(), Some("Letter"));
}

#[test]
fn builder_with_no_lines_yields_a_valid_record() {
    let lines: Vec<String> = Vec::new();
    let m = build_metadata("empty.pdf", &lines).unwrap();
    assert_eq!(m.filename, "empty.pdf");
    assert_eq!(m.pdf_version, Version { primary: 1, secondary: 0 });
    assert!(m.producer.is_none());
}

#[test]
fn builder_fails_on_a_malformed_version_line() {
    let lines = vec![
        "Producer : X".to_string(),
        "PDFVersion : 1.2.3".to_string(),
        "Title : unreached".to_string(),
    ];
    assert!(matches!(build_metadata("f.pdf", &lines), Err(VersionError::NotDecimal)));
}
