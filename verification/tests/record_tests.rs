use pdfmeta::metadata::{build_metadata, Metadata};
use pdfmeta::record::PDF;

fn sample() -> Metadata {
    let lines = vec![
        "Producer : Acrobat Distiller 9.0.0 (Windows)".to_string(),
        "Author : Ann".to_string(),
        "PDFVersion : 1.7".to_string(),
    ];
    build_metadata("letter.pdf", &lines).unwrap()
}

#[test]
fn row_carries_every_field_over() {
    let meta = sample();
    let row = PDF::from_metadata(&meta, "LVMH", -1);
    assert_eq!(row.id, -1);
    assert_eq!(row.company, "LVMH");
    assert_eq!(row.filename, "letter.pdf");
    assert_eq!(row.producer.as_deref(), Some("Acrobat Distiller 9.0.0 (Windows)"));
    assert_eq!(row.author.as_deref(), Some("Ann"));
    assert!(row.creator.is_none());
    assert!(row.creator_tool.is_none());
    assert!(row.title.is_none());
    assert!(row.xmp_toolkit.is_none());
    assert!(row.create_date.is_none());
    assert!(row.modify_date.is_none());
}

#[test]
fn row_renders_the_version_as_text() {
    let meta = sample();
    let row = PDF::from_metadata(&meta, "LVMH", 3);
    assert_eq!(row.pdf_version, "1.7");
    let bare = Metadata::new("empty.pdf");
    assert_eq!(PDF::from_metadata(&bare, "LVMH", 0).pdf_version, "1.0");
}
