use pdfmeta::metadata::{update_metadata, Metadata};
use pdfmeta::os::get_os;

fn record_with(producer: Option<&str>, creator_tool: Option<&str>) -> Metadata {
    let mut m = Metadata::new("file.pdf");
    if let Some(p) = producer {
        update_metadata(&mut m, &format!("Producer : {}", p)).unwrap();
    }
    if let Some(t) = creator_tool {
        update_metadata(&mut m, &format!("Creator Tool : {}", t)).unwrap();
    }
    m
}

#[test]
fn parenthesized_producer_yields_the_captured_label() {
    let m = record_with(Some("Acrobat Distiller 9.0.0 (Windows)"), None);
    assert_eq!(get_os(&m).as_deref(), Some("Windows"));
}

#[test]
fn pscript_dll_creator_tool_yields_windows() {
    let m = record_with(None, Some("PScript5.dll Version 5.2.2"));
    assert_eq!(get_os(&m).as_deref(), Some("Windows"));
}

#[test]
fn plain_creator_tool_yields_nothing() {
    let m = record_with(None, Some("Microsoft Word"));
    assert_eq!(get_os(&m), None);
}

#[test]
fn empty_record_yields_nothing() {
    let m = Metadata::new("file.pdf");
    assert_eq!(get_os(&m), None);
}

#[test]
fn producer_match_takes_precedence_over_creator_tool() {
    let m = record_with(Some("Distiller (Mac OS X)"), Some("PScript5.dll"));
    assert_eq!(get_os(&m).as_deref(), Some("Mac OS X"));
}

#[test]
fn unmatched_producer_falls_through_to_creator_tool() {
    let m = record_with(Some("GPL Ghostscript 8.15"), Some("PScript5.dll Version 5.2.2"));
    assert_eq!(get_os(&m).as_deref(), Some("Windows"));
}

#[test]
fn first_parenthesized_group_is_captured() {
    let m = record_with(Some("Tool (one) then (two)"), None);
    assert_eq!(get_os(&m).as_deref(), Some("one"));
}

#[test]
fn open_parenthesis_without_close_is_no_match() {
    let m = record_with(Some("Broken (label"), None);
    assert_eq!(get_os(&m), None);
}

#[test]
fn close_before_the_first_open_is_skipped() {
    let m = record_with(Some("oops) then (fine)"), None);
    assert_eq!(get_os(&m).as_deref(), Some("fine"));
}

#[test]
fn empty_parentheses_capture_the_empty_label() {
    let m = record_with(Some("Tool ()"), None);
    assert_eq!(get_os(&m).as_deref(), Some(""));
}

#[test]
fn dll_must_follow_pscript() {
    let m = record_with(None, Some(".dll then PScript"));
    assert_eq!(get_os(&m), None);
}

#[test]
fn pscript_check_is_case_sensitive() {
    let m = record_with(None, Some("pscript5.dll"));
    assert_eq!(get_os(&m), None);
}
