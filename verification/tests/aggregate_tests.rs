use pdfmeta::aggregate::{aggregate, update_hashset};
use pdfmeta::metadata::{build_metadata, Metadata};
use pdfmeta::version::Version;

fn record(lines: &[&str]) -> Metadata {
    let owned: Vec<String> = lines.iter().map(|l| l.to_string()).collect();
    build_metadata("file.pdf", &owned).unwrap()
}

#[test]
fn repeated_producer_values_count_once() {
    let metas = vec![record(&["Producer : X"]), record(&["Producer : X"])];
    let view = aggregate(&metas);
    assert_eq!(view.producers.len(), 1);
    assert_eq!(view.producers[0], "X");
}

#[test]
fn distinct_producer_values_count_twice() {
    let metas = vec![record(&["Producer : X"]), record(&["Producer : Y"])];
    let view = aggregate(&metas);
    assert_eq!(view.producers.len(), 2);
    assert!(view.producers.contains(&"X".to_string()));
    assert!(view.producers.contains(&"Y".to_string()));
}

#[test]
fn absent_fields_contribute_nothing() {
    let metas = vec![record(&["Title : no tracked fields here"]), record(&[])];
    let view = aggregate(&metas);
    assert!(view.producers.is_empty());
    assert!(view.creators.is_empty());
    assert!(view.authors.is_empty());
    assert!(view.creator_tools.is_empty());
}

#[test]
fn each_tracked_field_is_grouped_separately() {
    let metas = vec![
        record(&["Creator : Writer", "Author : Ann"]),
        record(&["Creator Tool : PScript5.dll", "Author : Ben"]),
    ];
    let view = aggregate(&metas);
    assert!(view.producers.is_empty());
    assert_eq!(view.creators, vec!["Writer".to_string()]);
    assert_eq!(view.authors, vec!["Ann".to_string(), "Ben".to_string()]);
    assert_eq!(view.creator_tools, vec!["PScript5.dll".to_string()]);
}

#[test]
fn version_frequencies_are_exact() {
    let metas = vec![
        record(&["PDFVersion : 1.4"]),
        record(&["PDFVersion : 1.4"]),
        record(&["PDFVersion : 2.0"]),
        record(&[]),
    ];
    let view = aggregate(&metas);
    assert_eq!(view.version_counts.len(), 3);
    let mut counts = view.version_counts.clone();
    counts.sort_by_key(|p| (p.0.primary, p.0.secondary));
    assert_eq!(counts[0], (Version { primary: 1, secondary: 0 }, 1));
    assert_eq!(counts[1], (Version { primary: 1, secondary: 4 }, 2));
    assert_eq!(counts[2], (Version { primary: 2, secondary: 0 }, 1));
}

#[test]
fn aggregate_of_no_records_is_empty() {
    let metas: Vec<Metadata> = Vec::new();
    let view = aggregate(&metas);
    assert!(view.producers.is_empty());
    assert!(view.version_counts.is_empty());
}

#[test]
fn update_hashset_deduplicates_and_appends() {
    let mut set: Vec<String> = Vec::new();
    update_hashset(&mut set, &"a".to_string());
    update_hashset(&mut set, &"b".to_string());
    update_hashset(&mut set, &"a".to_string());
    assert_eq!(set, vec!["a".to_string(), "b".to_string()]);
}
