//! Tests for the schema-ambiguous query walker and the source map merge.

use tideflow_core::preprocessor::AnchorMeta;
use tideflow_core::sourcemap::{
    anchors_to_lookup, attach_pdf_positions, pdf_positions_from_query, PdfPosition,
    SourceMapError, SourceMapPayload,
};

fn anchor(id: &str, offset: usize, line: usize, column: usize) -> AnchorMeta {
    AnchorMeta { id: id.to_string(), offset, line, column }
}

#[test]
fn direct_label_and_nested_location_are_found() {
    let json = br#"[{"label":"tf-0-1","location":{"page":2,"position":{"x":1.5,"y":3}}}]"#;
    let positions = pdf_positions_from_query(json).unwrap();
    assert_eq!(positions.len(), 1);
    assert_eq!(positions[0].0, "tf-0-1");
    assert_eq!(positions[0].1.page, 2);
    assert_eq!(positions[0].1.x, "1.5");
    assert_eq!(positions[0].1.y, "3");
}

#[test]
fn label_under_wrapper_key_is_found() {
    let json = br#"[{"value":{"label":"tf-4-2"},"page":1,"point":{"x":"7.25","y":"8"}}]"#;
    let positions = pdf_positions_from_query(json).unwrap();
    assert_eq!(positions.len(), 1);
    assert_eq!(positions[0].0, "tf-4-2");
    assert_eq!(positions[0].1.page, 1);
    assert_eq!(positions[0].1.x, "7.25");
    assert_eq!(positions[0].1.y, "8");
}

#[test]
fn rect_array_supplies_the_first_two_coordinates() {
    let json = br#"[{"fields":{"label":"tf-9-3"},"rect":[10,20,30,40]}]"#;
    let positions = pdf_positions_from_query(json).unwrap();
    assert_eq!(positions.len(), 1);
    assert_eq!(positions[0].1.page, 1);
    assert_eq!(positions[0].1.x, "10");
    assert_eq!(positions[0].1.y, "20");
}

#[test]
fn page_may_be_a_numeric_string() {
    let json = br#"[{"label":"tf-1-1","location":{"page":"4","pos":{"x":0,"y":0}}}]"#;
    let positions = pdf_positions_from_query(json).unwrap();
    assert_eq!(positions[0].1.page, 4);
}

#[test]
fn unparsable_coordinates_default_to_zero() {
    let json = br#"[{"label":"tf-1-1","location":{"position":{"x":"wide","y":true}}}]"#;
    let positions = pdf_positions_from_query(json).unwrap();
    assert_eq!(positions[0].1.page, 1);
    assert_eq!(positions[0].1.x, "0");
    assert_eq!(positions[0].1.y, "0");
}

#[test]
fn foreign_labels_and_label_free_entries_are_dropped() {
    let json = br#"[{"label":"other","location":{"page":1,"position":{"x":0,"y":0}}},{"note":"no label"},{"label":"tf-2-2"}]"#;
    let positions = pdf_positions_from_query(json).unwrap();
    // The foreign label is filtered, the second entry has no label, and the
    // third has a label but no location.
    assert!(positions.is_empty());
}

#[test]
fn non_array_results_yield_no_positions() {
    let positions = pdf_positions_from_query(br#"{"label":"tf-0-1"}"#).unwrap();
    assert!(positions.is_empty());
}

#[test]
fn malformed_query_output_is_an_error() {
    assert_eq!(
        pdf_positions_from_query(b"not json").unwrap_err(),
        SourceMapError::MalformedQuery
    );
}

#[test]
fn attach_enriches_matched_anchors_and_leaves_others_bare() {
    let anchors = vec![anchor("tf-doc-start", 0, 0, 0), anchor("tf-9-1", 9, 2, 0)];
    let positions = vec![(
        "tf-9-1".to_string(),
        PdfPosition { page: 3, x: "1.5".to_string(), y: "2.5".to_string() },
    )];
    let map = attach_pdf_positions(&anchors, &positions);
    assert_eq!(map.anchors.len(), 2);
    assert_eq!(map.anchors[0].id, "tf-doc-start");
    assert!(map.anchors[0].pdf.is_none());
    assert_eq!(map.anchors[0].editor.offset, 0);
    let enriched = map.anchors[1].pdf.as_ref().unwrap();
    assert_eq!(enriched.page, 3);
    assert_eq!(enriched.x, "1.5");
    assert_eq!(enriched.y, "2.5");
    assert_eq!(map.anchors[1].editor.line, 2);
}

#[test]
fn lookup_map_carries_editor_positions() {
    let anchors = vec![anchor("tf-doc-start", 0, 0, 0), anchor("tf-5-1", 5, 1, 2)];
    let m = anchors_to_lookup(&anchors);
    assert_eq!(m.len(), 2);
    let pos = m.get("tf-5-1").unwrap();
    assert_eq!(pos.offset, 5);
    assert_eq!(pos.line, 1);
    assert_eq!(pos.column, 2);
}

#[test]
fn default_source_map_is_empty() {
    let map = SourceMapPayload::default();
    assert!(map.anchors.is_empty());
}
