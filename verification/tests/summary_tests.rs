use mf_dumper::json::summary_to_json;
use mf_dumper::names::{is_model_name, is_xml_name};
use mf_dumper::xml::{parse_model_summary, ModelSummary, SummaryError};

#[test]
fn extension_checks_are_case_insensitive() {
    assert!(is_xml_name(b"3D/3dmodel.MODEL"));
    assert!(is_xml_name(b"a/b.Xml"));
    assert!(is_xml_name(b"_rels/.RELS"));
    assert!(!is_xml_name(b"thumbnail.png"));
    assert!(is_model_name(b"3D/3dmodel.model"));
    assert!(!is_model_name(b"3D/3dmodel.xml"));
    assert!(!is_model_name(b"model"));
}

#[test]
fn model_document_summary_counts_fields() {
    let xml = br#"<?xml version="1.0"?>
<model unit="millimeter" xmlns="http://schemas.microsoft.com/3dmanufacturing/core/2015/02">
  <resources>
    <object id="1"><mesh><vertices/></mesh></object>
    <object id="2"><components><component objectid="1"/></components></object>
  </resources>
  <build><item objectid="2"/></build>
</model>"#;
    let s = parse_model_summary(xml).unwrap();
    assert_eq!(s.unit, Some(b"millimeter".to_vec()));
    assert_eq!(s.object_count, 2);
    assert_eq!(s.mesh_object_count, 1);
    assert_eq!(s.components_object_count, 1);
    assert_eq!(s.build_item_count, 1);
    assert_eq!(s.metadata_count, 0);
}

#[test]
fn object_with_mesh_and_components_is_counted_in_both() {
    let xml = br#"<model><resources>
      <object id="1"><mesh/><components/></object>
    </resources></model>"#;
    let s = parse_model_summary(xml).unwrap();
    assert_eq!(s.object_count, 1);
    assert_eq!(s.mesh_object_count, 1);
    assert_eq!(s.components_object_count, 1);
    assert!(s.mesh_object_count <= s.object_count);
    assert!(s.components_object_count <= s.object_count);
    assert!(s.mesh_object_count + s.components_object_count <= 2 * s.object_count);
}

#[test]
fn namespaced_model_tag_matches_by_local_name() {
    let xml = br#"<m:model xmlns:m="urn:example" unit="inch">
      <m:object/><m:metadata/><m:metadata/>
    </m:model>"#;
    let s = parse_model_summary(xml).unwrap();
    assert_eq!(s.unit, Some(b"inch".to_vec()));
    assert_eq!(s.object_count, 1);
    assert_eq!(s.metadata_count, 2);
    assert_eq!(s.build_item_count, 0);
}

#[test]
fn grandchild_mesh_does_not_make_a_mesh_object() {
    let xml = br#"<model><object><wrap><mesh/></wrap></object></model>"#;
    let s = parse_model_summary(xml).unwrap();
    assert_eq!(s.object_count, 1);
    assert_eq!(s.mesh_object_count, 0);
}

#[test]
fn missing_model_element_is_reported() {
    let r = parse_model_summary(b"<other><object/></other>");
    assert!(matches!(r, Err(SummaryError::MissingModelElement)));
}

#[test]
fn malformed_xml_is_reported() {
    let r = parse_model_summary(b"<model><object></model>");
    assert!(matches!(r, Err(SummaryError::ParseFailed)));
    let r2 = parse_model_summary(&[0xff, 0xfe, 0x00]);
    assert!(matches!(r2, Err(SummaryError::ParseFailed)));
}

#[test]
fn summary_json_exact_text() {
    let s = ModelSummary {
        unit: Some(b"millimeter".to_vec()),
        object_count: 2,
        mesh_object_count: 1,
        components_object_count: 1,
        build_item_count: 1,
        metadata_count: 0,
    };
    let expected = "{\n  \"unit\": \"millimeter\",\n  \"object_count\": 2,\n  \"mesh_object_count\": 1,\n  \"components_object_count\": 1,\n  \"build_item_count\": 1,\n  \"metadata_count\": 0\n}";
    assert_eq!(summary_to_json(&s), expected.as_bytes().to_vec());
}

#[test]
fn summary_json_null_unit_and_large_counts() {
    let s = ModelSummary {
        unit: None,
        object_count: 0,
        mesh_object_count: 0,
        components_object_count: 0,
        build_item_count: 10,
        metadata_count: 1234567890,
    };
    let expected = "{\n  \"unit\": null,\n  \"object_count\": 0,\n  \"mesh_object_count\": 0,\n  \"components_object_count\": 0,\n  \"build_item_count\": 10,\n  \"metadata_count\": 1234567890\n}";
    assert_eq!(summary_to_json(&s), expected.as_bytes().to_vec());
}

#[test]
fn summary_json_escapes_quotes_and_backslashes() {
    let s = ModelSummary {
        unit: Some(b"in\"ch\\es".to_vec()),
        object_count: 0,
        mesh_object_count: 0,
        components_object_count: 0,
        build_item_count: 0,
        metadata_count: 0,
    };
    let json = summary_to_json(&s);
    let text = String::from_utf8(json).unwrap();
    assert!(text.contains("\"unit\": \"in\\\"ch\\\\es\","));
}
