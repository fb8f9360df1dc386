use std::io::{Cursor, Write};

use mf_dumper::archive::read_archive_entries;
use mf_dumper::fmt::{is_valid_utf8, process_entry_bytes};
use mf_dumper::json::summary_to_json;
use mf_dumper::pipeline::{
    inspect_archive, output_folder_name, plan_decompile, plan_output_dir, worker_count_valid,
    DecompileError, OutputDirPlan, PlanAction,
};
use mf_dumper::xml::parse_model_summary;
use zip::write::SimpleFileOptions;
use zip::ZipWriter;

fn build_zip(files: &[(&str, &[u8])], dirs: &[&str]) -> Vec<u8> {
    let mut w = ZipWriter::new(Cursor::new(Vec::new()));
    let opts = SimpleFileOptions::default();
    for d in dirs {
        w.add_directory(*d, opts).unwrap();
    }
    for (name, data) in files {
        w.start_file(*name, opts).unwrap();
        w.write_all(data).unwrap();
    }
    w.finish().unwrap().into_inner()
}

const MODEL_XML: &[u8] = br#"<?xml version="1.0" encoding="UTF-8"?>
<model unit="millimeter"><resources>
<object id="1"><mesh/></object>
<object id="2"><components/></object>
</resources><build><item objectid="1"/></build></model>"#;

#[test]
fn empty_archive_plans_no_files_and_zero_summary() {
    let data = build_zip(&[], &[]);
    let plan = plan_decompile(&data, false).unwrap();
    assert_eq!(plan.file_count, 0);
    assert!(plan.actions.is_empty());
    assert_eq!(plan.summary.unit, None);
    assert_eq!(plan.summary.object_count, 0);
    assert_eq!(plan.summary.mesh_object_count, 0);
    assert_eq!(plan.summary.components_object_count, 0);
    assert_eq!(plan.summary.build_item_count, 0);
    assert_eq!(plan.summary.metadata_count, 0);
    let text = String::from_utf8(plan.summary_json).unwrap();
    assert!(text.contains("\"unit\": null"));
    assert!(text.contains("\"object_count\": 0"));
}

#[test]
fn decompile_extracts_entries_and_summary() {
    let data = build_zip(
        &[("3D/3dmodel.model", MODEL_XML), ("[Content_Types].xml", b"<Types/>")],
        &["3D/"],
    );
    let plan = plan_decompile(&data, false).unwrap();
    assert_eq!(plan.file_count, 2);
    assert_eq!(plan.actions.len(), 3);
    match &plan.actions[0] {
        PlanAction::MakeDir { segments } => {
            assert_eq!(segments, &vec![b"3D".to_vec()]);
        },
        _ => panic!("first action should create the directory"),
    }
    match &plan.actions[1] {
        PlanAction::WriteFile { segments, data } => {
            assert_eq!(segments, &vec![b"3D".to_vec(), b"3dmodel.model".to_vec()]);
            assert_eq!(data.as_slice(), MODEL_XML);
        },
        _ => panic!("second action should write the model"),
    }
    assert_eq!(plan.summary.unit, Some(b"millimeter".to_vec()));
    assert_eq!(plan.summary.object_count, 2);
    assert_eq!(plan.summary.mesh_object_count, 1);
    assert_eq!(plan.summary.components_object_count, 1);
    assert_eq!(plan.summary.build_item_count, 1);
}

#[test]
fn stored_descriptor_matches_extractor_output() {
    let data = build_zip(&[("a.model", MODEL_XML)], &[]);
    let plan = plan_decompile(&data, false).unwrap();
    let direct = parse_model_summary(MODEL_XML).unwrap();
    assert_eq!(plan.summary.unit, direct.unit);
    assert_eq!(plan.summary.object_count, direct.object_count);
    assert_eq!(plan.summary.mesh_object_count, direct.mesh_object_count);
    assert_eq!(plan.summary.components_object_count, direct.components_object_count);
    assert_eq!(plan.summary.build_item_count, direct.build_item_count);
    assert_eq!(plan.summary.metadata_count, direct.metadata_count);
    assert_eq!(plan.summary_json, summary_to_json(&direct));
}

#[test]
fn decompiling_twice_gives_identical_results() {
    let data = build_zip(&[("a.model", MODEL_XML), ("b.txt", b"hello")], &[]);
    let p1 = plan_decompile(&data, true).unwrap();
    let p2 = plan_decompile(&data, true).unwrap();
    assert_eq!(p1.file_count, p2.file_count);
    assert_eq!(p1.actions.len(), p2.actions.len());
    assert_eq!(p1.summary.unit, p2.summary.unit);
    assert_eq!(p1.summary.object_count, p2.summary.object_count);
    assert_eq!(p1.summary_json, p2.summary_json);
}

#[test]
fn unsafe_entry_name_fails_the_run() {
    let data = build_zip(&[("ok.txt", b"fine"), ("../evil.txt", b"bad")], &[]);
    let r = plan_decompile(&data, false);
    assert!(matches!(r, Err(DecompileError::UnsafePath { index: 1 })));
}

#[test]
fn not_a_zip_is_rejected() {
    let data = b"this is not a zip container".to_vec();
    assert!(matches!(plan_decompile(&data, false), Err(DecompileError::NotAnArchive)));
    assert!(inspect_archive(&data).is_err());
}

#[test]
fn pretty_mode_reformats_xml_entries() {
    let ugly = b"<model unit=\"millimeter\"><object><mesh/></object></model>".to_vec();
    let pretty = process_entry_bytes(b"3dmodel.model", ugly.clone(), true);
    assert_ne!(pretty, ugly);
    let text = String::from_utf8(pretty.clone()).unwrap();
    assert!(text.starts_with("<?xml"));
    assert!(text.contains("\n"));
    // reformatting keeps the structure: the summary is unchanged
    let s1 = parse_model_summary(&ugly).unwrap();
    let s2 = parse_model_summary(&pretty).unwrap();
    assert_eq!(s1.object_count, s2.object_count);
    assert_eq!(s1.mesh_object_count, s2.mesh_object_count);
    assert_eq!(s1.unit, s2.unit);
}

#[test]
fn pretty_mode_keeps_unparseable_and_non_xml_bytes() {
    let broken = b"<model><object></model>".to_vec();
    assert_eq!(process_entry_bytes(b"a.xml", broken.clone(), true), broken);
    let plain = b"not xml at all".to_vec();
    assert_eq!(process_entry_bytes(b"readme.txt", plain.clone(), true), plain);
    let xml = b"<a><b/></a>".to_vec();
    assert_eq!(process_entry_bytes(b"a.xml", xml.clone(), false), xml);
}

#[test]
fn inspect_reports_counts_and_summary() {
    let data = build_zip(&[("a.model", MODEL_XML), ("b.bin", &[0u8; 1000])], &[]);
    let rep = inspect_archive(&data).unwrap();
    assert_eq!(rep.entry_count, 2);
    assert!(rep.uncompressed_bytes >= 1000);
    assert!(rep.compressed_bytes > 0);
    let s = rep.summary.unwrap();
    assert_eq!(s.unit, Some(b"millimeter".to_vec()));
    assert_eq!(s.object_count, 2);
}

#[test]
fn inspect_with_invalid_utf8_model_reports_no_summary() {
    let bad = [0xffu8, 0xfe, 0x00, 0x80];
    assert!(!is_valid_utf8(&bad));
    let data = build_zip(&[("only.model", &bad)], &[]);
    let rep = inspect_archive(&data).unwrap();
    assert_eq!(rep.entry_count, 1);
    assert!(rep.summary.is_none());
}

#[test]
fn inspect_without_model_reports_no_summary() {
    let data = build_zip(&[("readme.txt", b"hi")], &[]);
    let rep = inspect_archive(&data).unwrap();
    assert!(rep.summary.is_none());
}

#[test]
fn archive_entries_round_trip_what_was_written() {
    let data = build_zip(&[("x/y.txt", b"payload")], &["x/"]);
    let entries = read_archive_entries(&data).unwrap();
    assert_eq!(entries.len(), 2);
    assert!(entries[0].is_dir);
    assert_eq!(entries[0].name, b"x/".to_vec());
    assert!(!entries[1].is_dir);
    assert_eq!(entries[1].name, b"x/y.txt".to_vec());
    assert_eq!(entries[1].data, b"payload".to_vec());
    assert_eq!(entries[1].uncompressed_size, 7);
}

#[test]
fn output_dir_policy() {
    assert!(matches!(plan_output_dir(true, false), OutputDirPlan::RefuseExisting));
    assert!(matches!(plan_output_dir(true, true), OutputDirPlan::RemoveThenCreate));
    assert!(matches!(plan_output_dir(false, false), OutputDirPlan::Create));
    assert!(matches!(plan_output_dir(false, true), OutputDirPlan::Create));
}

#[test]
fn worker_count_zero_is_rejected() {
    assert!(!worker_count_valid(Some(0)));
    assert!(worker_count_valid(Some(1)));
    assert!(worker_count_valid(Some(8)));
    assert!(worker_count_valid(None));
}

#[test]
fn folder_names_derive_from_stems() {
    assert_eq!(output_folder_name(b"part one.3mf"), b"part_one".to_vec());
    assert_eq!(output_folder_name(b"model.3mf"), b"model".to_vec());
    assert_eq!(output_folder_name(b"archive.tar.gz"), b"archive.tar".to_vec());
    assert_eq!(output_folder_name(b".hidden"), b".hidden".to_vec());
    assert_eq!(output_folder_name(b""), b"output".to_vec());
    assert_eq!(output_folder_name(b"noext"), b"noext".to_vec());
}

#[test]
fn only_the_first_model_entry_is_considered_for_capture() {
    // the first model-document entry does not decode as UTF-8, so the summary
    // defaults to all-zero even though a later model entry would parse
    let bad = [0xffu8, 0xfe, 0x80];
    let data = build_zip(&[("a.model", &bad), ("b.model", MODEL_XML)], &[]);
    let plan = plan_decompile(&data, false).unwrap();
    assert_eq!(plan.file_count, 2);
    assert_eq!(plan.summary.object_count, 0);
    assert_eq!(plan.summary.unit, None);
}

#[test]
fn pretty_decompile_writes_reformatted_model_bytes() {
    let data = build_zip(&[("m.model", MODEL_XML)], &[]);
    let plan = plan_decompile(&data, true).unwrap();
    match &plan.actions[0] {
        PlanAction::WriteFile { segments, data } => {
            assert_eq!(segments, &vec![b"m.model".to_vec()]);
            assert_ne!(data.as_slice(), MODEL_XML);
            assert!(data.starts_with(b"<?xml"));
        },
        _ => panic!("expected a file write"),
    }
    // the captured text is the reformatted one, and still summarizes the same
    assert_eq!(plan.summary.object_count, 2);
    assert_eq!(plan.summary.unit, Some(b"millimeter".to_vec()));
}
