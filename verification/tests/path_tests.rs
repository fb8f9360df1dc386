use mf_dumper::paths::resolve_entry_name;

#[test]
fn rejects_parent_directory_segment() {
    assert!(resolve_entry_name(b"../evil.txt").is_none());
    assert!(resolve_entry_name(b"a/../b.txt").is_none());
    assert!(resolve_entry_name(b"a/b/..").is_none());
    assert!(resolve_entry_name(b"..").is_none());
}

#[test]
fn rejects_absolute_root() {
    assert!(resolve_entry_name(b"/etc/passwd").is_none());
    assert!(resolve_entry_name(b"\\windows\\system32").is_none());
}

#[test]
fn rejects_volume_prefix() {
    assert!(resolve_entry_name(b"c:/secret.txt").is_none());
    assert!(resolve_entry_name(b"a/c:/b").is_none());
}

#[test]
fn accepts_plain_names() {
    let segs = resolve_entry_name(b"a/b/c.txt").unwrap();
    assert_eq!(segs, vec![b"a".to_vec(), b"b".to_vec(), b"c.txt".to_vec()]);
}

#[test]
fn skips_current_dir_and_empty_segments() {
    let segs = resolve_entry_name(b"a/./b//c").unwrap();
    assert_eq!(segs, vec![b"a".to_vec(), b"b".to_vec(), b"c".to_vec()]);
}

#[test]
fn empty_name_resolves_to_no_segments() {
    let segs = resolve_entry_name(b"").unwrap();
    assert!(segs.is_empty());
}

#[test]
fn triple_dot_is_a_plain_name() {
    let segs = resolve_entry_name(b"a/.../b").unwrap();
    assert_eq!(segs, vec![b"a".to_vec(), b"...".to_vec(), b"b".to_vec()]);
}

#[test]
fn backslash_is_a_separator() {
    let segs = resolve_entry_name(b"a\\b\\c.txt").unwrap();
    assert_eq!(segs, vec![b"a".to_vec(), b"b".to_vec(), b"c.txt".to_vec()]);
    assert!(resolve_entry_name(b"a\\..\\b").is_none());
}
