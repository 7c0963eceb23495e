use std::io::{Cursor, Write};

use pkgfetch::archive::Entry;
use pkgfetch::errors::PkgError;
use pkgfetch::materialize::{extract_archive, extract_command, materialize, ExtractPlan};
use zip::write::SimpleFileOptions;

fn b(s: &str) -> Vec<u8> {
    s.as_bytes().to_vec()
}

fn build_zip(dirs: &[&str], files: &[(&str, &[u8])]) -> Vec<u8> {
    let mut w = zip::ZipWriter::new(Cursor::new(Vec::new()));
    let opts = SimpleFileOptions::default();
    for d in dirs {
        w.add_directory(*d, opts).unwrap();
    }
    for (name, data) in files {
        w.start_file(*name, opts).unwrap();
        w.write_all(data).unwrap();
    }
    w.finish().unwrap().into_inner()
}

fn dirs_of(plan: &ExtractPlan) -> Vec<Vec<Vec<u8>>> {
    let mut v: Vec<Vec<Vec<u8>>> = plan.dirs.iter().map(|rp| rp.segs.clone()).collect();
    v.sort();
    v.dedup();
    v
}

fn files_of(plan: &ExtractPlan) -> Vec<(Vec<Vec<u8>>, Vec<u8>)> {
    let mut v: Vec<(Vec<Vec<u8>>, Vec<u8>)> = plan
        .files
        .iter()
        .map(|(rp, data)| (rp.segs.clone(), data.clone()))
        .collect();
    v.sort();
    v
}

#[test]
fn demo_zip_end_to_end() {
    let bytes = build_zip(&["sub"], &[("a.txt", b"hello")]);
    let plan = extract_archive(bytes).unwrap();
    assert_eq!(dirs_of(&plan), vec![vec![b("sub")]]);
    assert_eq!(files_of(&plan), vec![(vec![b("a.txt")], b("hello"))]);
}

#[test]
fn nested_tree_reproduced_exactly() {
    let data: &[u8] = &[0u8, 1, 2, 3, 255];
    let bytes = build_zip(&["e"], &[("d1/d2/f.bin", data)]);
    let plan = extract_archive(bytes).unwrap();
    assert_eq!(
        dirs_of(&plan),
        vec![vec![b("d1")], vec![b("d1"), b("d2")], vec![b("e")]]
    );
    assert_eq!(
        files_of(&plan),
        vec![(vec![b("d1"), b("d2"), b("f.bin")], data.to_vec())]
    );
}

#[test]
fn file_entry_creates_missing_parents() {
    let bytes = build_zip(&[], &[("sub/inner.txt", b"x")]);
    let plan = extract_archive(bytes).unwrap();
    assert_eq!(dirs_of(&plan), vec![vec![b("sub")]]);
    assert_eq!(files_of(&plan), vec![(vec![b("sub"), b("inner.txt")], b("x"))]);
}

#[test]
fn traversal_entry_fails_whole_extraction() {
    // Build a valid archive whose entry name has the same length as the
    // traversal name, then patch the stored name bytes, so the test does not
    // depend on what the writer is willing to produce.
    let bytes = build_zip(&[], &[("xx/evil.txt", b"boom")]);
    let patched: Vec<u8> = {
        let mut v = bytes.clone();
        let needle = b"xx/evil.txt";
        let replacement = b"../evil.txt";
        let mut i = 0;
        while i + needle.len() <= v.len() {
            if &v[i..i + needle.len()] == needle {
                v[i..i + needle.len()].copy_from_slice(replacement);
            }
            i += 1;
        }
        v
    };
    let r = extract_archive(patched);
    assert!(matches!(r, Err(PkgError::PathTraversal)));
}

#[test]
fn absolute_path_entry_fails_materialize() {
    let entries = vec![Entry { name: b("/abs.txt"), is_dir: false, data: b("x") }];
    let r = materialize(&entries);
    assert!(matches!(r, Err(PkgError::PathTraversal)));
}

#[test]
fn dotdot_entry_fails_materialize() {
    let entries = vec![
        Entry { name: b("ok.txt"), is_dir: false, data: b("fine") },
        Entry { name: b("a/../../evil"), is_dir: true, data: Vec::new() },
    ];
    let r = materialize(&entries);
    assert!(matches!(r, Err(PkgError::PathTraversal)));
}

#[test]
fn extract_without_archive_is_not_found() {
    let r = extract_command(None);
    assert!(matches!(r, Err(PkgError::NotFound)));
}

#[test]
fn extract_command_with_archive_extracts() {
    let bytes = build_zip(&[], &[("a.txt", b"hi")]);
    let plan = extract_command(Some(bytes)).unwrap();
    assert_eq!(files_of(&plan), vec![(vec![b("a.txt")], b("hi"))]);
}

#[test]
fn unreadable_bytes_fail_archive_read() {
    let r = extract_archive(b("this is not a zip archive"));
    assert!(matches!(r, Err(PkgError::ArchiveRead)));
}

#[test]
fn empty_archive_extracts_to_nothing() {
    let bytes = build_zip(&[], &[]);
    let plan = extract_archive(bytes).unwrap();
    assert!(dirs_of(&plan).is_empty());
    assert!(files_of(&plan).is_empty());
}

#[test]
fn extraction_twice_yields_identical_plan() {
    let bytes = build_zip(&["sub"], &[("a.txt", b"hello"), ("sub/b.txt", b"bee")]);
    let first = extract_archive(bytes.clone()).unwrap();
    let second = extract_archive(bytes).unwrap();
    assert_eq!(dirs_of(&first), dirs_of(&second));
    assert_eq!(files_of(&first), files_of(&second));
}

#[test]
fn dir_entry_with_dot_segments_normalizes() {
    let entries = vec![Entry { name: b("a/./b//"), is_dir: true, data: Vec::new() }];
    let plan = materialize(&entries).unwrap();
    assert_eq!(dirs_of(&plan), vec![vec![b("a")], vec![b("a"), b("b")]]);
}
