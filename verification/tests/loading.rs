use docstore::changelog::{ChangeLogEntry, LogRecord, OpParams};
use docstore::error::DocError;
use docstore::loader::DocRoots;
use docstore::storage::{FileData, Storage};
use docstore::tree::{Area, DocPart, DocParagraph, Document, Reference};

fn entry(group_id: i32, par_id: &str, op: &str, new_hash: Option<&str>, ver: [i32; 2], time: &str) -> LogRecord {
    LogRecord::Entry(ChangeLogEntry {
        group_id,
        par_id: par_id.to_string(),
        op: op.to_string(),
        op_params: Some(OpParams {
            old_hash: None,
            new_hash: new_hash.map(|h| h.to_string()),
            before_id: None,
        }),
        ver,
        time: time.to_string(),
    })
}

fn text(lines: &[&str]) -> FileData {
    FileData::Text(lines.iter().map(|l| l.to_string()).collect())
}

fn store(files: Vec<(&str, FileData)>) -> Storage {
    Storage { files: files.into_iter().map(|(p, d)| (p.to_string(), d)).collect() }
}

fn no_roots() -> DocRoots {
    DocRoots { entries: Vec::new() }
}

fn roots(entries: Vec<(i32, &str)>) -> DocRoots {
    DocRoots { entries: entries.into_iter().map(|(i, p)| (i, p.to_string())).collect() }
}

#[test]
fn flat_document_scenario() {
    // One insert record at version (1,0); manifest line "p1/h1"; object
    // content_root/p1/h1 holding "Hello".
    let fs = store(vec![
        ("hist/changelog", FileData::Log(vec![entry(1, "p1", "insert", Some("h1"), [1, 0], "t0")])),
        ("hist/1/0", text(&["p1/h1"])),
        ("cont/p1/h1", FileData::Bytes(b"Hello".to_vec())),
    ]);
    let doc = Document::load_newest(1, "hist", "cont", &fs, &no_roots()).unwrap();
    assert_eq!(
        doc,
        Document {
            id: 1,
            version: [1, 0],
            pars: vec![DocPart::Par(DocParagraph {
                id: "p1".to_string(),
                hash: "h1".to_string(),
                content: b"Hello".to_vec(),
            })],
        }
    );
}

#[test]
fn paragraphs_in_manifest_line_order() {
    let fs = store(vec![
        ("h/changelog", FileData::Log(vec![entry(7, "a", "insert", Some("k1"), [3, 2], "t")])),
        ("h/3/2", text(&["a/k1", "b/k2", "c/k3"])),
        ("c/a/k1", FileData::Bytes(b"one".to_vec())),
        ("c/b/k2", FileData::Bytes(b"two".to_vec())),
        ("c/c/k3", FileData::Bytes(b"three".to_vec())),
    ]);
    let doc = Document::load_newest(7, "h", "c", &fs, &no_roots()).unwrap();
    assert_eq!(doc.pars.len(), 3);
    let want = [("a", "k1", b"one".to_vec()), ("b", "k2", b"two".to_vec()), ("c", "k3", b"three".to_vec())];
    for (i, (id, hash, content)) in want.iter().enumerate() {
        match &doc.pars[i] {
            DocPart::Par(p) => {
                assert_eq!(p.id, *id);
                assert_eq!(p.hash, *hash);
                assert_eq!(&p.content, content);
            },
            other => panic!("expected a paragraph, got {:?}", other),
        }
    }
}

#[test]
fn loading_twice_is_identical() {
    let fs = store(vec![
        ("h/changelog", FileData::Log(vec![entry(4, "p", "insert", Some("k"), [1, 1], "t")])),
        ("h/1/1", text(&["p/k"])),
        ("c/p/k", FileData::Bytes(vec![0, 255, 7])),
    ]);
    let first = Document::load_newest(4, "h", "c", &fs, &no_roots());
    let second = Document::load_newest(4, "h", "c", &fs, &no_roots());
    assert_eq!(first, second);
}

#[test]
fn exact_path_composition() {
    // "ab/cd1234" must be read at content_root/ab/cd1234 and nowhere else.
    let fs = store(vec![
        ("h/changelog", FileData::Log(vec![entry(1, "x", "insert", None, [1, 0], "t")])),
        ("h/1/0", text(&["ab/cd1234"])),
        ("c/ab/cd1234", FileData::Bytes(b"payload".to_vec())),
    ]);
    let doc = Document::load_newest(1, "h", "c", &fs, &no_roots()).unwrap();
    match &doc.pars[0] {
        DocPart::Par(p) => assert_eq!(p.content, b"payload".to_vec()),
        other => panic!("expected a paragraph, got {:?}", other),
    }
    // The same manifest against a store that only has the object elsewhere fails.
    let fs2 = store(vec![
        ("h/changelog", FileData::Log(vec![entry(1, "x", "insert", None, [1, 0], "t")])),
        ("h/1/0", text(&["ab/cd1234"])),
        ("c/ab-cd1234", FileData::Bytes(b"payload".to_vec())),
    ]);
    let err = Document::load_newest(1, "h", "c", &fs2, &no_roots()).unwrap_err();
    assert_eq!(err, DocError::ParagraphNotFound { shard: "ab".to_string(), key: "cd1234".to_string() });
}

#[test]
fn key_keeps_further_slashes() {
    // Only the first `/` splits: line "ab/cd/ef" names object content_root/ab/cd/ef.
    let fs = store(vec![
        ("h/changelog", FileData::Log(vec![entry(1, "x", "insert", None, [1, 0], "t")])),
        ("h/1/0", text(&["ab/cd/ef"])),
        ("c/ab/cd/ef", FileData::Bytes(b"deep".to_vec())),
    ]);
    let doc = Document::load_newest(1, "h", "c", &fs, &no_roots()).unwrap();
    match &doc.pars[0] {
        DocPart::Par(p) => {
            assert_eq!(p.id, "ab");
            assert_eq!(p.hash, "cd/ef");
            assert_eq!(p.content, b"deep".to_vec());
        },
        other => panic!("expected a paragraph, got {:?}", other),
    }
}

#[test]
fn missing_object_is_paragraph_not_found() {
    let fs = store(vec![
        ("h/changelog", FileData::Log(vec![entry(1, "p", "insert", Some("k"), [1, 0], "t")])),
        ("h/1/0", text(&["p/k"])),
    ]);
    let err = Document::load_newest(1, "h", "c", &fs, &no_roots()).unwrap_err();
    assert_eq!(err, DocError::ParagraphNotFound { shard: "p".to_string(), key: "k".to_string() });
}

#[test]
fn corrupt_object_is_corrupt_paragraph() {
    let fs = store(vec![
        ("h/changelog", FileData::Log(vec![entry(1, "p", "insert", Some("k"), [1, 0], "t")])),
        ("h/1/0", text(&["p/k"])),
        ("c/p/k", text(&["not", "bytes"])),
    ]);
    let err = Document::load_newest(1, "h", "c", &fs, &no_roots()).unwrap_err();
    assert_eq!(err, DocError::CorruptParagraph { shard: "p".to_string(), key: "k".to_string() });
}

#[test]
fn missing_log_is_non_existent_document() {
    let fs = store(vec![]);
    let err = Document::load_newest(9, "h", "c", &fs, &no_roots()).unwrap_err();
    assert_eq!(err, DocError::NonExistentOrEmptyDocument { doc_id: 9 });
}

#[test]
fn empty_log_is_non_existent_document() {
    let fs = store(vec![("h/changelog", FileData::Log(vec![]))]);
    let err = Document::load_newest(9, "h", "c", &fs, &no_roots()).unwrap_err();
    assert_eq!(err, DocError::NonExistentOrEmptyDocument { doc_id: 9 });
}

#[test]
fn malformed_log_record_reports_offset() {
    let fs = store(vec![("h/changelog", FileData::Log(vec![LogRecord::Malformed]))]);
    let err = Document::load_newest(2, "h", "c", &fs, &no_roots()).unwrap_err();
    assert_eq!(err, DocError::MalformedChangelogEntry { doc_id: 2, line: 0 });
}

#[test]
fn missing_manifest_is_version_not_found() {
    let fs = store(vec![
        ("h/changelog", FileData::Log(vec![entry(1, "p", "insert", Some("k"), [2, 5], "t")])),
    ]);
    let err = Document::load_newest(1, "h", "c", &fs, &no_roots()).unwrap_err();
    assert_eq!(err, DocError::VersionNotFound { doc_id: 1, major: 2, minor: 5 });
}

#[test]
fn malformed_manifest_line_reports_offset() {
    let fs = store(vec![
        ("h/changelog", FileData::Log(vec![entry(1, "p", "insert", Some("k"), [1, 0], "t")])),
        ("h/1/0", text(&["p/k", "noslash"])),
        ("c/p/k", FileData::Bytes(b"x".to_vec())),
    ]);
    let err = Document::load_newest(1, "h", "c", &fs, &no_roots()).unwrap_err();
    assert_eq!(err, DocError::MalformedManifestLine { doc_id: 1, line: 1 });
}

#[test]
fn dedup_same_shard_and_key() {
    let fs = store(vec![
        ("h/changelog", FileData::Log(vec![entry(1, "p", "insert", Some("k"), [1, 0], "t")])),
        ("h/1/0", text(&["p/k", "p/k"])),
        ("c/p/k", FileData::Bytes(b"shared".to_vec())),
    ]);
    let doc = Document::load_newest(1, "h", "c", &fs, &no_roots()).unwrap();
    assert_eq!(doc.pars.len(), 2);
    assert_eq!(doc.pars[0], doc.pars[1]);
    match (&doc.pars[0], &doc.pars[1]) {
        (DocPart::Par(a), DocPart::Par(b)) => assert_eq!(a.content, b.content),
        other => panic!("expected two paragraphs, got {:?}", other),
    }
}

#[test]
fn load_version_reads_the_named_manifest() {
    let fs = store(vec![
        ("h/changelog", FileData::Log(vec![entry(1, "p", "insert", Some("k2"), [2, 0], "t1")])),
        ("h/2/0", text(&["p/k2"])),
        ("h/1/0", text(&["p/k1"])),
        ("c/p/k1", FileData::Bytes(b"old".to_vec())),
        ("c/p/k2", FileData::Bytes(b"new".to_vec())),
    ]);
    let newest = Document::load_newest(1, "h", "c", &fs, &no_roots()).unwrap();
    let historic = Document::load_version(1, [1, 0], "h", "c", &fs, &no_roots()).unwrap();
    assert_eq!(newest.version, [2, 0]);
    assert_eq!(historic.version, [1, 0]);
    match &historic.pars[0] {
        DocPart::Par(p) => assert_eq!(p.content, b"old".to_vec()),
        other => panic!("expected a paragraph, got {:?}", other),
    }
}

#[test]
fn load_version_of_negative_component() {
    // Version directories render through the same decimal formatting,
    // signs included.
    let fs = store(vec![
        ("h/-1/0", text(&["p/k"])),
        ("c/p/k", FileData::Bytes(b"v".to_vec())),
    ]);
    let doc = Document::load_version(1, [-1, 0], "h", "c", &fs, &no_roots()).unwrap();
    assert_eq!(doc.version, [-1, 0]);
}

#[test]
fn reference_resolves_to_target_paragraph() {
    let fs = store(vec![
        ("h1/changelog", FileData::Log(vec![entry(1, "r", "insert", None, [1, 0], "t")])),
        ("h1/1/0", text(&["@ref 2 p9"])),
        ("h2/changelog", FileData::Log(vec![entry(2, "p9", "insert", Some("k9"), [1, 0], "t")])),
        ("h2/1/0", text(&["p9/k9"])),
        ("c/p9/k9", FileData::Bytes(b"target".to_vec())),
    ]);
    let rt = roots(vec![(1, "h1"), (2, "h2")]);
    let doc = Document::load_newest(1, "h1", "c", &fs, &rt).unwrap();
    match &doc.pars[0] {
        DocPart::Reference(Reference::Par { dest_id, dest_doc_id, par }) => {
            assert_eq!(dest_id, "p9");
            assert_eq!(*dest_doc_id, 2);
            assert_eq!(par.content, b"target".to_vec());
        },
        other => panic!("expected a paragraph reference, got {:?}", other),
    }
}

#[test]
fn reference_resolves_to_target_area() {
    let fs = store(vec![
        ("h1/changelog", FileData::Log(vec![entry(1, "r", "insert", None, [1, 0], "t")])),
        ("h1/1/0", text(&["@ref 2 intro"])),
        ("h2/changelog", FileData::Log(vec![entry(2, "a", "insert", None, [1, 0], "t")])),
        ("h2/1/0", text(&["@area intro a1/l1"])),
        ("c/a1/l1", text(&["p/k"])),
        ("c/p/k", FileData::Bytes(b"inside".to_vec())),
    ]);
    let rt = roots(vec![(1, "h1"), (2, "h2")]);
    let doc = Document::load_newest(1, "h1", "c", &fs, &rt).unwrap();
    match &doc.pars[0] {
        DocPart::Reference(Reference::Area { name, dest_doc_id, area }) => {
            assert_eq!(name, "intro");
            assert_eq!(*dest_doc_id, 2);
            assert_eq!(area.parts.len(), 1);
        },
        other => panic!("expected an area reference, got {:?}", other),
    }
}

#[test]
fn reference_target_not_found() {
    let fs = store(vec![
        ("h1/changelog", FileData::Log(vec![entry(1, "r", "insert", None, [1, 0], "t")])),
        ("h1/1/0", text(&["@ref 2 missing"])),
        ("h2/changelog", FileData::Log(vec![entry(2, "p", "insert", Some("k"), [1, 0], "t")])),
        ("h2/1/0", text(&["p/k"])),
        ("c/p/k", FileData::Bytes(b"x".to_vec())),
    ]);
    let rt = roots(vec![(1, "h1"), (2, "h2")]);
    let err = Document::load_newest(1, "h1", "c", &fs, &rt).unwrap_err();
    assert_eq!(
        err,
        DocError::ReferenceTargetNotFound { dest_doc_id: 2, dest_id: "missing".to_string() }
    );
}

#[test]
fn reference_to_unregistered_document() {
    let fs = store(vec![
        ("h1/changelog", FileData::Log(vec![entry(1, "r", "insert", None, [1, 0], "t")])),
        ("h1/1/0", text(&["@ref 5 p"])),
    ]);
    let err = Document::load_newest(1, "h1", "c", &fs, &roots(vec![(1, "h1")])).unwrap_err();
    assert_eq!(err, DocError::NonExistentOrEmptyDocument { doc_id: 5 });
}

#[test]
fn reference_cycle_detected() {
    // Document 1 references document 2, which references document 1 again.
    let fs = store(vec![
        ("h1/changelog", FileData::Log(vec![entry(1, "r", "insert", None, [1, 0], "t")])),
        ("h1/1/0", text(&["@ref 2 p"])),
        ("h2/changelog", FileData::Log(vec![entry(2, "r", "insert", None, [1, 0], "t")])),
        ("h2/1/0", text(&["@ref 1 p"])),
    ]);
    let rt = roots(vec![(1, "h1"), (2, "h2")]);
    let err = Document::load_newest(1, "h1", "c", &fs, &rt).unwrap_err();
    assert_eq!(err, DocError::ReferenceCycleDetected { dest_doc_id: 1 });
}

#[test]
fn self_reference_cycle_detected() {
    let fs = store(vec![
        ("h1/changelog", FileData::Log(vec![entry(1, "r", "insert", None, [1, 0], "t")])),
        ("h1/1/0", text(&["@ref 1 p"])),
    ]);
    let rt = roots(vec![(1, "h1")]);
    let err = Document::load_newest(1, "h1", "c", &fs, &rt).unwrap_err();
    assert_eq!(err, DocError::ReferenceCycleDetected { dest_doc_id: 1 });
}

#[test]
fn area_preserves_child_order() {
    let fs = store(vec![
        ("h/changelog", FileData::Log(vec![entry(1, "a", "insert", None, [1, 0], "t")])),
        ("h/1/0", text(&["@area intro a1/l1", "p3/k3"])),
        ("c/a1/l1", text(&["p1/k1", "p2/k2"])),
        ("c/p1/k1", FileData::Bytes(b"first".to_vec())),
        ("c/p2/k2", FileData::Bytes(b"second".to_vec())),
        ("c/p3/k3", FileData::Bytes(b"after".to_vec())),
    ]);
    let doc = Document::load_newest(1, "h", "c", &fs, &no_roots()).unwrap();
    assert_eq!(doc.pars.len(), 2);
    match &doc.pars[0] {
        DocPart::Area(Area { name, parts }) => {
            assert_eq!(name, "intro");
            assert_eq!(parts.len(), 2);
            match (&parts[0], &parts[1]) {
                (DocPart::Par(a), DocPart::Par(b)) => {
                    assert_eq!(a.content, b"first".to_vec());
                    assert_eq!(b.content, b"second".to_vec());
                },
                other => panic!("expected two paragraphs, got {:?}", other),
            }
        },
        other => panic!("expected an area, got {:?}", other),
    }
}

#[test]
fn nested_areas_resolve() {
    let fs = store(vec![
        ("h/changelog", FileData::Log(vec![entry(1, "a", "insert", None, [1, 0], "t")])),
        ("h/1/0", text(&["@area outer a1/l1"])),
        ("c/a1/l1", text(&["@area inner a2/l2"])),
        ("c/a2/l2", text(&["p/k"])),
        ("c/p/k", FileData::Bytes(b"leaf".to_vec())),
    ]);
    let doc = Document::load_newest(1, "h", "c", &fs, &no_roots()).unwrap();
    match &doc.pars[0] {
        DocPart::Area(outer) => match &outer.parts[0] {
            DocPart::Area(inner) => {
                assert_eq!(inner.name, "inner");
                assert_eq!(inner.parts.len(), 1);
            },
            other => panic!("expected the inner area, got {:?}", other),
        },
        other => panic!("expected the outer area, got {:?}", other),
    }
}

#[test]
fn area_listing_cycle_detected() {
    let fs = store(vec![
        ("h/changelog", FileData::Log(vec![entry(1, "a", "insert", None, [1, 0], "t")])),
        ("h/1/0", text(&["@area loop a1/l1"])),
        ("c/a1/l1", text(&["@area again a1/l1"])),
    ]);
    let err = Document::load_newest(1, "h", "c", &fs, &no_roots()).unwrap_err();
    assert_eq!(err, DocError::ReferenceCycleDetected { dest_doc_id: 1 });
}

#[test]
fn wrong_shape_changelog_file() {
    let fs = store(vec![("h/changelog", text(&["not a log"]))]);
    let err = Document::load_newest(1, "h", "c", &fs, &no_roots()).unwrap_err();
    assert_eq!(err, DocError::NonExistentOrEmptyDocument { doc_id: 1 });
}

#[test]
fn error_kind_names() {
    let e = DocError::ParagraphNotFound { shard: "s".to_string(), key: "k".to_string() };
    assert_eq!(e.kind_name(), "ParagraphNotFound");
    let e = DocError::NonExistentOrEmptyDocument { doc_id: 3 };
    assert_eq!(e.kind_name(), "NonExistentOrEmptyDocument");
}
