use docwatch::changes::OwnedWordChange;
use docwatch::ledger::{NewDocument, NewRevision, RevisionStore, Snapshot, StoreError};

fn snapshot(name: &str, marker: &str, content: &str) -> Snapshot {
    Snapshot {
        name: name.to_string(),
        modified_time: marker.to_string(),
        content: content.to_string(),
        export_link: format!("https://export/{}", name),
        owner_username: "owner".to_string(),
    }
}

fn new_document(doc_id: &str, marker: &str, content: &str) -> NewDocument {
    NewDocument {
        doc_id: doc_id.to_string(),
        mime_type: "application/vnd.google-apps.document".to_string(),
        snapshot: snapshot(doc_id, marker, content),
    }
}

fn baseline(marker: &str, content: &str) -> NewRevision {
    NewRevision {
        revision_time: marker.to_string(),
        content: content.to_string(),
        diff: Vec::new(),
        added_words: 0,
        deleted_words: 0,
    }
}

#[test]
fn new_ledger_is_empty() {
    let store = RevisionStore::new();
    assert_eq!(store.document_count(), 0);
    assert_eq!(store.revision_count(), 0);
    assert!(store.find("a").is_none());
    assert!(store.list_revisions("a").is_empty());
    assert!(store.revision(1).is_none());
}

#[test]
fn created_document_has_its_baseline() {
    let mut store = RevisionStore::new();
    let id = store.create_document(new_document("a", "T1", "Hello world"), baseline("T1", "Hello world"));
    assert_eq!(id, Ok(1));
    assert_eq!(store.document_count(), 1);
    assert_eq!(store.revision_count(), 1);
    let document = store.find("a").unwrap();
    assert_eq!(document.id, 1);
    assert_eq!(document.doc_id, "a");
    assert_eq!(document.name, "a");
    assert_eq!(document.last_updated, "T1");
    assert_eq!(document.latest_content, "Hello world");
    assert_eq!(document.export_link, "https://export/a");
    assert_eq!(document.owner_username, "owner");
    assert_eq!(document.mime_type, "application/vnd.google-apps.document");
    let first = store.revision(1).unwrap();
    assert_eq!(first.document_id, 1);
    assert_eq!(first.revision_time, "T1");
    assert_eq!(first.content, "Hello world");
    assert!(first.diff.is_empty());
    assert_eq!((first.added_words, first.deleted_words), (0, 0));
}

#[test]
fn documents_are_numbered_in_order() {
    let mut store = RevisionStore::new();
    assert_eq!(store.create_document(new_document("a", "T1", "x"), baseline("T1", "x")), Ok(1));
    assert_eq!(store.create_document(new_document("b", "T1", "y"), baseline("T1", "y")), Ok(2));
    assert_eq!(store.create_document(new_document("c", "T2", ""), baseline("T2", "")), Ok(3));
    assert_eq!(store.find("b").unwrap().id, 2);
    assert_eq!(store.find("c").unwrap().latest_content, "");
    assert!(store.find("d").is_none());
}

#[test]
fn tracked_document_is_not_created_again() {
    let mut store = RevisionStore::new();
    store.create_document(new_document("a", "T1", "x"), baseline("T1", "x")).unwrap();
    let again = store.create_document(new_document("a", "T2", "y"), baseline("T2", "y"));
    assert_eq!(again, Err(StoreError::AlreadyTracked));
    assert_eq!(store.document_count(), 1);
    assert_eq!(store.revision_count(), 1);
    assert_eq!(store.find("a").unwrap().latest_content, "x");
}

#[test]
fn revision_that_is_no_baseline_is_refused() {
    let mut store = RevisionStore::new();
    let wrong_content = store.create_document(new_document("a", "T1", "x"), baseline("T1", "y"));
    assert_eq!(wrong_content, Err(StoreError::NotABaseline));
    let wrong_marker = store.create_document(new_document("a", "T1", "x"), baseline("T2", "x"));
    assert_eq!(wrong_marker, Err(StoreError::NotABaseline));
    let mut counted = baseline("T1", "x");
    counted.added_words = 1;
    assert_eq!(store.create_document(new_document("a", "T1", "x"), counted), Err(StoreError::NotABaseline));
    let mut with_diff = baseline("T1", "x");
    with_diff.diff.push(OwnedWordChange::Added("x".to_string()));
    assert_eq!(store.create_document(new_document("a", "T1", "x"), with_diff), Err(StoreError::NotABaseline));
    assert_eq!(store.document_count(), 0);
    assert_eq!(store.revision_count(), 0);
}

#[test]
fn recorded_change_updates_document_and_appends_revision() {
    let mut store = RevisionStore::new();
    store.create_document(new_document("a", "T1", "one"), baseline("T1", "one")).unwrap();
    store.create_document(new_document("b", "T1", "other"), baseline("T1", "other")).unwrap();
    let diff = vec![OwnedWordChange::Removed("one".to_string()), OwnedWordChange::Added("two".to_string())];
    let mut snap = snapshot("renamed", "T2", "two");
    snap.owner_username = "someone else".to_string();
    assert_eq!(store.record_change(1, snap, diff.clone(), 1, 1), Ok(()));
    assert_eq!(store.document_count(), 2);
    assert_eq!(store.revision_count(), 3);
    let document = store.find("a").unwrap();
    assert_eq!(document.id, 1);
    assert_eq!(document.name, "renamed");
    assert_eq!(document.last_updated, "T2");
    assert_eq!(document.latest_content, "two");
    assert_eq!(document.export_link, "https://export/renamed");
    assert_eq!(document.owner_username, "someone else");
    assert_eq!(document.mime_type, "application/vnd.google-apps.document");
    let latest = store.revision(3).unwrap();
    assert_eq!(latest.document_id, 1);
    assert_eq!(latest.revision_time, "T2");
    assert_eq!(latest.content, "two");
    assert_eq!(latest.diff, diff);
    assert_eq!((latest.added_words, latest.deleted_words), (1, 1));
    let untouched = store.find("b").unwrap();
    assert_eq!(untouched.latest_content, "other");
    assert_eq!(untouched.last_updated, "T1");
}

#[test]
fn earlier_revisions_are_never_changed() {
    let mut store = RevisionStore::new();
    store.create_document(new_document("a", "T1", "one"), baseline("T1", "one")).unwrap();
    store.record_change(1, snapshot("a", "T2", "two"), vec![OwnedWordChange::Added("two".to_string())], 1, 1).unwrap();
    store.record_change(1, snapshot("a", "T3", "three"), Vec::new(), 5, 6).unwrap();
    let first = store.revision(1).unwrap();
    assert_eq!(first.content, "one");
    assert_eq!(first.revision_time, "T1");
    assert!(first.diff.is_empty());
    let second = store.revision(2).unwrap();
    assert_eq!(second.content, "two");
    assert_eq!(second.revision_time, "T2");
    assert_eq!(store.find("a").unwrap().latest_content, store.revision(3).unwrap().content);
}

#[test]
fn change_of_unknown_document_is_refused() {
    let mut store = RevisionStore::new();
    store.create_document(new_document("a", "T1", "one"), baseline("T1", "one")).unwrap();
    for id in [0, -1, 2, i64::MAX, i64::MIN] {
        let out = store.record_change(id, snapshot("a", "T2", "two"), Vec::new(), 0, 0);
        assert_eq!(out, Err(StoreError::UnknownDocument));
    }
    assert_eq!(store.revision_count(), 1);
    assert_eq!(store.find("a").unwrap().latest_content, "one");
}

#[test]
fn history_is_newest_first() {
    let mut store = RevisionStore::new();
    store.create_document(new_document("a", "T1", "a1"), baseline("T1", "a1")).unwrap();
    store.create_document(new_document("b", "T1", "b1"), baseline("T1", "b1")).unwrap();
    store.record_change(1, snapshot("a", "T2", "a2"), Vec::new(), 3, 0).unwrap();
    store.record_change(2, snapshot("b", "T5", "b2"), Vec::new(), 0, 4).unwrap();
    store.record_change(1, snapshot("a", "T3", "a3"), Vec::new(), 1, 2).unwrap();
    let history = store.list_revisions("a");
    let lines: Vec<(i64, &str, usize, usize)> = history
        .iter()
        .map(|line| (line.id, line.revision_time.as_str(), line.added_words, line.deleted_words))
        .collect();
    assert_eq!(lines, vec![(5, "T3", 1, 2), (3, "T2", 3, 0), (1, "T1", 0, 0)]);
    let other: Vec<i64> = store.list_revisions("b").iter().map(|line| line.id).collect();
    assert_eq!(other, vec![4, 2]);
    assert!(store.list_revisions("c").is_empty());
}

#[test]
fn revision_by_number() {
    let mut store = RevisionStore::new();
    store.create_document(new_document("a", "T1", "a1"), baseline("T1", "a1")).unwrap();
    assert!(store.revision(0).is_none());
    assert!(store.revision(-3).is_none());
    assert!(store.revision(2).is_none());
    assert_eq!(store.revision(1).unwrap().content, "a1");
}
