use docwatch::changes::OwnedWordChange;
use docwatch::ledger::{Document, RevisionStore, StoreError};
use docwatch::reconcile::{
    fetchable_format, plan, reconcile, reconcile_all, settle, Candidate, FetchRequest, Format, Outcome,
    Settlement, Sighting, Step,
};

const NATIVE: &str = "application/vnd.google-apps.document";
const PACKAGED: &str = "application/vnd.openxmlformats-officedocument.wordprocessingml.document";

fn candidate(doc_id: &str, marker: &str, mime: &str) -> Candidate {
    Candidate {
        doc_id: doc_id.to_string(),
        name: format!("Name of {}", doc_id),
        modified_time: marker.to_string(),
        export_link: format!("https://export/{}", doc_id),
        owner_username: "Owner".to_string(),
        mime_type: mime.to_string(),
    }
}

fn stored(doc_id: &str, marker: &str, content: &str) -> Document {
    Document {
        id: 7,
        doc_id: doc_id.to_string(),
        name: "Old name".to_string(),
        last_updated: marker.to_string(),
        latest_content: content.to_string(),
        export_link: "https://old".to_string(),
        owner_username: "Old owner".to_string(),
        mime_type: NATIVE.to_string(),
    }
}

fn text(content: &str) -> Result<String, String> {
    Ok(content.to_string())
}

fn sighting(doc_id: &str, marker: &str, mime: &str, fetched: Result<String, String>) -> Sighting {
    Sighting { candidate: candidate(doc_id, marker, mime), fetched }
}

#[test]
fn formats_by_indicator() {
    assert_eq!(fetchable_format(NATIVE), Some(Format::Native));
    assert_eq!(fetchable_format(PACKAGED), Some(Format::Packaged));
    assert_eq!(fetchable_format("application/pdf"), None);
    assert_eq!(fetchable_format(""), None);
    assert_eq!(fetchable_format("APPLICATION/VND.GOOGLE-APPS.DOCUMENT"), None);
}

#[test]
fn unknown_document_is_fetched_by_its_format() {
    match plan(&candidate("a", "T1", NATIVE), None) {
        Step::Fetch(FetchRequest::Export { link }) => assert_eq!(link, "https://export/a"),
        _ => panic!("expected an export"),
    }
    match plan(&candidate("a", "T1", PACKAGED), None) {
        Step::Fetch(FetchRequest::Package { doc_id }) => assert_eq!(doc_id, "a"),
        _ => panic!("expected a download"),
    }
    assert!(matches!(plan(&candidate("a", "T1", "image/png"), None), Step::Unsupported));
}

#[test]
fn same_marker_asks_for_nothing() {
    let document = stored("a", "T1", "x");
    assert!(matches!(plan(&candidate("a", "T1", NATIVE), Some(&document)), Step::Idle));
    assert!(matches!(plan(&candidate("a", "T1", "image/png"), Some(&document)), Step::Idle));
}

#[test]
fn markers_are_compared_character_for_character() {
    let document = stored("a", "2024-01-01T10:00:00.000Z", "x");
    for marker in ["2024-01-01T10:00:00.000z", "2024-01-01T10:00:00Z", "2024-01-01T10:00:00.000Z ", ""] {
        assert!(matches!(plan(&candidate("a", marker, NATIVE), Some(&document)), Step::Fetch(_)));
    }
    assert!(matches!(
        plan(&candidate("a", "2023-01-01T00:00:00.000Z", "image/png"), Some(&document)),
        Step::Unsupported
    ));
}

#[test]
fn first_content_settles_as_document_with_baseline() {
    for content in ["", "Hello world", "many\nlines\n of  text"] {
        match settle(&candidate("a", "T1", PACKAGED), None, content.to_string()) {
            Settlement::Create { document, baseline } => {
                assert_eq!(document.doc_id, "a");
                assert_eq!(document.mime_type, PACKAGED);
                assert_eq!(document.snapshot.name, "Name of a");
                assert_eq!(document.snapshot.modified_time, "T1");
                assert_eq!(document.snapshot.content, content);
                assert_eq!(document.snapshot.export_link, "https://export/a");
                assert_eq!(document.snapshot.owner_username, "Owner");
                assert_eq!(baseline.revision_time, "T1");
                assert_eq!(baseline.content, content);
                assert!(baseline.diff.is_empty());
                assert_eq!((baseline.added_words, baseline.deleted_words), (0, 0));
            }
            _ => panic!("expected a creation"),
        }
    }
}

#[test]
fn changed_content_settles_as_revision() {
    let document = stored("a", "T1", "The quick fox");
    match settle(&candidate("a", "T2", NATIVE), Some(&document), "The quick brown fox".to_string()) {
        Settlement::Record { document_id, snapshot, diff, added_words, deleted_words } => {
            assert_eq!(document_id, 7);
            assert_eq!(snapshot.name, "Name of a");
            assert_eq!(snapshot.modified_time, "T2");
            assert_eq!(snapshot.content, "The quick brown fox");
            assert_eq!(snapshot.export_link, "https://export/a");
            assert_eq!(snapshot.owner_username, "Owner");
            assert_eq!((added_words, deleted_words), (2, 0));
            assert_eq!(
                diff,
                vec![
                    OwnedWordChange::Unchanged("The".to_string()),
                    OwnedWordChange::Unchanged(" ".to_string()),
                    OwnedWordChange::Unchanged("quick".to_string()),
                    OwnedWordChange::Unchanged(" ".to_string()),
                    OwnedWordChange::Added("brown".to_string()),
                    OwnedWordChange::Added(" ".to_string()),
                    OwnedWordChange::Unchanged("fox".to_string()),
                ]
            );
        }
        _ => panic!("expected a revision"),
    }
}

#[test]
fn same_content_settles_as_no_change() {
    let document = stored("a", "T1", "Hello world");
    let out = settle(&candidate("a", "T2", NATIVE), Some(&document), "Hello world".to_string());
    assert!(matches!(out, Settlement::NoChange));
    let empty = stored("a", "T1", "");
    assert!(matches!(settle(&candidate("a", "T2", NATIVE), Some(&empty), String::new()), Settlement::NoChange));
}

#[test]
fn first_sighting_creates_exactly_one_revision() {
    for content in ["", "Hello world", "x\ny"] {
        let mut store = RevisionStore::new();
        let outcome = reconcile(&mut store, &candidate("a", "T1", NATIVE), text(content));
        assert_eq!(outcome, Outcome::Created(1));
        assert_eq!(store.document_count(), 1);
        assert_eq!(store.revision_count(), 1);
        let first = store.revision(1).unwrap();
        assert!(first.diff.is_empty());
        assert_eq!((first.added_words, first.deleted_words), (0, 0));
        assert_eq!(first.content, content);
        assert_eq!(store.find("a").unwrap().latest_content, content);
    }
}

#[test]
fn unchanged_marker_writes_nothing() {
    let mut store = RevisionStore::new();
    reconcile(&mut store, &candidate("a", "T1", NATIVE), text("Hello world"));
    let mut renamed = candidate("a", "T1", NATIVE);
    renamed.name = "Another name".to_string();
    renamed.owner_username = "Another owner".to_string();
    let outcome = reconcile(&mut store, &renamed, text("Entirely different content"));
    assert_eq!(outcome, Outcome::UpToDate);
    assert_eq!(store.revision_count(), 1);
    let document = store.find("a").unwrap();
    assert_eq!(document.name, "Name of a");
    assert_eq!(document.owner_username, "Owner");
    assert_eq!(document.latest_content, "Hello world");
    assert_eq!(document.last_updated, "T1");
}

#[test]
fn changed_marker_with_same_content_writes_nothing() {
    let mut store = RevisionStore::new();
    reconcile(&mut store, &candidate("a", "T1", NATIVE), text("Hello world"));
    let mut touched = candidate("a", "T2", NATIVE);
    touched.name = "Another name".to_string();
    let outcome = reconcile(&mut store, &touched, text("Hello world"));
    assert_eq!(outcome, Outcome::NoChange);
    assert_eq!(store.document_count(), 1);
    assert_eq!(store.revision_count(), 1);
    let document = store.find("a").unwrap();
    assert_eq!(document.last_updated, "T1");
    assert_eq!(document.name, "Name of a");
    assert_eq!(document.latest_content, "Hello world");
}

#[test]
fn changed_content_appends_a_revision() {
    let mut store = RevisionStore::new();
    reconcile(&mut store, &candidate("a", "T1", NATIVE), text("The quick fox"));
    let outcome = reconcile(&mut store, &candidate("a", "T2", NATIVE), text("The quick brown fox"));
    assert_eq!(outcome, Outcome::Revised { added_words: 2, deleted_words: 0 });
    assert_eq!(store.revision_count(), 2);
    let document = store.find("a").unwrap();
    assert_eq!(document.last_updated, "T2");
    assert_eq!(document.latest_content, "The quick brown fox");
    let latest = store.revision(2).unwrap();
    assert_eq!(latest.content, "The quick brown fox");
    assert_eq!(latest.revision_time, "T2");
    assert_eq!((latest.added_words, latest.deleted_words), (2, 0));
    assert_eq!(latest.diff.len(), 7);
    let history: Vec<i64> = store.list_revisions("a").iter().map(|line| line.id).collect();
    assert_eq!(history, vec![2, 1]);
}

#[test]
fn unsupported_format_is_never_written() {
    let mut store = RevisionStore::new();
    let outcome = reconcile(&mut store, &candidate("a", "T1", "application/pdf"), text("content"));
    assert_eq!(outcome, Outcome::Unsupported);
    assert_eq!(store.document_count(), 0);
    assert_eq!(store.revision_count(), 0);
    assert!(store.find("a").is_none());
}

#[test]
fn failed_fetch_writes_nothing() {
    let mut store = RevisionStore::new();
    let first = reconcile(&mut store, &candidate("a", "T1", NATIVE), Err("no network".to_string()));
    assert_eq!(first, Outcome::FetchFailed("no network".to_string()));
    assert_eq!(store.document_count(), 0);
    reconcile(&mut store, &candidate("a", "T1", NATIVE), text("one"));
    let later = reconcile(&mut store, &candidate("a", "T2", NATIVE), Err("timeout".to_string()));
    assert_eq!(later, Outcome::FetchFailed("timeout".to_string()));
    assert_eq!(store.revision_count(), 1);
    assert_eq!(store.find("a").unwrap().last_updated, "T1");
}

#[test]
fn failed_document_is_picked_up_by_the_next_cycle() {
    let mut store = RevisionStore::new();
    reconcile(&mut store, &candidate("a", "T1", NATIVE), text("one"));
    reconcile(&mut store, &candidate("a", "T2", NATIVE), Err("timeout".to_string()));
    let retried = reconcile(&mut store, &candidate("a", "T2", NATIVE), text("one two"));
    assert_eq!(retried, Outcome::Revised { added_words: 2, deleted_words: 0 });
}

#[test]
fn one_failing_document_does_not_stop_the_cycle() {
    let mut store = RevisionStore::new();
    let listing = vec![
        sighting("a", "T1", NATIVE, text("first")),
        sighting("b", "T1", NATIVE, Err("fetch failed".to_string())),
        sighting("c", "T1", "image/png", text("picture")),
        sighting("d", "T1", PACKAGED, text("last")),
    ];
    let outcomes = reconcile_all(&mut store, Ok(listing)).unwrap();
    assert_eq!(
        outcomes,
        vec![
            Outcome::Created(1),
            Outcome::FetchFailed("fetch failed".to_string()),
            Outcome::Unsupported,
            Outcome::Created(2),
        ]
    );
    assert_eq!(store.document_count(), 2);
    assert_eq!(store.revision_count(), 2);
    assert!(store.find("b").is_none());
    assert_eq!(store.find("d").unwrap().latest_content, "last");
}

#[test]
fn failed_listing_ends_the_cycle_at_once() {
    let mut store = RevisionStore::new();
    reconcile(&mut store, &candidate("a", "T1", NATIVE), text("one"));
    let out = reconcile_all(&mut store, Err("listing unavailable".to_string()));
    assert_eq!(out, Err("listing unavailable".to_string()));
    assert_eq!(store.document_count(), 1);
    assert_eq!(store.revision_count(), 1);
}

#[test]
fn repeated_cycle_writes_nothing_more() {
    let mut store = RevisionStore::new();
    let cycle = || {
        vec![
            sighting("a", "T1", NATIVE, text("alpha")),
            sighting("b", "T1", PACKAGED, text("beta")),
        ]
    };
    assert_eq!(reconcile_all(&mut store, Ok(cycle())).unwrap(), vec![Outcome::Created(1), Outcome::Created(2)]);
    assert_eq!(reconcile_all(&mut store, Ok(cycle())).unwrap(), vec![Outcome::UpToDate, Outcome::UpToDate]);
    assert_eq!(reconcile_all(&mut store, Ok(Vec::new())).unwrap(), Vec::new());
    assert_eq!(store.revision_count(), 2);
}

#[test]
fn same_document_listed_twice_is_created_once() {
    let mut store = RevisionStore::new();
    let listing = vec![
        sighting("a", "T1", NATIVE, text("alpha")),
        sighting("a", "T2", NATIVE, text("alpha beta")),
    ];
    let outcomes = reconcile_all(&mut store, Ok(listing)).unwrap();
    assert_eq!(outcomes, vec![Outcome::Created(1), Outcome::Revised { added_words: 2, deleted_words: 0 }]);
    assert_eq!(store.document_count(), 1);
}

#[test]
fn store_errors_are_distinct() {
    assert_ne!(Outcome::StoreFailed(StoreError::Full), Outcome::StoreFailed(StoreError::UnknownDocument));
    assert_ne!(Outcome::NoChange, Outcome::UpToDate);
}
