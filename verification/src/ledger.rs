//! The append-only ledger of tracked documents and their revisions.
//!
//! Each document caches the content and the modified marker of its latest
//! revision. The two writes that the ledger offers change a document and its
//! revisions together, and nothing ever edits or removes a revision.

use crate::changes::{owned_script, Change, OwnedWordChange};
use crate::sequences::{lemma_filter_none, lemma_filter_push};
use crate::strings::same_text;
use vstd::prelude::*;

verus! {

/// What the source says of a document at one moment, with the content that
/// was fetched then.
pub struct Snapshot {
    /// The display name.
    pub name: String,
    /// The modified marker: an opaque string, only ever compared for
    /// equality.
    pub modified_time: String,
    /// The content as plain text.
    pub content: String,
    /// Where the plain text can be had.
    pub export_link: String,
    /// The owner's label.
    pub owner_username: String,
}

/// A document that is not yet in the ledger.
pub struct NewDocument {
    /// The id that the source gives the document.
    pub doc_id: String,
    /// The format indicator.
    pub mime_type: String,
    /// Its first snapshot.
    pub snapshot: Snapshot,
}

/// A revision that is not yet in the ledger.
pub struct NewRevision {
    /// The document's modified marker when the content was captured.
    pub revision_time: String,
    /// The whole content.
    pub content: String,
    /// The difference from the revision before; empty for a baseline.
    pub diff: Vec<OwnedWordChange>,
    /// How many tokens the difference adds.
    pub added_words: usize,
    /// How many tokens the difference removes.
    pub deleted_words: usize,
}

/// A tracked document.
pub struct Document {
    /// The ledger's own number for the document, from 1.
    pub id: i64,
    /// The id that the source gives the document.
    pub doc_id: String,
    /// The display name.
    pub name: String,
    /// The modified marker of the latest revision.
    pub last_updated: String,
    /// The content of the latest revision.
    pub latest_content: String,
    /// Where the plain text can be had.
    pub export_link: String,
    /// The owner's label.
    pub owner_username: String,
    /// The format indicator.
    pub mime_type: String,
}

/// One entry of the ledger.
pub struct DocumentRevision {
    /// The number of the document it belongs to.
    pub document_id: i64,
    /// The document's modified marker when the content was captured.
    pub revision_time: String,
    /// The whole content.
    pub content: String,
    /// The difference from the revision before; empty for a baseline.
    pub diff: Vec<OwnedWordChange>,
    /// How many tokens the difference adds.
    pub added_words: usize,
    /// How many tokens the difference removes.
    pub deleted_words: usize,
}

/// One line of a document's history.
pub struct RevisionSummary {
    /// The ledger's number for the revision, from 1.
    pub id: i64,
    /// The document's modified marker when the content was captured.
    pub revision_time: String,
    /// How many tokens the revision added.
    pub added_words: usize,
    /// How many tokens the revision removed.
    pub deleted_words: usize,
}

/// Why a write to the ledger was refused.
#[derive(Clone, Copy, Debug, PartialEq, Eq, Structural)]
pub enum StoreError {
    /// A document with this source id is tracked already.
    AlreadyTracked,
    /// The revision is no baseline of the document it came with.
    NotABaseline,
    /// No document has this number.
    UnknownDocument,
    /// The ledger cannot number another entry.
    Full,
}

pub struct SnapshotView {
    pub name: Seq<char>,
    pub modified_time: Seq<char>,
    pub content: Seq<char>,
    pub export_link: Seq<char>,
    pub owner_username: Seq<char>,
}

pub struct NewDocumentView {
    pub doc_id: Seq<char>,
    pub mime_type: Seq<char>,
    pub snapshot: SnapshotView,
}

pub struct NewRevisionView {
    pub revision_time: Seq<char>,
    pub content: Seq<char>,
    pub diff: Seq<Change>,
    pub added_words: nat,
    pub deleted_words: nat,
}

pub struct DocumentView {
    pub id: int,
    pub doc_id: Seq<char>,
    pub name: Seq<char>,
    pub last_updated: Seq<char>,
    pub latest_content: Seq<char>,
    pub export_link: Seq<char>,
    pub owner_username: Seq<char>,
    pub mime_type: Seq<char>,
}

pub struct RevisionView {
    pub document_id: int,
    pub revision_time: Seq<char>,
    pub content: Seq<char>,
    pub diff: Seq<Change>,
    pub added_words: nat,
    pub deleted_words: nat,
}

pub struct SummaryView {
    pub id: int,
    pub revision_time: Seq<char>,
    pub added_words: nat,
    pub deleted_words: nat,
}

impl View for Snapshot {
    type V = SnapshotView;

    open spec fn view(&self) -> SnapshotView {
        SnapshotView {
            name: self.name@,
            modified_time: self.modified_time@,
            content: self.content@,
            export_link: self.export_link@,
            owner_username: self.owner_username@,
        }
    }
}

impl View for NewDocument {
    type V = NewDocumentView;

    open spec fn view(&self) -> NewDocumentView {
        NewDocumentView {
            doc_id: self.doc_id@,
            mime_type: self.mime_type@,
            snapshot: self.snapshot@,
        }
    }
}

impl View for NewRevision {
    type V = NewRevisionView;

    open spec fn view(&self) -> NewRevisionView {
        NewRevisionView {
            revision_time: self.revision_time@,
            content: self.content@,
            diff: owned_script(self.diff@),
            added_words: self.added_words as nat,
            deleted_words: self.deleted_words as nat,
        }
    }
}

impl View for Document {
    type V = DocumentView;

    open spec fn view(&self) -> DocumentView {
        DocumentView {
            id: self.id as int,
            doc_id: self.doc_id@,
            name: self.name@,
            last_updated: self.last_updated@,
            latest_content: self.latest_content@,
            export_link: self.export_link@,
            owner_username: self.owner_username@,
            mime_type: self.mime_type@,
        }
    }
}

impl View for DocumentRevision {
    type V = RevisionView;

    open spec fn view(&self) -> RevisionView {
        RevisionView {
            document_id: self.document_id as int,
            revision_time: self.revision_time@,
            content: self.content@,
            diff: owned_script(self.diff@),
            added_words: self.added_words as nat,
            deleted_words: self.deleted_words as nat,
        }
    }
}

impl View for RevisionSummary {
    type V = SummaryView;

    open spec fn view(&self) -> SummaryView {
        SummaryView {
            id: self.id as int,
            revision_time: self.revision_time@,
            added_words: self.added_words as nat,
            deleted_words: self.deleted_words as nat,
        }
    }
}

/// The baseline of a new document: its first content under its first
/// marker, with an empty difference and nothing counted.
pub open spec fn baseline_of(document: NewDocumentView) -> NewRevisionView {
    NewRevisionView {
        revision_time: document.snapshot.modified_time,
        content: document.snapshot.content,
        diff: Seq::empty(),
        added_words: 0,
        deleted_words: 0,
    }
}

/// The document that a new document becomes under the number `id`.
pub open spec fn document_of(document: NewDocumentView, id: int) -> DocumentView {
    DocumentView {
        id,
        doc_id: document.doc_id,
        name: document.snapshot.name,
        last_updated: document.snapshot.modified_time,
        latest_content: document.snapshot.content,
        export_link: document.snapshot.export_link,
        owner_username: document.snapshot.owner_username,
        mime_type: document.mime_type,
    }
}

/// The entry that a new revision becomes for the document `document_id`.
pub open spec fn revision_of(revision: NewRevisionView, document_id: int) -> RevisionView {
    RevisionView {
        document_id,
        revision_time: revision.revision_time,
        content: revision.content,
        diff: revision.diff,
        added_words: revision.added_words,
        deleted_words: revision.deleted_words,
    }
}

/// A document after a change: the snapshot's name, marker, content, link and
/// owner; its number, source id and format stay.
pub open spec fn updated(document: DocumentView, snapshot: SnapshotView) -> DocumentView {
    DocumentView {
        id: document.id,
        doc_id: document.doc_id,
        name: snapshot.name,
        last_updated: snapshot.modified_time,
        latest_content: snapshot.content,
        export_link: snapshot.export_link,
        owner_username: snapshot.owner_username,
        mime_type: document.mime_type,
    }
}

/// The revision that a change to the document `document_id` appends.
pub open spec fn change_of(
    document_id: int,
    snapshot: SnapshotView,
    diff: Seq<Change>,
    added_words: nat,
    deleted_words: nat,
) -> RevisionView {
    RevisionView {
        document_id,
        revision_time: snapshot.modified_time,
        content: snapshot.content,
        diff,
        added_words,
        deleted_words,
    }
}

/// The line of a history that stands for the entry number `id`.
pub open spec fn summary_of(id: int, revision: RevisionView) -> SummaryView {
    SummaryView {
        id,
        revision_time: revision.revision_time,
        added_words: revision.added_words,
        deleted_words: revision.deleted_words,
    }
}

/// The revisions among `entries` of the document `document_id`, newest
/// first, each with its number in the ledger.
pub open spec fn history(entries: Seq<RevisionView>, document_id: int) -> Seq<SummaryView>
    decreases entries.len(),
{
    if entries.len() == 0 {
        Seq::empty()
    } else if entries.last().document_id == document_id {
        seq![summary_of(entries.len() as int, entries.last())] + history(
            entries.drop_last(),
            document_id,
        )
    } else {
        history(entries.drop_last(), document_id)
    }
}

/// What a ledger holds: its documents in the order of their numbers and its
/// revisions in the order in which they were written.
pub struct LedgerView {
    pub documents: Seq<DocumentView>,
    pub revisions: Seq<RevisionView>,
}

impl RevisionView {
    /// Whether the revision has an empty difference and counts nothing.
    pub open spec fn is_baseline(self) -> bool {
        self.diff.len() == 0 && self.added_words == 0 && self.deleted_words == 0
    }
}

impl LedgerView {
    /// The revisions of one document, oldest first.
    pub open spec fn revisions_of(self, document_id: int) -> Seq<RevisionView> {
        self.revisions.filter(|revision: RevisionView| revision.document_id == document_id)
    }

    /// Whether a document with this source id is tracked.
    pub open spec fn tracks(self, doc_id: Seq<char>) -> bool {
        exists|i: int| 0 <= i < self.documents.len() && (#[trigger] self.documents[i]).doc_id == doc_id
    }

    /// The tracked document with this source id, if there is one.
    pub open spec fn lookup(self, doc_id: Seq<char>) -> Option<DocumentView> {
        if self.tracks(doc_id) {
            let i = choose|i: int|
                0 <= i < self.documents.len() && (#[trigger] self.documents[i]).doc_id == doc_id;
            Some(self.documents[i])
        } else {
            None
        }
    }

    /// Whether a document caches its latest revision and began with a
    /// baseline.
    pub open spec fn caches_latest(self, document: DocumentView) -> bool {
        let own = self.revisions_of(document.id);
        &&& own.len() > 0
        &&& own.first().is_baseline()
        &&& own.last().content == document.latest_content
        &&& own.last().revision_time == document.last_updated
    }

    /// The ledger's invariant: documents are numbered from 1 in order, no two
    /// have the same source id, every revision belongs to a document, and
    /// every document caches the content and marker of its latest revision
    /// and has a baseline as its first.
    pub open spec fn is_consistent(self) -> bool {
        &&& forall|i: int|
            0 <= i < self.documents.len() ==> (#[trigger] self.documents[i]).id == i + 1
        &&& forall|i: int, j: int|
            0 <= i < j < self.documents.len() ==> (#[trigger] self.documents[i]).doc_id != (
            #[trigger] self.documents[j]).doc_id
        &&& forall|k: int|
            0 <= k < self.revisions.len() ==> 1 <= (#[trigger] self.revisions[k]).document_id
                <= self.documents.len()
        &&& forall|i: int|
            0 <= i < self.documents.len() ==> self.caches_latest(#[trigger] self.documents[i])
    }

    /// Whether `self` is `before` with more written to it: every revision of
    /// `before` stands unchanged at its place, and every document of `before`
    /// is still there under its number and source id.
    pub open spec fn extends(self, before: LedgerView) -> bool {
        &&& before.revisions.len() <= self.revisions.len()
        &&& self.revisions.take(before.revisions.len() as int) == before.revisions
        &&& before.documents.len() <= self.documents.len()
        &&& forall|i: int|
            0 <= i < before.documents.len() ==> {
                &&& (#[trigger] self.documents[i]).id == before.documents[i].id
                &&& self.documents[i].doc_id == before.documents[i].doc_id
            }
    }
}

/// What a vector of documents stands for.
pub open spec fn document_views(documents: Seq<Document>) -> Seq<DocumentView> {
    documents.map_values(|document: Document| document@)
}

/// What a vector of revisions stands for.
pub open spec fn revision_views(revisions: Seq<DocumentRevision>) -> Seq<RevisionView> {
    revisions.map_values(|revision: DocumentRevision| revision@)
}

/// What a vector of summaries stands for.
pub open spec fn summary_views(summaries: Seq<RevisionSummary>) -> Seq<SummaryView> {
    summaries.map_values(|summary: RevisionSummary| summary@)
}

/// In a consistent ledger the document with a given source id is the one
/// that `lookup` gives.
pub proof fn lemma_lookup_is_unique(ledger: LedgerView, i: int)
    requires
        ledger.is_consistent(),
        0 <= i < ledger.documents.len(),
    ensures
        ledger.lookup(ledger.documents[i].doc_id) == Some(ledger.documents[i]),
{
    let doc_id = ledger.documents[i].doc_id;
    assert(ledger.tracks(doc_id));
    let j = choose|j: int|
        0 <= j < ledger.documents.len() && (#[trigger] ledger.documents[j]).doc_id == doc_id;
    if j < i {
        assert(ledger.documents[j].doc_id != ledger.documents[i].doc_id);
    } else if i < j {
        assert(ledger.documents[i].doc_id != ledger.documents[j].doc_id);
    }
}

/// What two vectors of documents and revisions hold together.
pub open spec fn ledger_of(documents: Seq<Document>, revisions: Seq<DocumentRevision>) -> LedgerView {
    LedgerView { documents: document_views(documents), revisions: revision_views(revisions) }
}

/// Whether a vector of `len` entries can take one more and still number
/// each of them.
fn has_room(len: usize) -> (room: bool)
    ensures
        room == (len < i64::MAX),
{
    (len as u64) < 0x7fff_ffff_ffff_ffffu64
}

/// The place of the document with the source id `doc_id`.
fn position(documents: &Vec<Document>, doc_id: &str) -> (place: Option<usize>)
    ensures
        match place {
            Some(i) => i < documents@.len() && documents@[i as int].doc_id@ == doc_id@,
            None => forall|i: int|
                0 <= i < documents@.len() ==> (#[trigger] documents@[i]).doc_id@ != doc_id@,
        },
{
    let n = documents.len();
    let mut i: usize = 0;
    while i < n
        invariant
            n == documents@.len(),
            i <= n,
            forall|k: int| 0 <= k < i ==> (#[trigger] documents@[k]).doc_id@ != doc_id@,
        decreases n - i,
    {
        if same_text(documents[i].doc_id.as_str(), doc_id) {
            return Some(i);
        }
        i = i + 1;
    }
    None
}

/// Whether `revision` is the baseline of `document`.
fn is_baseline_of(document: &NewDocument, revision: &NewRevision) -> (is: bool)
    ensures
        is == (revision@ == baseline_of(document@)),
{
    let is = same_text(revision.revision_time.as_str(), document.snapshot.modified_time.as_str())
        && same_text(revision.content.as_str(), document.snapshot.content.as_str())
        && revision.diff.len() == 0 && revision.added_words == 0 && revision.deleted_words == 0;
    proof {
        if revision.diff@.len() == 0 {
            assert(owned_script(revision.diff@) =~= Seq::<Change>::empty());
        }
    }
    is
}

/// Appends a document and its baseline.
fn insert_document(
    documents: &mut Vec<Document>,
    revisions: &mut Vec<DocumentRevision>,
    document: NewDocument,
    baseline: NewRevision,
) -> (id: i64)
    requires
        ledger_of(old(documents)@, old(revisions)@).is_consistent(),
        old(documents)@.len() < i64::MAX,
        !ledger_of(old(documents)@, old(revisions)@).tracks(document.doc_id@),
        baseline@ == baseline_of(document@),
    ensures
        id == old(documents)@.len() + 1,
        ledger_of(final(documents)@, final(revisions)@).is_consistent(),
        document_views(final(documents)@) == document_views(old(documents)@).push(
            document_of(document@, id as int),
        ),
        revision_views(final(revisions)@) == revision_views(old(revisions)@).push(
            revision_of(baseline@, id as int),
        ),
{
    let ghost before = ledger_of(documents@, revisions@);
    let ghost new_view = document@;
    let ghost baseline_view = baseline@;
    let id = (documents.len() as i64) + 1;
    let entry = Document {
        id,
        doc_id: document.doc_id,
        name: document.snapshot.name,
        last_updated: document.snapshot.modified_time,
        latest_content: document.snapshot.content,
        export_link: document.snapshot.export_link,
        owner_username: document.snapshot.owner_username,
        mime_type: document.mime_type,
    };
    let first = DocumentRevision {
        document_id: id,
        revision_time: baseline.revision_time,
        content: baseline.content,
        diff: baseline.diff,
        added_words: baseline.added_words,
        deleted_words: baseline.deleted_words,
    };
    documents.push(entry);
    revisions.push(first);
    proof {
        let after = ledger_of(documents@, revisions@);
        let n = before.documents.len() as int;
        let rev = revision_of(baseline_view, n + 1);
        assert(after.documents =~= before.documents.push(document_of(new_view, n + 1)));
        assert(after.revisions =~= before.revisions.push(rev));
        assert forall|i: int, j: int| 0 <= i < j < after.documents.len() implies (
        #[trigger] after.documents[i]).doc_id != (#[trigger] after.documents[j]).doc_id by {
            if j == n {
                assert(before.documents[i].doc_id != new_view.doc_id);
            } else {
                assert(before.documents[i].doc_id != before.documents[j].doc_id);
            }
        }
        assert forall|k: int| 0 <= k < after.revisions.len() implies 1 <= (
        #[trigger] after.revisions[k]).document_id <= after.documents.len() by {
            if k < before.revisions.len() {
                assert(1 <= before.revisions[k].document_id <= n);
            }
        }
        assert forall|i: int| 0 <= i < after.documents.len() implies after.caches_latest(
            #[trigger] after.documents[i],
        ) by {
            let own_id = after.documents[i].id;
            lemma_filter_push(
                before.revisions,
                rev,
                |revision: RevisionView| revision.document_id == own_id,
            );
            if i < n {
                assert(before.caches_latest(before.documents[i]));
                assert(after.revisions_of(own_id) == before.revisions_of(own_id));
            } else {
                assert forall|k: int| 0 <= k < before.revisions.len() implies !(
                #[trigger] before.revisions[k].document_id == own_id) by {
                    assert(1 <= before.revisions[k].document_id <= n);
                }
                lemma_filter_none(
                    before.revisions,
                    |revision: RevisionView| revision.document_id == own_id,
                );
                assert(after.revisions_of(own_id) =~= seq![rev]);
            }
        }
    }
    id
}

/// Appends a revision of the document at `place` and puts the snapshot into
/// the document.
fn append_change(
    documents: &mut Vec<Document>,
    revisions: &mut Vec<DocumentRevision>,
    place: usize,
    snapshot: Snapshot,
    diff: Vec<OwnedWordChange>,
    added_words: usize,
    deleted_words: usize,
)
    requires
        ledger_of(old(documents)@, old(revisions)@).is_consistent(),
        place < old(documents)@.len(),
        old(documents)@.len() <= i64::MAX,
    ensures
        ledger_of(final(documents)@, final(revisions)@).is_consistent(),
        document_views(final(documents)@) == document_views(old(documents)@).update(
            place as int,
            updated(old(documents)@[place as int]@, snapshot@),
        ),
        revision_views(final(revisions)@) == revision_views(old(revisions)@).push(
            change_of(
                place + 1,
                snapshot@,
                owned_script(diff@),
                added_words as nat,
                deleted_words as nat,
            ),
        ),
{
    let ghost before = ledger_of(documents@, revisions@);
    let ghost snap = snapshot@;
    let ghost rev = change_of(
        place + 1,
        snapshot@,
        owned_script(diff@),
        added_words as nat,
        deleted_words as nat,
    );
    let current = &documents[place];
    assert(before.documents[place as int].id == place + 1);
    let id = current.id;
    let entry = Document {
        id,
        doc_id: current.doc_id.clone(),
        name: snapshot.name,
        last_updated: snapshot.modified_time.clone(),
        latest_content: snapshot.content.clone(),
        export_link: snapshot.export_link,
        owner_username: snapshot.owner_username,
        mime_type: current.mime_type.clone(),
    };
    let next = DocumentRevision {
        document_id: id,
        revision_time: snapshot.modified_time,
        content: snapshot.content,
        diff,
        added_words,
        deleted_words,
    };
    documents.set(place, entry);
    revisions.push(next);
    proof {
        let after = ledger_of(documents@, revisions@);
        assert(after.documents =~= before.documents.update(
            place as int,
            updated(before.documents[place as int], snap),
        ));
        assert(after.revisions =~= before.revisions.push(rev));
        assert forall|i: int, j: int| 0 <= i < j < after.documents.len() implies (
        #[trigger] after.documents[i]).doc_id != (#[trigger] after.documents[j]).doc_id by {
            assert(before.documents[i].doc_id != before.documents[j].doc_id);
        }
        assert forall|k: int| 0 <= k < after.revisions.len() implies 1 <= (
        #[trigger] after.revisions[k]).document_id <= after.documents.len() by {
            if k < before.revisions.len() {
                assert(1 <= before.revisions[k].document_id <= before.documents.len());
            }
        }
        assert forall|i: int| 0 <= i < after.documents.len() implies after.caches_latest(
            #[trigger] after.documents[i],
        ) by {
            let own_id = after.documents[i].id;
            assert(before.documents[i].id == own_id);
            assert(before.caches_latest(before.documents[i]));
            lemma_filter_push(
                before.revisions,
                rev,
                |revision: RevisionView| revision.document_id == own_id,
            );
            if i != place {
                assert(after.revisions_of(own_id) == before.revisions_of(own_id));
            } else {
                let own = before.revisions_of(own_id);
                assert(after.revisions_of(own_id) == own.push(rev));
                assert(own.push(rev).first() == own.first());
            }
        }
    }
}

/// An append-only ledger of documents and their revisions.
pub struct RevisionStore {
    documents: Vec<Document>,
    revisions: Vec<DocumentRevision>,
}

impl View for RevisionStore {
    type V = LedgerView;

    closed spec fn view(&self) -> LedgerView {
        ledger_of(self.documents@, self.revisions@)
    }
}

impl RevisionStore {
    /// Whether the ledger is consistent and its entries can be numbered.
    pub open spec fn wf(&self) -> bool {
        &&& self@.is_consistent()
        &&& self@.documents.len() <= i64::MAX
        &&& self@.revisions.len() <= i64::MAX
    }

    /// A ledger with nothing in it.
    pub fn new() -> (store: RevisionStore)
        ensures
            store.wf(),
            store@.documents.len() == 0,
            store@.revisions.len() == 0,
    {
        let store = RevisionStore { documents: Vec::new(), revisions: Vec::new() };
        assert(store@.documents =~= Seq::<DocumentView>::empty());
        store
    }

    /// The tracked document with the source id `doc_id`.
    pub fn find(&self, doc_id: &str) -> (found: Option<&Document>)
        requires
            self.wf(),
        ensures
            match found {
                Some(document) => self@.lookup(doc_id@) == Some(document@),
                None => self@.lookup(doc_id@) is None,
            },
    {
        match position(&self.documents, doc_id) {
            Some(i) => {
                proof {
                    assert(self@.documents[i as int] == self.documents@[i as int]@);
                    lemma_lookup_is_unique(self@, i as int);
                }
                Some(&self.documents[i])
            },
            None => {
                proof {
                    if self@.tracks(doc_id@) {
                        let i = choose|i: int|
                            0 <= i < self@.documents.len() && (
                            #[trigger] self@.documents[i]).doc_id == doc_id@;
                        assert(self.documents@[i].doc_id@ != doc_id@);
                    }
                }
                None
            },
        }
    }

    /// Tracks a new document and writes its baseline, both or neither.
    ///
    /// Refused where the source id is tracked already, where `baseline` is
    /// not the document's first content with an empty difference and zero
    /// counts, and where the ledger is full. On success exactly one document
    /// and one revision are appended.
    pub fn create_document(&mut self, document: NewDocument, baseline: NewRevision) -> (out:
        Result<i64, StoreError>)
        requires
            old(self).wf(),
        ensures
            final(self).wf(),
            final(self)@.extends(old(self)@),
            out is Ok <==> {
                &&& !old(self)@.tracks(document.doc_id@)
                &&& baseline@ == baseline_of(document@)
                &&& old(self)@.documents.len() < i64::MAX
                &&& old(self)@.revisions.len() < i64::MAX
            },
            match out {
                Ok(id) => {
                    &&& !old(self)@.tracks(document.doc_id@)
                    &&& baseline@ == baseline_of(document@)
                    &&& id == old(self)@.documents.len() + 1
                    &&& final(self)@.documents == old(self)@.documents.push(
                        document_of(document@, id as int),
                    )
                    &&& final(self)@.revisions == old(self)@.revisions.push(
                        revision_of(baseline@, id as int),
                    )
                },
                Err(error) => {
                    &&& final(self)@ == old(self)@
                    &&& error == if old(self)@.tracks(document.doc_id@) {
                        StoreError::AlreadyTracked
                    } else if baseline@ != baseline_of(document@) {
                        StoreError::NotABaseline
                    } else {
                        StoreError::Full
                    }
                },
            },
    {
        let ghost before = self@;
        proof {
            assert(before.revisions.take(before.revisions.len() as int) =~= before.revisions);
        }
        let place = position(&self.documents, document.doc_id.as_str());
        if place.is_some() {
            assert(before.documents[place.unwrap() as int].doc_id == document.doc_id@);
            return Err(StoreError::AlreadyTracked);
        }
        assert(!before.tracks(document.doc_id@)) by {
            if before.tracks(document.doc_id@) {
                let i = choose|i: int|
                    0 <= i < before.documents.len() && (#[trigger] before.documents[i]).doc_id
                        == document.doc_id@;
                assert(self.documents@[i].doc_id@ != document.doc_id@);
            }
        }
        if !is_baseline_of(&document, &baseline) {
            return Err(StoreError::NotABaseline);
        }
        if !has_room(self.documents.len()) || !has_room(self.revisions.len()) {
            return Err(StoreError::Full);
        }
        let id = insert_document(&mut self.documents, &mut self.revisions, document, baseline);
        proof {
            assert(self@.revisions.take(before.revisions.len() as int) =~= before.revisions);
        }
        Ok(id)
    }

    /// Appends a revision of the document `document_id` and puts the
    /// snapshot's name, marker, content, link and owner into the document,
    /// both or neither.
    ///
    /// Refused where no document has that number and where the ledger is
    /// full.
    pub fn record_change(
        &mut self,
        document_id: i64,
        snapshot: Snapshot,
        diff: Vec<OwnedWordChange>,
        added_words: usize,
        deleted_words: usize,
    ) -> (out: Result<(), StoreError>)
        requires
            old(self).wf(),
        ensures
            final(self).wf(),
            final(self)@.extends(old(self)@),
            out is Ok <==> {
                &&& 1 <= document_id <= old(self)@.documents.len()
                &&& old(self)@.revisions.len() < i64::MAX
            },
            match out {
                Ok(_) => {
                    &&& 1 <= document_id <= old(self)@.documents.len()
                    &&& final(self)@.documents == old(self)@.documents.update(
                        document_id - 1,
                        updated(old(self)@.documents[document_id - 1], snapshot@),
                    )
                    &&& final(self)@.revisions == old(self)@.revisions.push(
                        change_of(
                            document_id as int,
                            snapshot@,
                            owned_script(diff@),
                            added_words as nat,
                            deleted_words as nat,
                        ),
                    )
                },
                Err(error) => {
                    &&& final(self)@ == old(self)@
                    &&& error == if 1 <= document_id <= old(self)@.documents.len() {
                        StoreError::Full
                    } else {
                        StoreError::UnknownDocument
                    }
                },
            },
    {
        let ghost before = self@;
        proof {
            assert(before.revisions.take(before.revisions.len() as int) =~= before.revisions);
        }
        if document_id < 1 || document_id as u64 > self.documents.len() as u64 {
            return Err(StoreError::UnknownDocument);
        }
        if !has_room(self.revisions.len()) {
            return Err(StoreError::Full);
        }
        let place = (document_id - 1) as usize;
        append_change(
            &mut self.documents,
            &mut self.revisions,
            place,
            snapshot,
            diff,
            added_words,
            deleted_words,
        );
        proof {
            assert(self@.revisions.take(before.revisions.len() as int) =~= before.revisions);
        }
        Ok(())
    }

    /// The history of the document with the source id `doc_id`: one line for
    /// each of its revisions, the newest first. Empty where no such document
    /// is tracked.
    pub fn list_revisions(&self, doc_id: &str) -> (out: Vec<RevisionSummary>)
        requires
            self.wf(),
        ensures
            summary_views(out@) == match self@.lookup(doc_id@) {
                Some(document) => history(self@.revisions, document.id),
                None => Seq::empty(),
            },
    {
        let mut out: Vec<RevisionSummary> = Vec::new();
        let document_id = match self.find(doc_id) {
            Some(document) => document.id,
            None => {
                proof {
                    assert(summary_views(out@) =~= Seq::<SummaryView>::empty());
                }
                return out;
            },
        };
        let ghost entries = self@.revisions;
        let mut k: usize = self.revisions.len();
        proof {
            assert(entries.take(k as int) =~= entries);
            assert(summary_views(out@) =~= Seq::<SummaryView>::empty());
        }
        while k > 0
            invariant
                k <= self.revisions@.len(),
                entries == self@.revisions,
                entries.len() <= i64::MAX,
                summary_views(out@) + history(entries.take(k as int), document_id as int)
                    == history(entries, document_id as int),
            decreases k,
        {
            let revision = &self.revisions[k - 1];
            proof {
                assert(entries.take(k as int).drop_last() =~= entries.take(k - 1));
                assert(entries.take(k as int).last() == revision@);
            }
            if revision.document_id == document_id {
                let line = RevisionSummary {
                    id: k as i64,
                    revision_time: revision.revision_time.clone(),
                    added_words: revision.added_words,
                    deleted_words: revision.deleted_words,
                };
                proof {
                    let rest = history(entries.take(k - 1), document_id as int);
                    assert(summary_views(out@.push(line)) =~= summary_views(out@).push(line@));
                    assert(summary_views(out@).push(line@) + rest =~= summary_views(out@) + (
                    seq![line@] + rest));
                }
                out.push(line);
            }
            k = k - 1;
        }
        proof {
            assert(summary_views(out@) + Seq::<SummaryView>::empty() =~= summary_views(out@));
        }
        out
    }

    /// The revision that the ledger numbers `revision_id`.
    pub fn revision(&self, revision_id: i64) -> (found: Option<&DocumentRevision>)
        requires
            self.wf(),
        ensures
            match found {
                Some(revision) => 1 <= revision_id <= self@.revisions.len() && revision@
                    == self@.revisions[revision_id - 1],
                None => !(1 <= revision_id <= self@.revisions.len()),
            },
    {
        if revision_id < 1 || revision_id as u64 > self.revisions.len() as u64 {
            None
        } else {
            Some(&self.revisions[(revision_id - 1) as usize])
        }
    }

    /// How many documents are tracked.
    pub fn document_count(&self) -> (count: usize)
        ensures
            count == self@.documents.len(),
    {
        self.documents.len()
    }

    /// How many revisions were written.
    pub fn revision_count(&self) -> (count: usize)
        ensures
            count == self@.revisions.len(),
    {
        self.revisions.len()
    }
}

/// In a consistent ledger the document that `lookup` gives stands at the
/// place that its number names and has the source id that was asked for.
pub proof fn lemma_lookup_found(ledger: LedgerView, doc_id: Seq<char>)
    requires
        ledger.is_consistent(),
        ledger.lookup(doc_id) is Some,
    ensures
        ledger.tracks(doc_id),
        1 <= ledger.lookup(doc_id)->0.id <= ledger.documents.len(),
        ledger.documents[ledger.lookup(doc_id)->0.id - 1] == ledger.lookup(doc_id)->0,
        ledger.lookup(doc_id)->0.doc_id == doc_id,
{
}

/// A history runs from the newest revision to the oldest: each line stands
/// for a revision of the document, under that revision's number, and the
/// numbers fall from line to line.
pub proof fn lemma_history_is_newest_first(entries: Seq<RevisionView>, document_id: int)
    ensures
        forall|k: int|
            0 <= k < history(entries, document_id).len() ==> {
                let line = #[trigger] history(entries, document_id)[k];
                &&& 1 <= line.id <= entries.len()
                &&& entries[line.id - 1].document_id == document_id
                &&& line == summary_of(line.id, entries[line.id - 1])
            },
        forall|k: int|
            0 <= k < history(entries, document_id).len() - 1 ==> (#[trigger] history(
                entries,
                document_id,
            )[k]).id > history(entries, document_id)[k + 1].id,
        history(entries, document_id).len() == entries.filter(
            |revision: RevisionView| revision.document_id == document_id,
        ).len(),
    decreases entries.len(),
{
    reveal(Seq::filter);
    if entries.len() > 0 {
        let front = entries.drop_last();
        lemma_history_is_newest_first(front, document_id);
        let lines = history(entries, document_id);
        let rest = history(front, document_id);
        if entries.last().document_id == document_id {
            assert forall|k: int| 0 <= k < lines.len() implies {
                let line = #[trigger] lines[k];
                &&& 1 <= line.id <= entries.len()
                &&& entries[line.id - 1].document_id == document_id
                &&& line == summary_of(line.id, entries[line.id - 1])
            } by {
                if k > 0 {
                    assert(lines[k] == rest[k - 1]);
                    assert(front[rest[k - 1].id - 1] == entries[rest[k - 1].id - 1]);
                }
            }
            assert forall|k: int| 0 <= k < lines.len() - 1 implies (#[trigger] lines[k]).id
                > lines[k + 1].id by {
                assert(lines[k + 1] == rest[k]);
                if k > 0 {
                    assert(lines[k] == rest[k - 1]);
                }
            }
        } else {
            assert forall|k: int| 0 <= k < lines.len() implies {
                let line = #[trigger] lines[k];
                &&& 1 <= line.id <= entries.len()
                &&& entries[line.id - 1].document_id == document_id
                &&& line == summary_of(line.id, entries[line.id - 1])
            } by {
                assert(front[rest[k].id - 1] == entries[rest[k].id - 1]);
            }
        }
    }
}

} // verus!
