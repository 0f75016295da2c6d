//! Reconciling the ledger with what the source lists: for each listed
//! document, whether its content has to be fetched, and what is written once
//! the content is there.

use crate::changes::{
    added_count, count_words_from_diff, owned_changes, owned_script, removed_count, table_fits,
    try_diff_words, word_diff, Change, OwnedWordChange,
};
use crate::ledger::{
    baseline_of, change_of, document_of, lemma_lookup_found, revision_of, updated, Document,
    DocumentView, LedgerView, NewDocument, NewDocumentView, NewRevision, NewRevisionView,
    RevisionStore, Snapshot, SnapshotView, StoreError,
};
use crate::strings::same_text;
use crate::tokens::tokens;
use vstd::prelude::*;

verus! {

/// The format indicator of a native rich-text document.
pub const NATIVE_DOCUMENT: &'static str = "application/vnd.google-apps.document";

/// The format indicator of a packaged XML word-processing document.
pub const PACKAGED_DOCUMENT: &'static str =
    "application/vnd.openxmlformats-officedocument.wordprocessingml.document";

/// The formats whose text can be fetched.
#[derive(Clone, Copy, Debug, PartialEq, Eq, Structural)]
pub enum Format {
    /// A native rich-text document, which the source exports as plain text.
    Native,
    /// A packaged XML word-processing document, which is downloaded whole.
    Packaged,
}

/// One document of the source's listing.
pub struct Candidate {
    /// The id that the source gives the document.
    pub doc_id: String,
    /// The display name.
    pub name: String,
    /// The modified marker.
    pub modified_time: String,
    /// Where the plain text can be had; may be empty for a packaged
    /// document.
    pub export_link: String,
    /// The owner's label.
    pub owner_username: String,
    /// The format indicator.
    pub mime_type: String,
}

pub struct CandidateView {
    pub doc_id: Seq<char>,
    pub name: Seq<char>,
    pub modified_time: Seq<char>,
    pub export_link: Seq<char>,
    pub owner_username: Seq<char>,
    pub mime_type: Seq<char>,
}

impl View for Candidate {
    type V = CandidateView;

    open spec fn view(&self) -> CandidateView {
        CandidateView {
            doc_id: self.doc_id@,
            name: self.name@,
            modified_time: self.modified_time@,
            export_link: self.export_link@,
            owner_username: self.owner_username@,
            mime_type: self.mime_type@,
        }
    }
}

/// How a document's text is to be fetched.
pub enum FetchRequest {
    /// Ask the export link for the plain text.
    Export { link: String },
    /// Download the document `doc_id` whole and take the text out of it.
    Package { doc_id: String },
}

pub enum FetchView {
    Export { link: Seq<char> },
    Package { doc_id: Seq<char> },
}

impl View for FetchRequest {
    type V = FetchView;

    open spec fn view(&self) -> FetchView {
        match *self {
            FetchRequest::Export { link } => FetchView::Export { link: link@ },
            FetchRequest::Package { doc_id } => FetchView::Package { doc_id: doc_id@ },
        }
    }
}

/// What a listed document asks for before anything is fetched.
pub enum Step {
    /// The marker is the stored one: nothing to do.
    Idle,
    /// The format is none of those that can be fetched: the document is
    /// skipped.
    Unsupported,
    /// The content has to be fetched.
    Fetch(FetchRequest),
}

pub enum StepView {
    Idle,
    Unsupported,
    Fetch(FetchView),
}

impl View for Step {
    type V = StepView;

    open spec fn view(&self) -> StepView {
        match *self {
            Step::Idle => StepView::Idle,
            Step::Unsupported => StepView::Unsupported,
            Step::Fetch(request) => StepView::Fetch(request@),
        }
    }
}

/// What is written once a listed document's content is there.
pub enum Settlement {
    /// Track the document and write its baseline.
    Create { document: NewDocument, baseline: NewRevision },
    /// Append a revision and put the snapshot into the document.
    Record {
        document_id: i64,
        snapshot: Snapshot,
        diff: Vec<OwnedWordChange>,
        added_words: usize,
        deleted_words: usize,
    },
    /// The difference adds nothing and removes nothing: nothing is written,
    /// although the marker changed.
    NoChange,
    /// The two contents have too many tokens to be aligned: nothing is
    /// written.
    TooLarge,
}

pub enum SettlementView {
    Create { document: NewDocumentView, baseline: NewRevisionView },
    Record {
        document_id: int,
        snapshot: SnapshotView,
        diff: Seq<Change>,
        added_words: nat,
        deleted_words: nat,
    },
    NoChange,
    TooLarge,
}

impl View for Settlement {
    type V = SettlementView;

    open spec fn view(&self) -> SettlementView {
        match *self {
            Settlement::Create { document, baseline } => SettlementView::Create {
                document: document@,
                baseline: baseline@,
            },
            Settlement::Record { document_id, snapshot, diff, added_words, deleted_words } =>
                SettlementView::Record {
                document_id: document_id as int,
                snapshot: snapshot@,
                diff: owned_script(diff@),
                added_words: added_words as nat,
                deleted_words: deleted_words as nat,
            },
            Settlement::NoChange => SettlementView::NoChange,
            Settlement::TooLarge => SettlementView::TooLarge,
        }
    }
}

/// The format that an indicator names, if it is one that can be fetched.
pub open spec fn format_of(mime_type: Seq<char>) -> Option<Format> {
    if mime_type == NATIVE_DOCUMENT@ {
        Some(Format::Native)
    } else if mime_type == PACKAGED_DOCUMENT@ {
        Some(Format::Packaged)
    } else {
        None
    }
}

/// How the content of a listed document is fetched, by its format.
pub open spec fn fetch_of(candidate: CandidateView) -> Option<FetchView> {
    match format_of(candidate.mime_type) {
        Some(Format::Native) => Some(FetchView::Export { link: candidate.export_link }),
        Some(Format::Packaged) => Some(FetchView::Package { doc_id: candidate.doc_id }),
        None => None,
    }
}

/// What a listed document asks for, given the tracked document with its id:
/// nothing where the stored marker is exactly the listed one, else its
/// content by the way of its format, and a skip where the format is none that
/// can be fetched.
pub open spec fn plan_of(candidate: CandidateView, stored: Option<DocumentView>) -> StepView {
    if stored is Some && stored->0.last_updated == candidate.modified_time {
        StepView::Idle
    } else {
        match fetch_of(candidate) {
            Some(request) => StepView::Fetch(request),
            None => StepView::Unsupported,
        }
    }
}

/// The snapshot that a listed document and its fetched content make.
pub open spec fn snapshot_of(candidate: CandidateView, content: Seq<char>) -> SnapshotView {
    SnapshotView {
        name: candidate.name,
        modified_time: candidate.modified_time,
        content,
        export_link: candidate.export_link,
        owner_username: candidate.owner_username,
    }
}

/// The new document that a listed document and its fetched content make.
pub open spec fn new_document_of(candidate: CandidateView, content: Seq<char>) -> NewDocumentView {
    NewDocumentView {
        doc_id: candidate.doc_id,
        mime_type: candidate.mime_type,
        snapshot: snapshot_of(candidate, content),
    }
}

/// What is written for a listed document whose content was fetched: for an
/// untracked one the document and its baseline; for a tracked one a revision
/// with the word-level difference from the stored content, unless that
/// difference adds and removes nothing.
pub open spec fn settlement_of(
    candidate: CandidateView,
    stored: Option<DocumentView>,
    content: Seq<char>,
) -> SettlementView {
    match stored {
        None => SettlementView::Create {
            document: new_document_of(candidate, content),
            baseline: baseline_of(new_document_of(candidate, content)),
        },
        Some(document) => {
            let changes = word_diff(document.latest_content, content);
            if !table_fits(tokens(document.latest_content).len(), tokens(content).len()) {
                SettlementView::TooLarge
            } else if added_count(changes) == 0 && removed_count(changes) == 0 {
                SettlementView::NoChange
            } else {
                SettlementView::Record {
                    document_id: document.id,
                    snapshot: snapshot_of(candidate, content),
                    diff: changes,
                    added_words: added_count(changes),
                    deleted_words: removed_count(changes),
                }
            }
        },
    }
}

/// What a stored document stands for, if there is one.
pub open spec fn stored_view(stored: Option<&Document>) -> Option<DocumentView> {
    match stored {
        Some(document) => Some(document@),
        None => None,
    }
}

/// The format that `mime_type` names, if it is one that can be fetched.
pub fn fetchable_format(mime_type: &str) -> (out: Option<Format>)
    ensures
        out == format_of(mime_type@),
{
    if same_text(mime_type, NATIVE_DOCUMENT) {
        Some(Format::Native)
    } else if same_text(mime_type, PACKAGED_DOCUMENT) {
        Some(Format::Packaged)
    } else {
        None
    }
}

/// Decides what a listed document asks for before anything is fetched.
///
/// A tracked document whose stored marker equals the listed one, character
/// for character, asks for nothing. Any other is fetched by the way of its
/// format, or skipped where its format is none that can be fetched.
pub fn plan(candidate: &Candidate, stored: Option<&Document>) -> (step: Step)
    ensures
        step@ == plan_of(candidate@, stored_view(stored)),
{
    if let Some(document) = stored {
        if same_text(document.last_updated.as_str(), candidate.modified_time.as_str()) {
            return Step::Idle;
        }
    }
    match fetchable_format(candidate.mime_type.as_str()) {
        Some(Format::Native) => Step::Fetch(
            FetchRequest::Export { link: candidate.export_link.clone() },
        ),
        Some(Format::Packaged) => Step::Fetch(
            FetchRequest::Package { doc_id: candidate.doc_id.clone() },
        ),
        None => Step::Unsupported,
    }
}

/// The snapshot that `candidate` and its fetched `content` make.
fn snapshot(candidate: &Candidate, content: String) -> (out: Snapshot)
    ensures
        out@ == snapshot_of(candidate@, content@),
{
    Snapshot {
        name: candidate.name.clone(),
        modified_time: candidate.modified_time.clone(),
        content,
        export_link: candidate.export_link.clone(),
        owner_username: candidate.owner_username.clone(),
    }
}

/// Decides what is written for a listed document whose content was fetched.
///
/// An untracked document is created with its baseline: an empty difference
/// and zero counts, whatever the content. For a tracked one the content is
/// compared with the stored content word by word; where nothing is added and
/// nothing removed, nothing is written, and equal contents always end so.
pub fn settle(candidate: &Candidate, stored: Option<&Document>, content: String) -> (out:
    Settlement)
    ensures
        out@ == settlement_of(candidate@, stored_view(stored), content@),
        stored matches Some(document) && document.latest_content@ == content@ ==> (out is NoChange
            || out is TooLarge),
{
    match stored {
        None => {
            let baseline = NewRevision {
                revision_time: candidate.modified_time.clone(),
                content: content.clone(),
                diff: Vec::new(),
                added_words: 0,
                deleted_words: 0,
            };
            let document = NewDocument {
                doc_id: candidate.doc_id.clone(),
                mime_type: candidate.mime_type.clone(),
                snapshot: snapshot(candidate, content),
            };
            proof {
                assert(owned_script(baseline.diff@) =~= Seq::<Change>::empty());
            }
            Settlement::Create { document, baseline }
        },
        Some(document) => {
            let counted = match try_diff_words(document.latest_content.as_str(), content.as_str()) {
                None => None,
                Some(diff) => {
                    let (added_words, deleted_words) = count_words_from_diff(diff.as_slice());
                    if added_words == 0 && deleted_words == 0 {
                        Some(None)
                    } else {
                        Some(Some((owned_changes(&diff), added_words, deleted_words)))
                    }
                },
            };
            match counted {
                None => Settlement::TooLarge,
                Some(None) => Settlement::NoChange,
                Some(Some((diff, added_words, deleted_words))) => Settlement::Record {
                    document_id: document.id,
                    snapshot: snapshot(candidate, content),
                    diff,
                    added_words,
                    deleted_words,
                },
            }
        },
    }
}

/// How the visit of one listed document ended.
#[derive(Debug, PartialEq, Eq)]
pub enum Outcome {
    /// The stored marker was the listed one: nothing was fetched or written.
    UpToDate,
    /// The format is none that can be fetched: the document was skipped.
    Unsupported,
    /// The content could not be fetched: the document was skipped.
    FetchFailed(String),
    /// The contents have too many tokens to be aligned: nothing was written.
    TooLarge,
    /// The marker changed but the difference is empty: nothing was written.
    NoChange,
    /// The document was new: it is tracked now, under this number, with its
    /// baseline.
    Created(i64),
    /// A revision was appended.
    Revised { added_words: usize, deleted_words: usize },
    /// The ledger refused the write: nothing was written.
    StoreFailed(StoreError),
}

pub enum OutcomeView {
    UpToDate,
    Unsupported,
    FetchFailed(Seq<char>),
    TooLarge,
    NoChange,
    Created(int),
    Revised { added_words: nat, deleted_words: nat },
    StoreFailed(StoreError),
}

impl View for Outcome {
    type V = OutcomeView;

    open spec fn view(&self) -> OutcomeView {
        match *self {
            Outcome::UpToDate => OutcomeView::UpToDate,
            Outcome::Unsupported => OutcomeView::Unsupported,
            Outcome::FetchFailed(reason) => OutcomeView::FetchFailed(reason@),
            Outcome::TooLarge => OutcomeView::TooLarge,
            Outcome::NoChange => OutcomeView::NoChange,
            Outcome::Created(id) => OutcomeView::Created(id as int),
            Outcome::Revised { added_words, deleted_words } => OutcomeView::Revised {
                added_words: added_words as nat,
                deleted_words: deleted_words as nat,
            },
            Outcome::StoreFailed(error) => OutcomeView::StoreFailed(error),
        }
    }
}

/// What a fetch gave, by its characters.
pub open spec fn fetched_view(fetched: Result<String, String>) -> Result<Seq<char>, Seq<char>> {
    match fetched {
        Ok(content) => Ok(content@),
        Err(reason) => Err(reason@),
    }
}

/// What is written to a ledger for one listed document, where `fetched` is
/// what fetching its content gives.
pub open spec fn writes_of(
    before: LedgerView,
    candidate: CandidateView,
    fetched: Result<Seq<char>, Seq<char>>,
) -> Option<SettlementView> {
    let stored = before.lookup(candidate.doc_id);
    match (plan_of(candidate, stored), fetched) {
        (StepView::Fetch(_), Ok(content)) => Some(settlement_of(candidate, stored, content)),
        _ => None,
    }
}

/// The ledger after the visit of one listed document.
pub open spec fn ledger_after(
    before: LedgerView,
    candidate: CandidateView,
    fetched: Result<Seq<char>, Seq<char>>,
) -> LedgerView {
    match writes_of(before, candidate, fetched) {
        Some(SettlementView::Create { document, baseline }) => if before.documents.len()
            < i64::MAX && before.revisions.len() < i64::MAX {
            LedgerView {
                documents: before.documents.push(
                    document_of(document, before.documents.len() as int + 1),
                ),
                revisions: before.revisions.push(
                    revision_of(baseline, before.documents.len() as int + 1),
                ),
            }
        } else {
            before
        },
        Some(
            SettlementView::Record { document_id, snapshot, diff, added_words, deleted_words },
        ) => if before.revisions.len() < i64::MAX {
            LedgerView {
                documents: before.documents.update(
                    document_id - 1,
                    updated(before.documents[document_id - 1], snapshot),
                ),
                revisions: before.revisions.push(
                    change_of(document_id, snapshot, diff, added_words, deleted_words),
                ),
            }
        } else {
            before
        },
        _ => before,
    }
}

/// How the visit of one listed document ends.
pub open spec fn outcome_of(
    before: LedgerView,
    candidate: CandidateView,
    fetched: Result<Seq<char>, Seq<char>>,
) -> OutcomeView {
    let stored = before.lookup(candidate.doc_id);
    match plan_of(candidate, stored) {
        StepView::Idle => OutcomeView::UpToDate,
        StepView::Unsupported => OutcomeView::Unsupported,
        StepView::Fetch(_) => match fetched {
            Err(reason) => OutcomeView::FetchFailed(reason),
            Ok(content) => match settlement_of(candidate, stored, content) {
                SettlementView::TooLarge => OutcomeView::TooLarge,
                SettlementView::NoChange => OutcomeView::NoChange,
                SettlementView::Create { .. } => if before.documents.len() < i64::MAX
                    && before.revisions.len() < i64::MAX {
                    OutcomeView::Created(before.documents.len() as int + 1)
                } else {
                    OutcomeView::StoreFailed(StoreError::Full)
                },
                SettlementView::Record { added_words, deleted_words, .. } => if before.revisions.len()
                    < i64::MAX {
                    OutcomeView::Revised { added_words, deleted_words }
                } else {
                    OutcomeView::StoreFailed(StoreError::Full)
                },
            },
        },
    }
}

/// Visits one listed document: looks it up, decides whether its content is
/// needed, and writes what `settle` decides, where `fetched` is what
/// fetching the content gives.
///
/// A failure concerns this document alone: the ledger is left as it was and
/// the outcome says why. A document whose stored marker is the listed one,
/// one whose format cannot be fetched and one whose fetched content is the
/// stored content leave the ledger unchanged. A new document adds exactly
/// one revision, its baseline.
pub fn reconcile(store: &mut RevisionStore, candidate: &Candidate, fetched: Result<String, String>) -> (outcome:
    Outcome)
    requires
        old(store).wf(),
    ensures
        final(store).wf(),
        final(store)@.extends(old(store)@),
        final(store)@ == ledger_after(old(store)@, candidate@, fetched_view(fetched)),
        outcome@ == outcome_of(old(store)@, candidate@, fetched_view(fetched)),
        old(store)@.lookup(candidate.doc_id@) matches Some(document) && fetched matches Ok(content)
            && document.latest_content == content@ ==> final(store)@ == old(store)@,
{
    let ghost before = store@;
    proof {
        assert(before.revisions.take(before.revisions.len() as int) =~= before.revisions);
    }
    let stored = store.find(candidate.doc_id.as_str());
    proof {
        if stored is Some {
            lemma_lookup_found(before, candidate.doc_id@);
        }
    }
    let step = plan(candidate, stored);
    let settlement = match step {
        Step::Idle => {
            return Outcome::UpToDate;
        },
        Step::Unsupported => {
            return Outcome::Unsupported;
        },
        Step::Fetch(_) => match fetched {
            Err(reason) => {
                return Outcome::FetchFailed(reason);
            },
            Ok(content) => settle(candidate, stored, content),
        },
    };
    match settlement {
        Settlement::TooLarge => Outcome::TooLarge,
        Settlement::NoChange => Outcome::NoChange,
        Settlement::Create { document, baseline } => {
            match store.create_document(document, baseline) {
                Ok(id) => Outcome::Created(id),
                Err(error) => Outcome::StoreFailed(error),
            }
        },
        Settlement::Record { document_id, snapshot, diff, added_words, deleted_words } => {
            match store.record_change(document_id, snapshot, diff, added_words, deleted_words) {
                Ok(_) => Outcome::Revised { added_words, deleted_words },
                Err(error) => Outcome::StoreFailed(error),
            }
        },
    }
}

/// A listed document whose marker is the stored one, character for
/// character, leaves the ledger as it was, whatever a fetch would give.
pub proof fn lemma_same_marker_writes_nothing(
    before: LedgerView,
    candidate: CandidateView,
    fetched: Result<Seq<char>, Seq<char>>,
)
    requires
        before.lookup(candidate.doc_id) matches Some(document) && document.last_updated
            == candidate.modified_time,
    ensures
        ledger_after(before, candidate, fetched) == before,
        outcome_of(before, candidate, fetched) == OutcomeView::UpToDate,
{
}

/// A listed document whose format cannot be fetched is never written:
/// neither on first sighting nor later.
pub proof fn lemma_unsupported_format_writes_nothing(
    before: LedgerView,
    candidate: CandidateView,
    fetched: Result<Seq<char>, Seq<char>>,
)
    requires
        format_of(candidate.mime_type) is None,
    ensures
        ledger_after(before, candidate, fetched) == before,
        outcome_of(before, candidate, fetched) is UpToDate || outcome_of(before, candidate, fetched)
            is Unsupported,
        before.lookup(candidate.doc_id) is None ==> outcome_of(before, candidate, fetched)
            is Unsupported,
{
}

/// A document that is seen for the first time, in a format that can be
/// fetched, adds itself and exactly one revision: its baseline, with the
/// fetched content, an empty difference and zero counts, whatever the
/// content is.
pub proof fn lemma_first_sighting_writes_baseline(
    before: LedgerView,
    candidate: CandidateView,
    content: Seq<char>,
)
    requires
        before.is_consistent(),
        before.lookup(candidate.doc_id) is None,
        format_of(candidate.mime_type) is Some,
        before.documents.len() < i64::MAX,
        before.revisions.len() < i64::MAX,
    ensures
        ({
            let after = ledger_after(before, candidate, Ok(content));
            &&& after.revisions.len() == before.revisions.len() + 1
            &&& after.revisions.drop_last() == before.revisions
            &&& after.revisions.last().is_baseline()
            &&& after.revisions.last().content == content
            &&& after.revisions.last().revision_time == candidate.modified_time
            &&& after.documents.len() == before.documents.len() + 1
            &&& after.documents.drop_last() == before.documents
            &&& after.documents.last().doc_id == candidate.doc_id
            &&& after.documents.last().latest_content == content
            &&& after.revisions.last().document_id == after.documents.last().id
            &&& after.lookup(candidate.doc_id) == Some(after.documents.last())
        }),
{
    let after = ledger_after(before, candidate, Ok(content));
    assert(after.revisions.drop_last() =~= before.revisions);
    assert(after.documents.drop_last() =~= before.documents);
    let n = before.documents.len() as int;
    assert(after.documents[n].doc_id == candidate.doc_id);
    assert(after.tracks(candidate.doc_id));
    let i = choose|i: int|
        0 <= i < after.documents.len() && (#[trigger] after.documents[i]).doc_id
            == candidate.doc_id;
    if i < n {
        assert(before.documents[i].doc_id == candidate.doc_id);
        assert(before.tracks(candidate.doc_id));
    }
}

/// A document whose content cannot be fetched leaves the ledger as it was:
/// the failure is its own and is told in the outcome.
pub proof fn lemma_failed_fetch_writes_nothing(
    before: LedgerView,
    candidate: CandidateView,
    reason: Seq<char>,
)
    ensures
        ledger_after(before, candidate, Err(reason)) == before,
        plan_of(candidate, before.lookup(candidate.doc_id)) is Fetch ==> outcome_of(
            before,
            candidate,
            Err(reason),
        ) == OutcomeView::FetchFailed(reason),
{
}

/// A document that was written on a visit is up to date afterwards: as long
/// as the source lists it with the same marker, no later visit fetches or
/// writes anything, so a cycle that is run again writes nothing more.
pub proof fn lemma_written_document_is_up_to_date(
    before: LedgerView,
    candidate: CandidateView,
    fetched: Result<Seq<char>, Seq<char>>,
    later: Result<Seq<char>, Seq<char>>,
)
    requires
        before.is_consistent(),
        outcome_of(before, candidate, fetched) is Created || outcome_of(before, candidate, fetched)
            is Revised,
    ensures
        ({
            let after = ledger_after(before, candidate, fetched);
            &&& after.lookup(candidate.doc_id) matches Some(document) && document.last_updated
                == candidate.modified_time
            &&& outcome_of(after, candidate, later) == OutcomeView::UpToDate
            &&& ledger_after(after, candidate, later) == after
        }),
{
    let after = ledger_after(before, candidate, fetched);
    let n = before.documents.len() as int;
    let place = match before.lookup(candidate.doc_id) {
        Some(document) => {
            lemma_lookup_found(before, candidate.doc_id);
            document.id - 1
        },
        None => n,
    };
    assert(after.documents[place].doc_id == candidate.doc_id);
    assert(after.documents[place].last_updated == candidate.modified_time);
    assert(after.tracks(candidate.doc_id));
    let i = choose|i: int|
        0 <= i < after.documents.len() && (#[trigger] after.documents[i]).doc_id
            == candidate.doc_id;
    if i != place {
        assert(before.documents[i].doc_id == candidate.doc_id);
        if before.lookup(candidate.doc_id) is Some {
            if i < place {
                assert(before.documents[i].doc_id != before.documents[place].doc_id);
            } else {
                assert(before.documents[place].doc_id != before.documents[i].doc_id);
            }
        } else {
            assert(before.tracks(candidate.doc_id));
        }
    }
}

/// Every listed document gets an outcome of its own.
pub proof fn lemma_one_outcome_for_each(before: LedgerView, sightings: Seq<SightingView>)
    ensures
        outcomes_of(before, sightings).len() == sightings.len(),
    decreases sightings.len(),
{
    if sightings.len() > 0 {
        lemma_one_outcome_for_each(before, sightings.drop_last());
    }
}

/// One listed document together with what fetching its content gives.
pub struct Sighting {
    pub candidate: Candidate,
    pub fetched: Result<String, String>,
}

pub struct SightingView {
    pub candidate: CandidateView,
    pub fetched: Result<Seq<char>, Seq<char>>,
}

impl View for Sighting {
    type V = SightingView;

    open spec fn view(&self) -> SightingView {
        SightingView { candidate: self.candidate@, fetched: fetched_view(self.fetched) }
    }
}

/// What each of `sightings` stands for.
pub open spec fn sighting_views(sightings: Seq<Sighting>) -> Seq<SightingView> {
    sightings.map_values(|sighting: Sighting| sighting@)
}

/// What each of `outcomes` stands for.
pub open spec fn outcome_views(outcomes: Seq<Outcome>) -> Seq<OutcomeView> {
    outcomes.map_values(|outcome: Outcome| outcome@)
}

/// The ledger after a whole listing was visited, one document after the
/// other in the listing's order.
pub open spec fn ledger_after_all(before: LedgerView, sightings: Seq<SightingView>) -> LedgerView
    decreases sightings.len(),
{
    if sightings.len() == 0 {
        before
    } else {
        ledger_after(
            ledger_after_all(before, sightings.drop_last()),
            sightings.last().candidate,
            sightings.last().fetched,
        )
    }
}

/// How the visits of a whole listing end, one outcome for each document.
pub open spec fn outcomes_of(before: LedgerView, sightings: Seq<SightingView>) -> Seq<OutcomeView>
    decreases sightings.len(),
{
    if sightings.len() == 0 {
        Seq::empty()
    } else {
        outcomes_of(before, sightings.drop_last()).push(
            outcome_of(
                ledger_after_all(before, sightings.drop_last()),
                sightings.last().candidate,
                sightings.last().fetched,
            ),
        )
    }
}

/// Whether a visit is sure to write nothing to `ledger`: the document's
/// format cannot be fetched, its content could not be fetched, or its marker
/// is the one that `ledger` holds for it.
pub open spec fn writes_nothing(ledger: LedgerView, sighting: SightingView) -> bool {
    ||| format_of(sighting.candidate.mime_type) is None
    ||| sighting.fetched is Err
    ||| (ledger.lookup(sighting.candidate.doc_id) matches Some(document) && document.last_updated
        == sighting.candidate.modified_time)
}

/// A document whose visit writes nothing does not touch the others: with it
/// left out of the listing, the cycle ends with the same ledger and gives
/// every other document the outcome that it has with it.
pub proof fn lemma_silent_sighting_can_be_left_out(
    before: LedgerView,
    sightings: Seq<SightingView>,
    at: int,
)
    requires
        0 <= at < sightings.len(),
        writes_nothing(ledger_after_all(before, sightings.take(at)), sightings[at]),
    ensures
        ledger_after_all(before, sightings.remove(at)) == ledger_after_all(before, sightings),
        outcomes_of(before, sightings.remove(at)) == outcomes_of(before, sightings).remove(at),
    decreases sightings.len(),
{
    let front = sightings.drop_last();
    let last = sightings.last();
    lemma_one_outcome_for_each(before, sightings);
    lemma_one_outcome_for_each(before, front);
    if at == sightings.len() - 1 {
        assert(sightings.take(at) =~= front);
        assert(sightings.remove(at) =~= front);
        assert(ledger_after(ledger_after_all(before, front), last.candidate, last.fetched)
            == ledger_after_all(before, front));
        assert(outcomes_of(before, sightings).remove(at) =~= outcomes_of(before, front));
    } else {
        assert(front.take(at) =~= sightings.take(at));
        assert(front[at] == sightings[at]);
        lemma_silent_sighting_can_be_left_out(before, front, at);
        let without = sightings.remove(at);
        assert(without.drop_last() =~= front.remove(at));
        assert(without.last() == last);
        lemma_one_outcome_for_each(before, front.remove(at));
        assert(outcomes_of(before, without) =~= outcomes_of(before, sightings).remove(at));
    }
}

/// One reconciliation cycle over a ledger.
///
/// Where the listing itself could not be had, the cycle ends at once:
/// nothing is visited and nothing written, and the reason comes back. Else
/// every listed document is visited, strictly one after the other, and each
/// gets its outcome: a document that fails is skipped and the cycle goes on
/// with the next.
pub fn reconcile_all(store: &mut RevisionStore, listing: Result<Vec<Sighting>, String>) -> (out:
    Result<Vec<Outcome>, String>)
    requires
        old(store).wf(),
    ensures
        final(store).wf(),
        final(store)@.extends(old(store)@),
        match listing {
            Err(reason) => out == Err::<Vec<Outcome>, String>(reason) && final(store)@ == old(
                store,
            )@,
            Ok(sightings) => {
                &&& out is Ok
                &&& out->Ok_0@.len() == sightings@.len()
                &&& outcome_views(out->Ok_0@) == outcomes_of(
                    old(store)@,
                    sighting_views(sightings@),
                )
                &&& final(store)@ == ledger_after_all(old(store)@, sighting_views(sightings@))
            },
        },
{
    let ghost before = store@;
    proof {
        assert(before.revisions.take(before.revisions.len() as int) =~= before.revisions);
    }
    let sightings = match listing {
        Err(reason) => {
            return Err(reason);
        },
        Ok(sightings) => sightings,
    };
    let ghost items = sightings@;
    let ghost all = sighting_views(sightings@);
    let mut outcomes: Vec<Outcome> = Vec::new();
    proof {
        assert(all.take(0) =~= Seq::<SightingView>::empty());
        assert(outcome_views(outcomes@) =~= Seq::<OutcomeView>::empty());
    }
    for sighting in it: sightings.into_iter()
        invariant
            it.seq() == items,
            all == sighting_views(items),
            store.wf(),
            store@.extends(before),
            store@ == ledger_after_all(before, all.take(it.index() as int)),
            outcome_views(outcomes@) == outcomes_of(before, all.take(it.index() as int)),
    {
        let ghost done = it.index() as int;
        let ghost seen = outcome_views(outcomes@);
        let ghost earlier = store@;
        proof {
            assert(sighting@ == all[done]);
            assert(all.take(done + 1).drop_last() =~= all.take(done));
            assert(all.take(done + 1).last() == all[done]);
        }
        let outcome = reconcile(store, &sighting.candidate, sighting.fetched);
        proof {
            assert(outcome_views(outcomes@.push(outcome)) =~= seen.push(outcome@));
            assert(store@.revisions.take(before.revisions.len() as int) =~= before.revisions) by {
                assert(earlier.revisions.take(before.revisions.len() as int) == before.revisions);
                assert(store@.revisions.take(earlier.revisions.len() as int)
                    == earlier.revisions);
            }
        }
        outcomes.push(outcome);
    }
    proof {
        assert(all.take(all.len() as int) =~= all);
        lemma_one_outcome_for_each(before, all);
    }
    Ok(outcomes)
}

} // verus!
