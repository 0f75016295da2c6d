//! The source's listing of documents: what one listed file becomes, and the
//! listing itself, which holds each document once.

use crate::reconcile::{Candidate, CandidateView};
use crate::strings::same_text;
use vstd::prelude::*;

verus! {

/// The name of a file that the source lists without one.
pub const UNTITLED: &'static str = "Untitled";

/// The owner of a file that the source lists without one.
pub const UNKNOWN_OWNER: &'static str = "unknown";

/// What the source says of one listed file; a field is `None` where the
/// source left it out or gave no string.
pub struct FileEntry {
    pub id: Option<String>,
    pub name: Option<String>,
    pub modified_time: Option<String>,
    pub mime_type: Option<String>,
    /// The link under which the file can be exported as plain text.
    pub export_link: Option<String>,
    /// The display name of the first owner.
    pub owner_display_name: Option<String>,
    /// The e-mail address of the first owner.
    pub owner_email: Option<String>,
}

pub struct FileEntryView {
    pub id: Option<Seq<char>>,
    pub name: Option<Seq<char>>,
    pub modified_time: Option<Seq<char>>,
    pub mime_type: Option<Seq<char>>,
    pub export_link: Option<Seq<char>>,
    pub owner_display_name: Option<Seq<char>>,
    pub owner_email: Option<Seq<char>>,
}

/// What an optional string holds.
pub open spec fn text_view(text: Option<String>) -> Option<Seq<char>> {
    match text {
        Some(text) => Some(text@),
        None => None,
    }
}

impl View for FileEntry {
    type V = FileEntryView;

    open spec fn view(&self) -> FileEntryView {
        FileEntryView {
            id: text_view(self.id),
            name: text_view(self.name),
            modified_time: text_view(self.modified_time),
            mime_type: text_view(self.mime_type),
            export_link: text_view(self.export_link),
            owner_display_name: text_view(self.owner_display_name),
            owner_email: text_view(self.owner_email),
        }
    }
}

/// The text if there is one, else `fallback`.
pub open spec fn or_text(text: Option<Seq<char>>, fallback: Seq<char>) -> Seq<char> {
    match text {
        Some(text) => text,
        None => fallback,
    }
}

/// The owner's label: the display name, else the e-mail address, else
/// `unknown`.
pub open spec fn owner_of(entry: FileEntryView) -> Seq<char> {
    match entry.owner_display_name {
        Some(name) => name,
        None => or_text(entry.owner_email, UNKNOWN_OWNER@),
    }
}

/// The candidate that a listed file makes: none where it has no id or no
/// modified marker; else the file with `Untitled` for a missing name, an
/// empty export link and format where they are missing, and its owner's
/// label.
pub open spec fn candidate_of(entry: FileEntryView) -> Option<CandidateView> {
    let id = or_text(entry.id, Seq::empty());
    let modified = or_text(entry.modified_time, Seq::empty());
    if id.len() == 0 || modified.len() == 0 {
        None
    } else {
        Some(
            CandidateView {
                doc_id: id,
                name: or_text(entry.name, UNTITLED@),
                modified_time: modified,
                export_link: or_text(entry.export_link, Seq::empty()),
                owner_username: owner_of(entry),
                mime_type: or_text(entry.mime_type, Seq::empty()),
            },
        )
    }
}

/// What an optional candidate stands for.
pub open spec fn candidate_view(candidate: Option<Candidate>) -> Option<CandidateView> {
    match candidate {
        Some(candidate) => Some(candidate@),
        None => None,
    }
}

/// A copy of the text if there is one, else of `fallback`.
fn text_or(text: &Option<String>, fallback: &str) -> (out: String)
    ensures
        out@ == or_text(text_view(*text), fallback@),
{
    match text {
        Some(text) => text.clone(),
        None => fallback.to_owned(),
    }
}

/// The candidate that a listed file makes, if it makes one.
pub fn candidate(entry: &FileEntry) -> (out: Option<Candidate>)
    ensures
        candidate_view(out) == candidate_of(entry@),
{
    proof {
        reveal_strlit("");
        assert(""@ =~= Seq::<char>::empty());
    }
    let doc_id = text_or(&entry.id, "");
    let modified_time = text_or(&entry.modified_time, "");
    if doc_id.as_str().is_empty() || modified_time.as_str().is_empty() {
        return None;
    }
    let owner_username = match &entry.owner_display_name {
        Some(name) => name.clone(),
        None => text_or(&entry.owner_email, UNKNOWN_OWNER),
    };
    Some(
        Candidate {
            doc_id,
            name: text_or(&entry.name, UNTITLED),
            modified_time,
            export_link: text_or(&entry.export_link, ""),
            owner_username,
            mime_type: text_or(&entry.mime_type, ""),
        },
    )
}

/// What each of `candidates` stands for.
pub open spec fn candidate_views(candidates: Seq<Candidate>) -> Seq<CandidateView> {
    candidates.map_values(|candidate: Candidate| candidate@)
}

/// Whether no two of `candidates` have the same id.
pub open spec fn ids_differ(candidates: Seq<CandidateView>) -> bool {
    forall|i: int, j: int|
        0 <= i < j < candidates.len() ==> (#[trigger] candidates[i]).doc_id != (
        #[trigger] candidates[j]).doc_id
}

/// Whether one of `candidates` has the id `doc_id`.
pub open spec fn lists(candidates: Seq<CandidateView>, doc_id: Seq<char>) -> bool {
    exists|i: int| 0 <= i < candidates.len() && (#[trigger] candidates[i]).doc_id == doc_id
}

/// The place of a candidate with the id `doc_id`, where one is listed.
pub open spec fn place_of(candidates: Seq<CandidateView>, doc_id: Seq<char>) -> int {
    choose|i: int| 0 <= i < candidates.len() && (#[trigger] candidates[i]).doc_id == doc_id
}

/// `candidates` with `candidate` put in: in the place of the one with its
/// id, or at the end where there is none.
pub open spec fn with_candidate(
    candidates: Seq<CandidateView>,
    candidate: CandidateView,
) -> Seq<CandidateView> {
    if lists(candidates, candidate.doc_id) {
        candidates.update(place_of(candidates, candidate.doc_id), candidate)
    } else {
        candidates.push(candidate)
    }
}

/// The documents that the source lists, each id once, in the order in which
/// the ids were first listed.
pub struct Listing {
    candidates: Vec<Candidate>,
}

impl View for Listing {
    type V = Seq<CandidateView>;

    closed spec fn view(&self) -> Seq<CandidateView> {
        candidate_views(self.candidates@)
    }
}

impl Listing {
    /// Whether no id is listed twice.
    pub open spec fn wf(&self) -> bool {
        ids_differ(self@)
    }

    /// A listing of nothing.
    pub fn new() -> (listing: Listing)
        ensures
            listing.wf(),
            listing@.len() == 0,
    {
        let listing = Listing { candidates: Vec::new() };
        assert(listing@ =~= Seq::<CandidateView>::empty());
        listing
    }

    /// How many documents are listed.
    pub fn len(&self) -> (count: usize)
        ensures
            count == self@.len(),
    {
        self.candidates.len()
    }

    /// Lists `candidate`. Where its id is listed already, what was listed
    /// under it is replaced: the later listing of a document counts.
    pub fn insert(&mut self, candidate: Candidate)
        requires
            old(self).wf(),
        ensures
            final(self).wf(),
            final(self)@ == with_candidate(old(self)@, candidate@),
            lists(final(self)@, candidate.doc_id@),
    {
        let ghost before = self@;
        let ghost listed = candidate@;
        let n = self.candidates.len();
        let mut i: usize = 0;
        while i < n
            invariant
                n == self.candidates@.len(),
                i <= n,
                self@ == before,
                before == old(self)@,
                listed == candidate@,
                ids_differ(before),
                forall|k: int| 0 <= k < i ==> (#[trigger] before[k]).doc_id != listed.doc_id,
            decreases n - i,
        {
            assert(before[i as int] == self.candidates@[i as int]@);
            if same_text(self.candidates[i].doc_id.as_str(), candidate.doc_id.as_str()) {
                self.candidates.set(i, candidate);
                proof {
                    assert(lists(before, listed.doc_id));
                    let j = place_of(before, listed.doc_id);
                    if j < i {
                        assert(before[j].doc_id != listed.doc_id);
                    } else if i < j {
                        assert(before[i as int].doc_id != before[j].doc_id);
                    }
                    assert(self@ =~= before.update(i as int, listed));
                    assert forall|a: int, b: int| 0 <= a < b < self@.len() implies (
                    #[trigger] self@[a]).doc_id != (#[trigger] self@[b]).doc_id by {
                        assert(before[a].doc_id != before[b].doc_id);
                        assert(before[i as int].doc_id == listed.doc_id);
                    }
                    assert(self@[i as int].doc_id == listed.doc_id);
                }
                return ;
            }
            i = i + 1;
        }
        self.candidates.push(candidate);
        proof {
            assert(!lists(before, listed.doc_id)) by {
                if lists(before, listed.doc_id) {
                    let j = place_of(before, listed.doc_id);
                    assert(before[j].doc_id != listed.doc_id);
                }
            }
            assert(self@ =~= before.push(listed));
            assert forall|a: int, b: int| 0 <= a < b < self@.len() implies (
            #[trigger] self@[a]).doc_id != (#[trigger] self@[b]).doc_id by {
                if b < before.len() {
                    assert(before[a].doc_id != before[b].doc_id);
                } else {
                    assert(before[a].doc_id != listed.doc_id);
                }
            }
            assert(self@[n as int].doc_id == listed.doc_id);
        }
    }

    /// Lists the candidate that `entry` makes, if it makes one, and says
    /// whether it did.
    pub fn list_entry(&mut self, entry: &FileEntry) -> (listed: bool)
        requires
            old(self).wf(),
        ensures
            final(self).wf(),
            listed == candidate_of(entry@) is Some,
            final(self)@ == match candidate_of(entry@) {
                Some(made) => with_candidate(old(self)@, made),
                None => old(self)@,
            },
    {
        match candidate(entry) {
            Some(made) => {
                self.insert(made);
                true
            },
            None => false,
        }
    }

    /// The listed documents, each once.
    pub fn into_candidates(self) -> (candidates: Vec<Candidate>)
        requires
            self.wf(),
        ensures
            candidate_views(candidates@) == self@,
            ids_differ(candidate_views(candidates@)),
    {
        self.candidates
    }
}

} // verus!
