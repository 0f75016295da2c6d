//! A difference as it is stored and as it is shown: records with a tag
//! spelled out, and display blocks.

use crate::changes::{owned_script, Change, OwnedWordChange};
use crate::strings::same_text;
use vstd::prelude::*;

verus! {

/// The tag of an added token in a stored record.
pub const ADDED: &'static str = "Added";

/// The tag of a removed token in a stored record.
pub const REMOVED: &'static str = "Removed";

/// The tag of an unchanged token in a stored record.
pub const UNCHANGED: &'static str = "Unchanged";

/// The kind of a display block that shows an added token.
pub const ADD: &'static str = "add";

/// The kind of a display block that shows a removed token.
pub const DEL: &'static str = "del";

/// The kind of a display block that shows any other token.
pub const NEUTRAL: &'static str = "neutral";

/// The text that stands for a difference where a revision holds none: the
/// empty list.
pub const EMPTY_DIFF: &'static str = "[]";

/// One record of a stored difference: the tag spelled out, and the token.
#[derive(Clone, Debug, PartialEq, Eq)]
pub struct RawWordChange {
    pub change_type: String,
    pub text: String,
}

/// One block of a difference as it is shown.
#[derive(Clone, Debug, PartialEq, Eq)]
pub struct DiffBlock {
    pub block_type: String,
    pub text: String,
}

/// A stored difference that could not be read.
#[derive(Clone, Debug, PartialEq, Eq)]
pub struct DiffDecodeError {
    /// What the decoder said.
    pub reason: String,
}

/// What a record or a block stands for: its tag or kind, and its token.
pub struct Labelled {
    pub label: Seq<char>,
    pub text: Seq<char>,
}

impl View for RawWordChange {
    type V = Labelled;

    open spec fn view(&self) -> Labelled {
        Labelled { label: self.change_type@, text: self.text@ }
    }
}

impl View for DiffBlock {
    type V = Labelled;

    open spec fn view(&self) -> Labelled {
        Labelled { label: self.block_type@, text: self.text@ }
    }
}

/// What each of `records` stands for.
pub open spec fn record_views(records: Seq<RawWordChange>) -> Seq<Labelled> {
    records.map_values(|record: RawWordChange| record@)
}

/// What each of `blocks` stands for.
pub open spec fn block_views(blocks: Seq<DiffBlock>) -> Seq<Labelled> {
    blocks.map_values(|block: DiffBlock| block@)
}

/// The record that stores a change.
pub open spec fn record_of(change: Change) -> Labelled {
    match change {
        Change::Added(text) => Labelled { label: ADDED@, text },
        Change::Removed(text) => Labelled { label: REMOVED@, text },
        Change::Unchanged(text) => Labelled { label: UNCHANGED@, text },
    }
}

/// The change that a record stores; none where its tag is not one of the
/// three.
pub open spec fn change_of_record(record: Labelled) -> Option<Change> {
    if record.label == ADDED@ {
        Some(Change::Added(record.text))
    } else if record.label == REMOVED@ {
        Some(Change::Removed(record.text))
    } else if record.label == UNCHANGED@ {
        Some(Change::Unchanged(record.text))
    } else {
        None
    }
}

/// The block that shows a record: `add` for an added token, `del` for a
/// removed one, `neutral` for an unchanged one and for any tag that is not
/// known.
pub open spec fn block_of(record: Labelled) -> Labelled {
    Labelled {
        label: if record.label == ADDED@ {
            ADD@
        } else if record.label == REMOVED@ {
            DEL@
        } else {
            NEUTRAL@
        },
        text: record.text,
    }
}

/// The changes that `records` store, in order; none where one of them has a
/// tag that is not one of the three.
pub open spec fn changes_of_records(records: Seq<Labelled>) -> Option<Seq<Change>> {
    if forall|i: int| 0 <= i < records.len() ==> change_of_record(#[trigger] records[i]) is Some {
        Some(records.map_values(|record: Labelled| change_of_record(record)->0))
    } else {
        None
    }
}

/// The records that store a script, in its order.
pub open spec fn records_of_script(script: Seq<Change>) -> Seq<Labelled> {
    script.map_values(|change: Change| record_of(change))
}

/// The three tags are three different strings.
pub proof fn lemma_tags_differ()
    ensures
        ADDED@ != REMOVED@,
        ADDED@ != UNCHANGED@,
        REMOVED@ != UNCHANGED@,
{
    reveal_strlit("Added");
    reveal_strlit("Removed");
    reveal_strlit("Unchanged");
    assert(ADDED@.len() == 5);
    assert(REMOVED@.len() == 7);
    assert(UNCHANGED@.len() == 9);
}

/// Storing a change and reading the record again gives the change back.
pub proof fn lemma_record_round_trip(change: Change)
    ensures
        change_of_record(record_of(change)) == Some(change),
{
    lemma_tags_differ();
}

/// Storing a difference and reading its records again gives the difference
/// back, change for change and in its order.
pub proof fn lemma_script_round_trip(script: Seq<Change>)
    ensures
        changes_of_records(records_of_script(script)) == Some(script),
{
    let records = records_of_script(script);
    assert forall|i: int| 0 <= i < records.len() implies change_of_record(#[trigger] records[i])
        == Some(script[i]) by {
        lemma_record_round_trip(script[i]);
    }
    assert(records.map_values(|record: Labelled| change_of_record(record)->0) =~= script);
}

/// A stored change is shown by its tag: added as `add`, removed as `del`,
/// unchanged as `neutral`, each with its token.
pub proof fn lemma_block_of_change(change: Change)
    ensures
        block_of(record_of(change)) == match change {
            Change::Added(text) => Labelled { label: ADD@, text },
            Change::Removed(text) => Labelled { label: DEL@, text },
            Change::Unchanged(text) => Labelled { label: NEUTRAL@, text },
        },
{
    lemma_tags_differ();
}

impl OwnedWordChange {
    /// The record that stores this change.
    pub fn to_raw(&self) -> (record: RawWordChange)
        ensures
            record@ == record_of(self@),
    {
        match self {
            OwnedWordChange::Added(text) => RawWordChange {
                change_type: ADDED.to_owned(),
                text: text.clone(),
            },
            OwnedWordChange::Removed(text) => RawWordChange {
                change_type: REMOVED.to_owned(),
                text: text.clone(),
            },
            OwnedWordChange::Unchanged(text) => RawWordChange {
                change_type: UNCHANGED.to_owned(),
                text: text.clone(),
            },
        }
    }

    /// The change that `record` stores; `None` where its tag is not one of
    /// the three.
    pub fn from_raw(record: &RawWordChange) -> (change: Option<OwnedWordChange>)
        ensures
            match change {
                Some(change) => change_of_record(record@) == Some(change@),
                None => change_of_record(record@) is None,
            },
    {
        if same_text(record.change_type.as_str(), ADDED) {
            Some(OwnedWordChange::Added(record.text.clone()))
        } else if same_text(record.change_type.as_str(), REMOVED) {
            Some(OwnedWordChange::Removed(record.text.clone()))
        } else if same_text(record.change_type.as_str(), UNCHANGED) {
            Some(OwnedWordChange::Unchanged(record.text.clone()))
        } else {
            None
        }
    }
}

/// The records that store a difference, in its order. An empty difference,
/// that of a baseline, gives no record.
pub fn records_of(diff: &Vec<OwnedWordChange>) -> (records: Vec<RawWordChange>)
    ensures
        record_views(records@) == records_of_script(owned_script(diff@)),
{
    let mut records: Vec<RawWordChange> = Vec::new();
    let n = diff.len();
    let mut i: usize = 0;
    while i < n
        invariant
            n == diff@.len(),
            i <= n,
            record_views(records@) == records_of_script(owned_script(diff@.take(i as int))),
        decreases n - i,
    {
        let record = diff[i].to_raw();
        proof {
            assert(diff@.take(i + 1) =~= diff@.take(i as int).push(diff@[i as int]));
            assert(records_of_script(owned_script(diff@.take(i + 1))) =~= records_of_script(
                owned_script(diff@.take(i as int)),
            ).push(record@));
            assert(record_views(records@.push(record)) =~= record_views(records@).push(record@));
        }
        records.push(record);
        i = i + 1;
    }
    proof {
        assert(diff@.take(n as int) =~= diff@);
    }
    records
}

/// The difference that `records` store, in their order; `None` where one of
/// them has a tag that is not one of the three.
pub fn changes_from_records(records: &Vec<RawWordChange>) -> (out: Option<Vec<OwnedWordChange>>)
    ensures
        match out {
            Some(changes) => changes_of_records(record_views(records@)) == Some(
                owned_script(changes@),
            ),
            None => changes_of_records(record_views(records@)) is None,
        },
{
    let ghost stored = record_views(records@);
    let mut changes: Vec<OwnedWordChange> = Vec::new();
    let n = records.len();
    let mut i: usize = 0;
    while i < n
        invariant
            n == records@.len(),
            i <= n,
            stored == record_views(records@),
            changes@.len() == i,
            forall|k: int| 0 <= k < i ==> change_of_record(#[trigger] stored[k]) == Some(changes@[k]@),
        decreases n - i,
    {
        match OwnedWordChange::from_raw(&records[i]) {
            Some(change) => {
                changes.push(change);
            },
            None => {
                assert(change_of_record(stored[i as int]) is None);
                return None;
            },
        }
        i = i + 1;
    }
    proof {
        assert(stored.map_values(|record: Labelled| change_of_record(record)->0) =~= owned_script(
            changes@,
        ));
    }
    Some(changes)
}

/// The block that shows `record`.
pub fn block(record: RawWordChange) -> (out: DiffBlock)
    ensures
        out@ == block_of(record@),
{
    let kind = if same_text(record.change_type.as_str(), ADDED) {
        ADD
    } else if same_text(record.change_type.as_str(), REMOVED) {
        DEL
    } else {
        NEUTRAL
    };
    DiffBlock { block_type: kind.to_owned(), text: record.text }
}

/// The blocks that show a stored difference, where `parsed` is what decoding
/// the stored text gave.
///
/// A text that could not be decoded gives the decode error, never an empty
/// list: an empty list is what a revision without a change shows. A decoded
/// difference gives one block for each record, in order.
pub fn diff_blocks(parsed: Result<Vec<RawWordChange>, String>) -> (out: Result<
    Vec<DiffBlock>,
    DiffDecodeError,
>)
    ensures
        match parsed {
            Ok(records) => out is Ok && block_views(out->Ok_0@) == record_views(
                records@,
            ).map_values(|record: Labelled| block_of(record)),
            Err(reason) => out is Err && out->Err_0.reason == reason,
        },
{
    let records = match parsed {
        Err(reason) => {
            return Err(DiffDecodeError { reason });
        },
        Ok(records) => records,
    };
    let ghost items = records@;
    let mut blocks: Vec<DiffBlock> = Vec::new();
    proof {
        assert(block_views(blocks@) =~= record_views(items.take(0)).map_values(
            |record: Labelled| block_of(record),
        ));
    }
    for record in it: records.into_iter()
        invariant
            it.seq() == items,
            block_views(blocks@) == record_views(items.take(it.index() as int)).map_values(
                |record: Labelled| block_of(record),
            ),
    {
        let ghost done = it.index() as int;
        let shown = block(record);
        proof {
            assert(items.take(done + 1) =~= items.take(done).push(items[done]));
            assert(record_views(items.take(done + 1)).map_values(
                |record: Labelled| block_of(record),
            ) =~= record_views(items.take(done)).map_values(
                |record: Labelled| block_of(record),
            ).push(shown@));
            assert(block_views(blocks@.push(shown)) =~= block_views(blocks@).push(shown@));
        }
        blocks.push(shown);
    }
    proof {
        assert(items.take(items.len() as int) =~= items);
    }
    Ok(blocks)
}

/// The stored text of a revision's difference: the text itself, or the
/// empty list where the revision holds none.
pub fn stored_diff(diff: Option<String>) -> (text: String)
    ensures
        match diff {
            Some(stored) => text == stored,
            None => text@ == EMPTY_DIFF@,
        },
{
    match diff {
        Some(stored) => stored,
        None => EMPTY_DIFF.to_owned(),
    }
}

} // verus!
