//! The word-level difference between two snapshots of a text: an edit
//! script over their tokens that keeps a longest common subsequence.

use crate::sequences::{lemma_filter_map_push, lemma_filter_push};
use crate::tokens::{
    is_blank, is_blank_text, lemma_tokens_split_text, texts, tokenize, tokens,
};
use vstd::prelude::*;

verus! {

/// One token of a difference, with the side it belongs to. The token is
/// borrowed from the text it was cut from.
#[derive(Clone, Copy, Debug, PartialEq, Eq)]
pub enum WordChange<'a> {
    /// The token stands in the new text only.
    Added(&'a str),
    /// The token stands in the old text only.
    Removed(&'a str),
    /// The token stands in both texts.
    Unchanged(&'a str),
}

/// One token of a difference that owns its text, as it is kept with a
/// revision.
#[derive(Clone, Debug, PartialEq, Eq)]
pub enum OwnedWordChange {
    /// The token stands in the new text only.
    Added(String),
    /// The token stands in the old text only.
    Removed(String),
    /// The token stands in both texts.
    Unchanged(String),
}

/// What a `WordChange` or an `OwnedWordChange` stands for: a tag and the
/// characters of a token.
pub enum Change {
    Added(Seq<char>),
    Removed(Seq<char>),
    Unchanged(Seq<char>),
}

impl<'a> View for WordChange<'a> {
    type V = Change;

    open spec fn view(&self) -> Change {
        match *self {
            WordChange::Added(token) => Change::Added(token@),
            WordChange::Removed(token) => Change::Removed(token@),
            WordChange::Unchanged(token) => Change::Unchanged(token@),
        }
    }
}

impl View for OwnedWordChange {
    type V = Change;

    open spec fn view(&self) -> Change {
        match *self {
            OwnedWordChange::Added(token) => Change::Added(token@),
            OwnedWordChange::Removed(token) => Change::Removed(token@),
            OwnedWordChange::Unchanged(token) => Change::Unchanged(token@),
        }
    }
}

impl<'a> From<WordChange<'a>> for OwnedWordChange {
    /// The same change with a copy of the token.
    fn from(wc: WordChange<'a>) -> (out: OwnedWordChange)
        ensures
            out@ == wc@,
    {
        match wc {
            WordChange::Added(s) => OwnedWordChange::Added(s.to_owned()),
            WordChange::Removed(s) => OwnedWordChange::Removed(s.to_owned()),
            WordChange::Unchanged(s) => OwnedWordChange::Unchanged(s.to_owned()),
        }
    }
}

impl<'a> vstd::std_specs::convert::FromSpecImpl<WordChange<'a>> for OwnedWordChange {
    open spec fn obeys_from_spec() -> bool {
        false
    }

    open spec fn from_spec(wc: WordChange<'a>) -> OwnedWordChange {
        arbitrary()
    }
}

/// The edit script that a sequence of borrowed changes stands for.
pub open spec fn script(changes: Seq<WordChange<'_>>) -> Seq<Change> {
    changes.map_values(|change: WordChange<'_>| change@)
}

/// The edit script that a sequence of owned changes stands for.
pub open spec fn owned_script(changes: Seq<OwnedWordChange>) -> Seq<Change> {
    changes.map_values(|change: OwnedWordChange| change@)
}

/// The token of a change if the change belongs to the old text.
pub open spec fn old_token(change: Change) -> Option<Seq<char>> {
    match change {
        Change::Added(_) => None,
        Change::Removed(token) => Some(token),
        Change::Unchanged(token) => Some(token),
    }
}

/// The token of a change if the change belongs to the new text.
pub open spec fn new_token(change: Change) -> Option<Seq<char>> {
    match change {
        Change::Added(token) => Some(token),
        Change::Removed(_) => None,
        Change::Unchanged(token) => Some(token),
    }
}

/// The token of a change if the change belongs to both texts.
pub open spec fn kept_token(change: Change) -> Option<Seq<char>> {
    match change {
        Change::Unchanged(token) => Some(token),
        _ => None,
    }
}

/// The removed and unchanged tokens of a script, in order.
pub open spec fn old_side(changes: Seq<Change>) -> Seq<Seq<char>> {
    changes.filter_map(|change: Change| old_token(change))
}

/// The added and unchanged tokens of a script, in order.
pub open spec fn new_side(changes: Seq<Change>) -> Seq<Seq<char>> {
    changes.filter_map(|change: Change| new_token(change))
}

/// The unchanged tokens of a script, in order.
pub open spec fn kept(changes: Seq<Change>) -> Seq<Seq<char>> {
    changes.filter_map(|change: Change| kept_token(change))
}

/// How many tokens a script adds.
pub open spec fn added_count(changes: Seq<Change>) -> nat {
    changes.filter(|change: Change| change is Added).len()
}

/// How many tokens a script removes.
pub open spec fn removed_count(changes: Seq<Change>) -> nat {
    changes.filter(|change: Change| change is Removed).len()
}

/// Whether `changes` turns the token sequence `old` into `new`: its removed
/// and unchanged tokens are `old`, its added and unchanged tokens are `new`.
pub open spec fn is_edit_script(
    changes: Seq<Change>,
    old: Seq<Seq<char>>,
    new: Seq<Seq<char>>,
) -> bool {
    old_side(changes) == old && new_side(changes) == new
}

/// Whether no edit script from `old` to `new` keeps more tokens than
/// `changes` does.
pub open spec fn keeps_most(changes: Seq<Change>, old: Seq<Seq<char>>, new: Seq<Seq<char>>) -> bool {
    forall|other: Seq<Change>| #[trigger]
        is_edit_script(other, old, new) ==> kept(other).len() <= kept(changes).len()
}

/// Whether `sub` can be had from `full` by leaving items out.
pub open spec fn is_subsequence(sub: Seq<Seq<char>>, full: Seq<Seq<char>>) -> bool
    decreases full.len(),
{
    if sub.len() == 0 {
        true
    } else if full.len() == 0 {
        false
    } else {
        ||| (sub.last() == full.last() && is_subsequence(sub.drop_last(), full.drop_last()))
        ||| is_subsequence(sub, full.drop_last())
    }
}

/// How the sides and counts of a script grow with one more change.
pub proof fn lemma_script_push(changes: Seq<Change>, change: Change)
    ensures
        old_side(changes.push(change)) == match old_token(change) {
            Some(token) => old_side(changes).push(token),
            None => old_side(changes),
        },
        new_side(changes.push(change)) == match new_token(change) {
            Some(token) => new_side(changes).push(token),
            None => new_side(changes),
        },
        kept(changes.push(change)) == match kept_token(change) {
            Some(token) => kept(changes).push(token),
            None => kept(changes),
        },
        added_count(changes.push(change)) == added_count(changes) + if change is Added {
            1nat
        } else {
            0nat
        },
        removed_count(changes.push(change)) == removed_count(changes) + if change is Removed {
            1nat
        } else {
            0nat
        },
{
    lemma_filter_map_push(changes, change, |change: Change| old_token(change));
    lemma_filter_map_push(changes, change, |change: Change| new_token(change));
    lemma_filter_map_push(changes, change, |change: Change| kept_token(change));
    lemma_filter_push(changes, change, |change: Change| change is Added);
    lemma_filter_push(changes, change, |change: Change| change is Removed);
}

/// Every change of a script is added, removed or unchanged, so the sides
/// have as many tokens as the counts say.
pub proof fn lemma_side_lengths(changes: Seq<Change>)
    ensures
        old_side(changes).len() == kept(changes).len() + removed_count(changes),
        new_side(changes).len() == kept(changes).len() + added_count(changes),
        kept(changes).len() + removed_count(changes) + added_count(changes) == changes.len(),
    decreases changes.len(),
{
    if changes.len() == 0 {
        reveal(Seq::filter);
    } else {
        let front = changes.drop_last();
        lemma_side_lengths(front);
        lemma_script_push(front, changes.last());
        assert(front.push(changes.last()) =~= changes);
    }
}

/// Counts the added and the removed tokens of a difference: occurrences of
/// tokens, whatever they hold, so a changed run of spacing counts like a
/// changed word.
pub fn count_words_from_diff<'a>(diff: &[WordChange<'a>]) -> (counts: (usize, usize))
    ensures
        counts.0 == added_count(script(diff@)),
        counts.1 == removed_count(script(diff@)),
{
    let mut added: usize = 0;
    let mut removed: usize = 0;
    let n = diff.len();
    let mut i: usize = 0;
    proof {
        reveal(Seq::filter);
        assert(script(diff@.take(0)) =~= Seq::<Change>::empty());
    }
    while i < n
        invariant
            n == diff@.len(),
            i <= n,
            added == added_count(script(diff@.take(i as int))),
            removed == removed_count(script(diff@.take(i as int))),
            added + removed <= i,
        decreases n - i,
    {
        proof {
            let seen = script(diff@.take(i as int));
            lemma_script_push(seen, diff@[i as int]@);
            assert(script(diff@.take(i + 1)) =~= seen.push(diff@[i as int]@));
        }
        match diff[i] {
            WordChange::Added(_) => {
                added = added + 1;
            },
            WordChange::Removed(_) => {
                removed = removed + 1;
            },
            WordChange::Unchanged(_) => {},
        }
        i = i + 1;
    }
    proof {
        assert(diff@.take(n as int) =~= diff@);
    }
    (added, removed)
}

/// One item of an alignment of two token sequences: a token of the left
/// sequence alone, of the right one alone, or one of each that are paired.
#[derive(Clone, Copy, Debug)]
pub enum Pairing<'a> {
    Left(&'a str),
    Both(&'a str, &'a str),
    Right(&'a str),
}

/// What a `Pairing` stands for.
pub enum PairingView {
    Left(Seq<char>),
    Both(Seq<char>, Seq<char>),
    Right(Seq<char>),
}

impl<'a> View for Pairing<'a> {
    type V = PairingView;

    open spec fn view(&self) -> PairingView {
        match *self {
            Pairing::Left(l) => PairingView::Left(l@),
            Pairing::Both(l, r) => PairingView::Both(l@, r@),
            Pairing::Right(r) => PairingView::Right(r@),
        }
    }
}

/// What each of `pairs` stands for.
pub open spec fn alignment(pairs: Seq<Pairing<'_>>) -> Seq<PairingView> {
    pairs.map_values(|pair: Pairing<'_>| pair@)
}

/// The change that one item of an alignment of old and new tokens means:
/// left alone is removed, right alone is added, a pair is unchanged and is
/// given by its left token.
pub open spec fn change_of(pair: PairingView) -> Change {
    match pair {
        PairingView::Left(l) => Change::Removed(l),
        PairingView::Both(l, _) => Change::Unchanged(l),
        PairingView::Right(r) => Change::Added(r),
    }
}

/// The edit script that an alignment of old and new tokens means.
pub open spec fn changes_of(pairs: Seq<PairingView>) -> Seq<Change> {
    pairs.map_values(|pair: PairingView| change_of(pair))
}

/// What `diff::slice` returns for two slices of strings, each string given by
/// its characters.
pub uninterp spec fn slice_diff(left: Seq<Seq<char>>, right: Seq<Seq<char>>) -> Seq<PairingView>;

/// Whether the table that aligning sequences of these lengths fills can be
/// had: it has one cell of four bytes for each pair of places, one more
/// place than items on either side, and no vector holds more than
/// `isize::MAX` bytes.
pub open spec fn table_fits(left_len: nat, right_len: nat) -> bool {
    (left_len + 1) * (right_len + 1) * 4 <= isize::MAX
}

/// Calls `diff::slice` on two slices of tokens and hands each item on as a
/// `Pairing`. Not proved, but taken from that function's source: it walks a
/// table of longest-common-subsequence lengths, so that its items, read with
/// left alone as removed, right alone as added and a pair as unchanged, turn
/// `left` into `right`, and no edit script between the two keeps more. The
/// table is a vector with one cell of four bytes for each pair of positions,
/// and a cell holds a length of a common subsequence, which is why both
/// lengths are bounded.
#[verifier::external_body]
fn align_slices<'a>(left: &Vec<&'a str>, right: &Vec<&'a str>) -> (pairs: Vec<Pairing<'a>>)
    requires
        table_fits(left@.len(), right@.len()),
    ensures
        alignment(pairs@) == slice_diff(texts(left@), texts(right@)),
        is_edit_script(changes_of(alignment(pairs@)), texts(left@), texts(right@)),
        keeps_most(changes_of(alignment(pairs@)), texts(left@), texts(right@)),
{
    diff::slice(left, right).into_iter().map(|item| match item {
        diff::Result::Left(l) => Pairing::Left(*l),
        diff::Result::Both(l, r) => Pairing::Both(*l, *r),
        diff::Result::Right(r) => Pairing::Right(*r),
    }).collect()
}

/// Reads an alignment of old and new tokens as a difference: left alone is
/// removed, right alone is added, a pair is unchanged.
pub fn changes_from_alignment<'a>(pairs: &Vec<Pairing<'a>>) -> (out: Vec<WordChange<'a>>)
    ensures
        script(out@) == changes_of(alignment(pairs@)),
{
    let mut out: Vec<WordChange<'a>> = Vec::new();
    let n = pairs.len();
    let mut i: usize = 0;
    while i < n
        invariant
            n == pairs@.len(),
            i <= n,
            script(out@) == changes_of(alignment(pairs@.take(i as int))),
        decreases n - i,
    {
        let change = match pairs[i] {
            Pairing::Left(l) => WordChange::Removed(l),
            Pairing::Both(l, _) => WordChange::Unchanged(l),
            Pairing::Right(r) => WordChange::Added(r),
        };
        proof {
            assert(pairs@.take(i + 1) =~= pairs@.take(i as int).push(pairs@[i as int]));
            assert(changes_of(alignment(pairs@.take(i + 1))) =~= changes_of(
                alignment(pairs@.take(i as int)),
            ).push(change@));
            assert(script(out@.push(change)) =~= script(out@).push(change@));
        }
        out.push(change);
        i = i + 1;
    }
    proof {
        assert(pairs@.take(n as int) =~= pairs@);
    }
    out
}

/// The script that keeps every token of `items` and changes nothing.
pub open spec fn all_kept(items: Seq<Seq<char>>) -> Seq<Change> {
    items.map_values(|token: Seq<char>| Change::Unchanged(token))
}

/// The script that changes nothing turns a sequence into itself and keeps
/// all of it.
pub proof fn lemma_all_kept(items: Seq<Seq<char>>)
    ensures
        is_edit_script(all_kept(items), items, items),
        kept(all_kept(items)) == items,
        added_count(all_kept(items)) == 0,
        removed_count(all_kept(items)) == 0,
    decreases items.len(),
{
    if items.len() == 0 {
        reveal(Seq::filter);
        assert(all_kept(items) =~= Seq::<Change>::empty());
        assert(old_side(all_kept(items)) =~= items);
        assert(new_side(all_kept(items)) =~= items);
        assert(kept(all_kept(items)) =~= items);
    } else {
        let front = items.drop_last();
        lemma_all_kept(front);
        lemma_script_push(all_kept(front), Change::Unchanged(items.last()));
        assert(all_kept(items) =~= all_kept(front).push(Change::Unchanged(items.last())));
        assert(front.push(items.last()) =~= items);
    }
}

/// An edit script from a sequence to itself that keeps as many tokens as any
/// adds nothing and removes nothing.
pub proof fn lemma_same_sides_change_nothing(changes: Seq<Change>, items: Seq<Seq<char>>)
    requires
        is_edit_script(changes, items, items),
        keeps_most(changes, items, items),
    ensures
        added_count(changes) == 0,
        removed_count(changes) == 0,
        changes == all_kept(items),
{
    lemma_all_kept(items);
    assert(is_edit_script(all_kept(items), items, items));
    lemma_side_lengths(changes);
    lemma_unchanged_script(changes);
}

/// A script that adds nothing and removes nothing is the script that keeps
/// each token of its old side.
pub proof fn lemma_unchanged_script(changes: Seq<Change>)
    requires
        added_count(changes) == 0,
        removed_count(changes) == 0,
    ensures
        changes == all_kept(old_side(changes)),
        old_side(changes) == new_side(changes),
    decreases changes.len(),
{
    if changes.len() == 0 {
        assert(old_side(changes) =~= Seq::<Seq<char>>::empty());
        assert(new_side(changes) =~= Seq::<Seq<char>>::empty());
        assert(changes =~= all_kept(old_side(changes)));
    } else {
        let front = changes.drop_last();
        let last = changes.last();
        assert(front.push(last) =~= changes);
        lemma_script_push(front, last);
        lemma_unchanged_script(front);
        assert(changes =~= all_kept(old_side(changes)));
    }
}

/// The unchanged tokens of a script are a subsequence of its old side and of
/// its new side: they are common to both.
pub proof fn lemma_kept_is_common_subsequence(changes: Seq<Change>)
    ensures
        is_subsequence(kept(changes), old_side(changes)),
        is_subsequence(kept(changes), new_side(changes)),
    decreases changes.len(),
{
    if changes.len() == 0 {
        assert(kept(changes) =~= Seq::<Seq<char>>::empty());
    } else {
        let front = changes.drop_last();
        let last = changes.last();
        assert(front.push(last) =~= changes);
        lemma_script_push(front, last);
        lemma_kept_is_common_subsequence(front);
        match last {
            Change::Unchanged(token) => {
                assert(kept(changes).drop_last() =~= kept(front));
                assert(old_side(changes).drop_last() =~= old_side(front));
                assert(new_side(changes).drop_last() =~= new_side(front));
            },
            Change::Removed(token) => {
                assert(old_side(changes).drop_last() =~= old_side(front));
            },
            Change::Added(token) => {
                assert(new_side(changes).drop_last() =~= new_side(front));
            },
        }
    }
}

/// Whether `sub` can be had from `full` with the last item of `full` kept as
/// the last of `sub`.
pub open spec fn ends_alike(sub: Seq<Seq<char>>, full: Seq<Seq<char>>) -> bool {
    &&& sub.len() > 0
    &&& full.len() > 0
    &&& sub.last() == full.last()
    &&& is_subsequence(sub.drop_last(), full.drop_last())
}

/// An edit script from `old` to `new` that keeps `common`, where `common` is
/// a subsequence of both: from the end, a token of `old` that `common` does
/// not need is removed, one of `new` that it does not need is added, and a
/// token that both end with and `common` needs is kept.
pub open spec fn script_keeping(
    common: Seq<Seq<char>>,
    old: Seq<Seq<char>>,
    new: Seq<Seq<char>>,
) -> Seq<Change>
    decreases old.len() + new.len(),
{
    if old.len() == 0 && new.len() == 0 {
        Seq::empty()
    } else if old.len() > 0 && !ends_alike(common, old) {
        script_keeping(common, old.drop_last(), new).push(Change::Removed(old.last()))
    } else if new.len() > 0 && !ends_alike(common, new) {
        script_keeping(common, old, new.drop_last()).push(Change::Added(new.last()))
    } else if old.len() > 0 && new.len() > 0 && common.len() > 0 {
        script_keeping(common.drop_last(), old.drop_last(), new.drop_last()).push(
            Change::Unchanged(common.last()),
        )
    } else {
        Seq::empty()
    }
}

/// Every common subsequence of two sequences is what some edit script
/// between them keeps.
pub proof fn lemma_script_keeping(common: Seq<Seq<char>>, old: Seq<Seq<char>>, new: Seq<Seq<char>>)
    requires
        is_subsequence(common, old),
        is_subsequence(common, new),
    ensures
        is_edit_script(script_keeping(common, old, new), old, new),
        kept(script_keeping(common, old, new)) == common,
    decreases old.len() + new.len(),
{
    if old.len() == 0 && new.len() == 0 {
        let none = Seq::<Change>::empty();
        assert(old_side(none) =~= old);
        assert(new_side(none) =~= new);
        assert(kept(none) =~= common);
    } else if old.len() > 0 && !ends_alike(common, old) {
        lemma_script_keeping(common, old.drop_last(), new);
        lemma_script_push(script_keeping(common, old.drop_last(), new), Change::Removed(old.last()));
        assert(old.drop_last().push(old.last()) =~= old);
    } else if new.len() > 0 && !ends_alike(common, new) {
        lemma_script_keeping(common, old, new.drop_last());
        lemma_script_push(script_keeping(common, old, new.drop_last()), Change::Added(new.last()));
        assert(new.drop_last().push(new.last()) =~= new);
    } else {
        assert(ends_alike(common, old) && ends_alike(common, new));
        lemma_script_keeping(common.drop_last(), old.drop_last(), new.drop_last());
        lemma_script_push(
            script_keeping(common.drop_last(), old.drop_last(), new.drop_last()),
            Change::Unchanged(common.last()),
        );
        assert(old.drop_last().push(old.last()) =~= old);
        assert(new.drop_last().push(new.last()) =~= new);
        assert(common.drop_last().push(common.last()) =~= common);
    }
}

/// Whether `longest` is a longest common subsequence of `old` and `new`: it
/// is a subsequence of both, and no sequence that is one of both is longer.
pub open spec fn is_longest_common(
    longest: Seq<Seq<char>>,
    old: Seq<Seq<char>>,
    new: Seq<Seq<char>>,
) -> bool {
    &&& is_subsequence(longest, old)
    &&& is_subsequence(longest, new)
    &&& forall|common: Seq<Seq<char>>|
        #[trigger] is_subsequence(common, old) && is_subsequence(common, new) ==> common.len()
            <= longest.len()
}

/// What an edit script that keeps most keeps is a longest common
/// subsequence of the two sequences.
pub proof fn lemma_kept_is_longest(changes: Seq<Change>, old: Seq<Seq<char>>, new: Seq<Seq<char>>)
    requires
        is_edit_script(changes, old, new),
        keeps_most(changes, old, new),
    ensures
        is_longest_common(kept(changes), old, new),
{
    lemma_kept_is_common_subsequence(changes);
    assert forall|common: Seq<Seq<char>>|
        #[trigger] is_subsequence(common, old) && is_subsequence(common, new) implies common.len()
        <= kept(changes).len() by {
        lemma_script_keeping(common, old, new);
        assert(is_edit_script(script_keeping(common, old, new), old, new));
    }
}

/// The difference between two token sequences, as the alignment of
/// `diff::slice` gives it.
pub open spec fn token_diff(old: Seq<Seq<char>>, new: Seq<Seq<char>>) -> Seq<Change> {
    changes_of(slice_diff(old, new))
}

/// An edit script between the tokens of two texts gives both texts back:
/// its removed and unchanged tokens, put together in order, are the old
/// text, and its added and unchanged tokens are the new one, character for
/// character.
pub proof fn lemma_sides_give_texts_back(changes: Seq<Change>, old: Seq<char>, new: Seq<char>)
    requires
        is_edit_script(changes, tokens(old), tokens(new)),
    ensures
        old_side(changes).flatten() == old,
        new_side(changes).flatten() == new,
{
    lemma_tokens_split_text(old);
    lemma_tokens_split_text(new);
}

/// The word-level difference between two texts.
pub open spec fn word_diff(old: Seq<char>, new: Seq<char>) -> Seq<Change> {
    token_diff(tokens(old), tokens(new))
}

/// The difference between two token sequences: an edit script from `old` to
/// `new` that keeps a longest common subsequence of the two. Its removed and
/// unchanged tokens are `old`, its added and unchanged tokens are `new`, both
/// in order, and equal sequences give a script without a change.
pub fn diff_tokens<'a>(old: &Vec<&'a str>, new: &Vec<&'a str>) -> (out: Vec<WordChange<'a>>)
    requires
        table_fits(old@.len(), new@.len()),
    ensures
        script(out@) == token_diff(texts(old@), texts(new@)),
        is_edit_script(script(out@), texts(old@), texts(new@)),
        keeps_most(script(out@), texts(old@), texts(new@)),
        is_longest_common(kept(script(out@)), texts(old@), texts(new@)),
        texts(old@) == texts(new@) ==> added_count(script(out@)) == 0 && removed_count(
            script(out@),
        ) == 0,
{
    let pairs = align_slices(old, new);
    let out = changes_from_alignment(&pairs);
    proof {
        lemma_kept_is_longest(script(out@), texts(old@), texts(new@));
        if texts(old@) == texts(new@) {
            lemma_same_sides_change_nothing(script(out@), texts(old@));
        }
    }
    out
}

/// The word-level difference between two texts: both are split into tokens,
/// and the tokens are aligned along a longest common subsequence. Put
/// together, the removed and unchanged tokens give `old` back and the added
/// and unchanged tokens give `new`.
pub fn diff_words<'a>(old: &'a str, new: &'a str) -> (out: Vec<WordChange<'a>>)
    requires
        table_fits(tokens(old@).len(), tokens(new@).len()),
    ensures
        script(out@) == word_diff(old@, new@),
        is_edit_script(script(out@), tokens(old@), tokens(new@)),
        keeps_most(script(out@), tokens(old@), tokens(new@)),
        is_longest_common(kept(script(out@)), tokens(old@), tokens(new@)),
        old_side(script(out@)).flatten() == old@,
        new_side(script(out@)).flatten() == new@,
        old@ == new@ ==> added_count(script(out@)) == 0 && removed_count(script(out@)) == 0,
{
    let old_tokens = tokenize(old);
    let new_tokens = tokenize(new);
    diff_tokens(&old_tokens, &new_tokens)
}

/// `diff_words` for texts of any size: `None` where the two texts have too
/// many tokens for the alignment's table, else the difference.
pub fn try_diff_words<'a>(old: &'a str, new: &'a str) -> (out: Option<Vec<WordChange<'a>>>)
    ensures
        out is Some <==> table_fits(tokens(old@).len(), tokens(new@).len()),
        out matches Some(diff) ==> {
            &&& script(diff@) == word_diff(old@, new@)
            &&& is_edit_script(script(diff@), tokens(old@), tokens(new@))
            &&& keeps_most(script(diff@), tokens(old@), tokens(new@))
            &&& is_longest_common(kept(script(diff@)), tokens(old@), tokens(new@))
            &&& old_side(script(diff@)).flatten() == old@
            &&& new_side(script(diff@)).flatten() == new@
            &&& old@ == new@ ==> added_count(script(diff@)) == 0 && removed_count(script(diff@))
                == 0
        },
{
    let old_tokens = tokenize(old);
    let new_tokens = tokenize(new);
    if fits_table(old_tokens.len(), new_tokens.len()) {
        Some(diff_tokens(&old_tokens, &new_tokens))
    } else {
        None
    }
}

/// Whether sequences of these lengths can be aligned.
pub fn fits_table(left_len: usize, right_len: usize) -> (fits: bool)
    ensures
        fits == table_fits(left_len as nat, right_len as nat),
{
    match (left_len.checked_add(1), right_len.checked_add(1)) {
        (Some(rows), Some(columns)) => match rows.checked_mul(columns) {
            Some(cells) => cells <= (isize::MAX as usize) / 4,
            None => false,
        },
        (None, _) => {
            assert((left_len + 1) * (right_len + 1) > usize::MAX) by (nonlinear_arith)
                requires
                    left_len + 1 > usize::MAX,
                    right_len >= 0,
            ;
            false
        },
        (_, None) => {
            assert((left_len + 1) * (right_len + 1) > usize::MAX) by (nonlinear_arith)
                requires
                    right_len + 1 > usize::MAX,
                    left_len >= 0,
            ;
            false
        },
    }
}

/// Copies a difference so that it no longer borrows from the two texts.
pub fn owned_changes<'a>(diff: &Vec<WordChange<'a>>) -> (out: Vec<OwnedWordChange>)
    ensures
        owned_script(out@) == script(diff@),
{
    let mut out: Vec<OwnedWordChange> = Vec::new();
    let n = diff.len();
    let mut i: usize = 0;
    while i < n
        invariant
            n == diff@.len(),
            i <= n,
            owned_script(out@) == script(diff@.take(i as int)),
        decreases n - i,
    {
        let owned = OwnedWordChange::from(diff[i]);
        proof {
            assert(diff@.take(i + 1) =~= diff@.take(i as int).push(diff@[i as int]));
            assert(script(diff@.take(i + 1)) =~= script(diff@.take(i as int)).push(owned@));
            assert(owned_script(out@.push(owned)) =~= owned_script(out@).push(owned@));
        }
        out.push(owned);
        i = i + 1;
    }
    proof {
        assert(diff@.take(n as int) =~= diff@);
    }
    out
}

/// Whether a change adds a token that is more than white space.
pub open spec fn adds_visible(change: Change) -> bool {
    change matches Change::Added(token) && !is_blank_text(token)
}

/// Whether a change removes a token that is more than white space.
pub open spec fn removes_visible(change: Change) -> bool {
    change matches Change::Removed(token) && !is_blank_text(token)
}

/// How many tokens that are more than white space a script adds.
pub open spec fn visible_added_count(changes: Seq<Change>) -> nat {
    changes.filter(|change: Change| adds_visible(change)).len()
}

/// How many tokens that are more than white space a script removes.
pub open spec fn visible_removed_count(changes: Seq<Change>) -> nat {
    changes.filter(|change: Change| removes_visible(change)).len()
}

/// Counts the added and the removed tokens of a stored difference, leaving
/// out those that hold nothing but white space.
pub fn count_visible_words(diff: &[OwnedWordChange]) -> (counts: (usize, usize))
    ensures
        counts.0 == visible_added_count(owned_script(diff@)),
        counts.1 == visible_removed_count(owned_script(diff@)),
{
    let mut added: usize = 0;
    let mut removed: usize = 0;
    let n = diff.len();
    let mut i: usize = 0;
    proof {
        reveal(Seq::filter);
        assert(owned_script(diff@.take(0)) =~= Seq::<Change>::empty());
    }
    while i < n
        invariant
            n == diff@.len(),
            i <= n,
            added == visible_added_count(owned_script(diff@.take(i as int))),
            removed == visible_removed_count(owned_script(diff@.take(i as int))),
            added + removed <= i,
        decreases n - i,
    {
        proof {
            let seen = owned_script(diff@.take(i as int));
            lemma_filter_push(seen, diff@[i as int]@, |change: Change| adds_visible(change));
            lemma_filter_push(seen, diff@[i as int]@, |change: Change| removes_visible(change));
            assert(owned_script(diff@.take(i + 1)) =~= seen.push(diff@[i as int]@));
        }
        match &diff[i] {
            OwnedWordChange::Added(token) => {
                if !is_blank(token.as_str()) {
                    added = added + 1;
                }
            },
            OwnedWordChange::Removed(token) => {
                if !is_blank(token.as_str()) {
                    removed = removed + 1;
                }
            },
            OwnedWordChange::Unchanged(_) => {},
        }
        i = i + 1;
    }
    proof {
        assert(diff@.take(n as int) =~= diff@);
    }
    (added, removed)
}

} // verus!
