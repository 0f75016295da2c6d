//! Splitting a text into the units that are compared: line breaks, runs of
//! spacing and runs of visible characters.

use vstd::prelude::*;
use vstd::string::StrSliceExecFns;

verus! {

/// The three kinds of character that the splitting tells apart.
#[derive(Clone, Copy, Debug, PartialEq, Eq, Structural)]
pub enum CharKind {
    /// The line feed.
    Newline,
    /// White space other than the line feed.
    Blank,
    /// Anything that is not white space.
    Visible,
}

/// Whether `c` has the Unicode property White_Space.
pub open spec fn is_white_space(c: char) -> bool {
    let u = c as u32;
    ||| 0x09 <= u <= 0x0D
    ||| u == 0x20
    ||| u == 0x85
    ||| u == 0xA0
    ||| u == 0x1680
    ||| 0x2000 <= u <= 0x200A
    ||| u == 0x2028
    ||| u == 0x2029
    ||| u == 0x202F
    ||| u == 0x205F
    ||| u == 0x3000
}

/// The kind of one character.
pub open spec fn kind_of(c: char) -> CharKind {
    if c == '\n' {
        CharKind::Newline
    } else if is_white_space(c) {
        CharKind::Blank
    } else {
        CharKind::Visible
    }
}

/// Whether `b`, standing directly behind `a`, belongs to the same token: both
/// are spacing or both are visible. A line feed never joins anything.
pub open spec fn joins(a: char, b: char) -> bool {
    kind_of(a) == kind_of(b) && kind_of(a) != CharKind::Newline
}

/// The length of the token that a non-empty text starts with.
pub open spec fn first_token_len(text: Seq<char>) -> int
    decreases text.len(),
{
    if text.len() >= 2 && joins(text[0], text[1]) {
        1 + first_token_len(text.skip(1))
    } else {
        1
    }
}

/// The tokens of a text, in order.
pub open spec fn tokens(text: Seq<char>) -> Seq<Seq<char>>
    decreases text.len(),
    via tokens_decreases
{
    if text.len() == 0 {
        Seq::empty()
    } else {
        let n = first_token_len(text);
        seq![text.take(n)] + tokens(text.skip(n))
    }
}

#[via_fn]
proof fn tokens_decreases(text: Seq<char>) {
    if text.len() != 0 {
        lemma_first_token_len_bounds(text);
    }
}

/// The first token of a non-empty text is non-empty and lies within it.
pub proof fn lemma_first_token_len_bounds(text: Seq<char>)
    requires
        text.len() > 0,
    ensures
        1 <= first_token_len(text) <= text.len(),
    decreases text.len(),
{
    if text.len() >= 2 && joins(text[0], text[1]) {
        lemma_first_token_len_bounds(text.skip(1));
    }
}

/// Whether every character of `token` has the kind `kind`.
pub open spec fn all_of_kind(token: Seq<char>, kind: CharKind) -> bool {
    forall|i: int| 0 <= i < token.len() ==> kind_of(#[trigger] token[i]) == kind
}

/// Whether `token` is a single line feed, a run of spacing or a run of
/// visible characters.
pub open spec fn is_token(token: Seq<char>) -> bool {
    &&& token.len() > 0
    &&& all_of_kind(token, kind_of(token[0]))
    &&& kind_of(token[0]) == CharKind::Newline ==> token.len() == 1
}

/// Whether `parts` splits `text` into tokens none of which could be longer.
pub open spec fn is_token_split(text: Seq<char>, parts: Seq<Seq<char>>) -> bool {
    &&& parts.flatten() == text
    &&& forall|i: int| 0 <= i < parts.len() ==> is_token(#[trigger] parts[i])
    &&& forall|i: int|
        0 <= i < parts.len() - 1 ==> !joins(#[trigger] parts[i].last(), parts[i + 1][0])
}

/// Within its first token a text keeps one kind of character; a line feed
/// stands alone; and the character behind the token, if there is one, does
/// not join it.
pub proof fn lemma_first_token_is_maximal_run(text: Seq<char>)
    requires
        text.len() > 0,
    ensures
        1 <= first_token_len(text) <= text.len(),
        all_of_kind(text.take(first_token_len(text)), kind_of(text[0])),
        kind_of(text[0]) == CharKind::Newline ==> first_token_len(text) == 1,
        first_token_len(text) < text.len() ==> !joins(
            text[first_token_len(text) - 1],
            text[first_token_len(text)],
        ),
    decreases text.len(),
{
    let n = first_token_len(text);
    if text.len() >= 2 && joins(text[0], text[1]) {
        let rest = text.skip(1);
        lemma_first_token_is_maximal_run(rest);
        let m = first_token_len(rest);
        assert forall|i: int| 0 <= i < n implies kind_of(#[trigger] text.take(n)[i]) == kind_of(
            text[0],
        ) by {
            if i > 0 {
                assert(text.take(n)[i] == rest.take(m)[i - 1]);
            }
        }
        if n < text.len() {
            assert(rest[m - 1] == text[n - 1]);
            assert(rest[m] == text[n]);
        }
    }
}

/// The tokens of a text split it: put together they give the text back, each
/// is a line feed, a run of spacing or a run of visible characters, and no
/// two neighbours could have been one token.
pub proof fn lemma_tokens_split_text(text: Seq<char>)
    ensures
        is_token_split(text, tokens(text)),
    decreases text.len(),
{
    if text.len() == 0 {
        assert(tokens(text).flatten() =~= text);
    } else {
        lemma_first_token_is_maximal_run(text);
        let n = first_token_len(text);
        let head = text.take(n);
        let rest = text.skip(n);
        let parts = tokens(text);
        lemma_tokens_split_text(rest);
        assert(parts.drop_first() =~= tokens(rest));
        assert(parts.flatten() =~= head + tokens(rest).flatten());
        assert(head + rest =~= text);
        assert forall|i: int| 0 <= i < parts.len() implies is_token(#[trigger] parts[i]) by {
            if i > 0 {
                assert(parts[i] == tokens(rest)[i - 1]);
            }
        }
        assert forall|i: int| 0 <= i < parts.len() - 1 implies !joins(
            #[trigger] parts[i].last(),
            parts[i + 1][0],
        ) by {
            if i == 0 {
                lemma_first_token_is_maximal_run(rest);
                assert(tokens(rest)[0] == rest.take(first_token_len(rest)));
                assert(parts[1][0] == text[n]);
                assert(parts[0].last() == text[n - 1]);
            } else {
                assert(parts[i] == tokens(rest)[i - 1]);
                assert(parts[i + 1] == tokens(rest)[i]);
            }
        }
    }
}

/// A text that begins with a token which the character behind it does not
/// join has that token as its first.
pub proof fn lemma_first_token_is_the_run(text: Seq<char>, m: int)
    requires
        1 <= m <= text.len(),
        is_token(text.take(m)),
        m < text.len() ==> !joins(text[m - 1], text[m]),
    ensures
        first_token_len(text) == m,
    decreases m,
{
    let run = text.take(m);
    if m > 1 {
        let rest = text.skip(1);
        let shorter = rest.take(m - 1);
        assert(run[0] == text[0]);
        assert(run[1] == text[1]);
        assert(kind_of(run[1]) == kind_of(run[0]));
        assert forall|i: int| 0 <= i < shorter.len() implies kind_of(#[trigger] shorter[i])
            == kind_of(shorter[0]) by {
            assert(shorter[i] == run[i + 1]);
            assert(shorter[0] == run[1]);
        }
        assert(shorter[0] == run[1]);
        if m < text.len() {
            assert(rest[m - 2] == text[m - 1]);
            assert(rest[m - 1] == text[m]);
        }
        lemma_first_token_is_the_run(rest, m - 1);
    }
}

/// A text has one split into tokens none of which could be longer: its
/// tokens.
pub proof fn lemma_token_split_is_unique(text: Seq<char>, parts: Seq<Seq<char>>)
    requires
        is_token_split(text, parts),
    ensures
        parts == tokens(text),
    decreases parts.len(),
{
    if parts.len() == 0 {
        assert(parts.flatten() =~= Seq::<char>::empty());
        assert(parts =~= tokens(text));
    } else {
        let head = parts[0];
        let tail = parts.drop_first();
        let rest = tail.flatten();
        let m = head.len() as int;
        assert(parts.flatten() == head + rest);
        assert(is_token(head));
        assert(text.take(m) =~= head);
        assert(text.skip(m) =~= rest);
        if m < text.len() {
            if tail.len() == 0 {
                assert(rest =~= Seq::<char>::empty());
            }
            assert(tail[0] == parts[1]);
            assert(is_token(parts[1]));
            assert(rest == tail[0] + tail.drop_first().flatten());
            assert(text[m] == parts[1][0]);
            assert(text[m - 1] == parts[0].last());
            assert(!joins(parts[0].last(), parts[0int + 1][0]));
        }
        lemma_first_token_is_the_run(text, m);
        assert forall|i: int| 0 <= i < tail.len() implies is_token(#[trigger] tail[i]) by {
            assert(tail[i] == parts[i + 1]);
        }
        assert forall|i: int| 0 <= i < tail.len() - 1 implies !joins(
            #[trigger] tail[i].last(),
            tail[i + 1][0],
        ) by {
            assert(tail[i] == parts[i + 1]);
            assert(tail[i + 1] == parts[i + 1 + 1]);
            assert(!joins(parts[i + 1].last(), parts[i + 1 + 1][0]));
        }
        lemma_token_split_is_unique(rest, tail);
        assert(tokens(text) =~= seq![head] + tail);
        assert(parts =~= seq![head] + tail);
    }
}

/// A text has at most as many tokens as characters.
pub proof fn lemma_tokens_len(text: Seq<char>)
    ensures
        tokens(text).len() <= text.len(),
    decreases text.len(),
{
    if text.len() > 0 {
        lemma_first_token_len_bounds(text);
        lemma_tokens_len(text.skip(first_token_len(text)));
    }
}

/// Whether `c` is white space.
pub fn is_whitespace(c: char) -> (r: bool)
    ensures
        r == is_white_space(c),
{
    let u: u32 = c as u32;
    (0x09 <= u && u <= 0x0D) || u == 0x20 || u == 0x85 || u == 0xA0 || u == 0x1680 || (0x2000 <= u
        && u <= 0x200A) || u == 0x2028 || u == 0x2029 || u == 0x202F || u == 0x205F || u == 0x3000
}

/// The kind of `c`.
pub fn char_kind(c: char) -> (kind: CharKind)
    ensures
        kind == kind_of(c),
{
    if c == '\n' {
        CharKind::Newline
    } else if is_whitespace(c) {
        CharKind::Blank
    } else {
        CharKind::Visible
    }
}

/// Whether `b` behind `a` continues the token that `a` is in.
fn continues_token(a: char, b: char) -> (r: bool)
    ensures
        r == joins(a, b),
{
    match (char_kind(a), char_kind(b)) {
        (CharKind::Blank, CharKind::Blank) => true,
        (CharKind::Visible, CharKind::Visible) => true,
        _ => false,
    }
}

/// The characters of `text`, in order.
fn chars_of(text: &str) -> (out: Vec<char>)
    ensures
        out@ == text@,
{
    let mut out: Vec<char> = Vec::new();
    for c in it: text.chars()
        invariant
            it.seq() == text@,
            out@ == it.seq().take(it.index()),
    {
        out.push(c);
    }
    out
}

/// Whether `text` holds nothing but white space.
pub open spec fn is_blank_text(text: Seq<char>) -> bool {
    forall|i: int| 0 <= i < text.len() ==> is_white_space(#[trigger] text[i])
}

/// Whether `text` holds nothing but white space; the empty text does.
pub fn is_blank(text: &str) -> (blank: bool)
    ensures
        blank == is_blank_text(text@),
{
    let chars = chars_of(text);
    let n = chars.len();
    let mut i: usize = 0;
    while i < n
        invariant
            n == chars@.len(),
            chars@ == text@,
            i <= n,
            forall|k: int| 0 <= k < i ==> is_white_space(#[trigger] text@[k]),
        decreases n - i,
    {
        if !is_whitespace(chars[i]) {
            return false;
        }
        i = i + 1;
    }
    true
}

/// What each of `parts` holds.
pub open spec fn texts(parts: Seq<&str>) -> Seq<Seq<char>> {
    parts.map_values(|part: &str| part@)
}

/// Splits `text` into its tokens: each line feed, each longest run of other
/// white space and each longest run of visible characters, in order. Every
/// character of the text lies in exactly one of them.
pub fn tokenize<'a>(text: &'a str) -> (out: Vec<&'a str>)
    ensures
        texts(out@) == tokens(text@),
        is_token_split(text@, texts(out@)),
        texts(out@).flatten() == text@,
        out@.len() <= text@.len(),
{
    let chars = chars_of(text);
    let n = chars.len();
    let mut out: Vec<&'a str> = Vec::new();
    let mut start: usize = 0;
    assert(text@.skip(0) =~= text@);
    assert(texts(out@) =~= Seq::<Seq<char>>::empty());
    while start < n
        invariant
            n == chars@.len(),
            chars@ == text@,
            start <= n,
            tokens(text@) == texts(out@) + tokens(text@.skip(start as int)),
        decreases n - start,
    {
        let ghost rest = text@.skip(start as int);
        let mut end: usize = start + 1;
        assert(rest.skip(0) =~= rest);
        while end < n && continues_token(chars[end - 1], chars[end])
            invariant
                start < end <= n,
                n == chars@.len(),
                chars@ == text@,
                rest == text@.skip(start as int),
                first_token_len(rest) == (end - start - 1) + first_token_len(
                    rest.skip(end - start - 1),
                ),
            decreases n - end,
        {
            proof {
                let here = rest.skip(end - start - 1);
                assert(here[0] == text@[end - 1]);
                assert(here[1] == text@[end as int]);
                assert(here.skip(1) =~= rest.skip(end - start));
            }
            end = end + 1;
        }
        proof {
            let here = rest.skip(end - start - 1);
            if end < n {
                assert(here[0] == text@[end - 1]);
                assert(here[1] == text@[end as int]);
            }
            assert(first_token_len(rest) == end - start);
            assert(rest.take(end - start) =~= text@.subrange(start as int, end as int));
            assert(rest.skip(end - start) =~= text@.skip(end as int));
        }
        let piece = text.substring_char(start, end);
        let ghost before = texts(out@);
        out.push(piece);
        proof {
            assert(texts(out@) =~= before.push(piece@));
            assert(tokens(rest) == seq![piece@] + tokens(text@.skip(end as int)));
            assert(before + (seq![piece@] + tokens(text@.skip(end as int))) =~= before.push(piece@)
                + tokens(text@.skip(end as int)));
        }
        start = end;
    }
    proof {
        assert(text@.skip(n as int) =~= Seq::<char>::empty());
        assert(tokens(text@) =~= texts(out@));
        lemma_tokens_split_text(text@);
        lemma_tokens_len(text@);
    }
    out
}

} // verus!
