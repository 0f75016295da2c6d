use docwatch::changes::{
    changes_from_alignment, count_visible_words, count_words_from_diff, diff_tokens, diff_words,
    fits_table, owned_changes, try_diff_words, OwnedWordChange, Pairing, WordChange,
};
use docwatch::tokens::{char_kind, is_blank, is_whitespace, tokenize, CharKind};

fn old_side(diff: &[WordChange<'_>]) -> String {
    let mut out = String::new();
    for change in diff {
        match change {
            WordChange::Removed(t) | WordChange::Unchanged(t) => out.push_str(t),
            WordChange::Added(_) => {}
        }
    }
    out
}

fn new_side(diff: &[WordChange<'_>]) -> String {
    let mut out = String::new();
    for change in diff {
        match change {
            WordChange::Added(t) | WordChange::Unchanged(t) => out.push_str(t),
            WordChange::Removed(_) => {}
        }
    }
    out
}

fn kept<'a>(diff: &[WordChange<'a>]) -> Vec<&'a str> {
    let mut out = Vec::new();
    for change in diff {
        if let WordChange::Unchanged(t) = change {
            out.push(*t);
        }
    }
    out
}

fn is_subsequence(sub: &[&str], full: &[&str]) -> bool {
    let mut i = 0;
    for item in full {
        if i < sub.len() && sub[i] == *item {
            i += 1;
        }
    }
    i == sub.len()
}

fn longest_common(a: &[&str], b: &[&str]) -> usize {
    let mut table = vec![vec![0usize; b.len() + 1]; a.len() + 1];
    for i in 0..a.len() {
        for j in 0..b.len() {
            table[i + 1][j + 1] = if a[i] == b[j] {
                table[i][j] + 1
            } else {
                table[i][j + 1].max(table[i + 1][j])
            };
        }
    }
    table[a.len()][b.len()]
}

#[test]
fn tokens_of_a_sentence() {
    assert_eq!(tokenize("The quick  fox\n"), vec!["The", " ", "quick", "  ", "fox", "\n"]);
}

#[test]
fn empty_text_has_no_token() {
    assert!(tokenize("").is_empty());
}

#[test]
fn each_line_feed_is_a_token_of_its_own() {
    assert_eq!(tokenize("a\n\n\nb"), vec!["a", "\n", "\n", "\n", "b"]);
    assert_eq!(tokenize(" \n "), vec![" ", "\n", " "]);
}

#[test]
fn spacing_other_than_line_feed_runs_together() {
    assert_eq!(tokenize("a \t\u{a0}\u{3000}b"), vec!["a", " \t\u{a0}\u{3000}", "b"]);
    assert_eq!(tokenize("a \r\nb"), vec!["a", " \r", "\n", "b"]);
}

#[test]
fn visible_runs_hold_any_characters_that_are_not_spacing() {
    assert_eq!(tokenize("h\u{e9}llo,w\u{f6}rld! \u{1f600}x"), vec!["h\u{e9}llo,w\u{f6}rld!", " ", "\u{1f600}x"]);
}

#[test]
fn tokens_put_together_give_the_text_back() {
    let text = "  One\ttwo \r\n\n three\u{2003}four  \n";
    assert_eq!(tokenize(text).concat(), text);
}

#[test]
fn kinds_of_characters() {
    assert_eq!(char_kind('\n'), CharKind::Newline);
    assert_eq!(char_kind(' '), CharKind::Blank);
    assert_eq!(char_kind('\r'), CharKind::Blank);
    assert_eq!(char_kind('\u{2028}'), CharKind::Blank);
    assert_eq!(char_kind('a'), CharKind::Visible);
    assert_eq!(char_kind('\u{200b}'), CharKind::Visible);
}

#[test]
fn white_space_is_what_std_calls_white_space() {
    let mut code: u32 = 0;
    while code <= 0x10ffff {
        if let Some(c) = char::from_u32(code) {
            assert_eq!(is_whitespace(c), c.is_whitespace(), "U+{:04X}", code);
        }
        code += 1;
    }
}

#[test]
fn tokens_are_the_matches_of_the_token_pattern() {
    let pattern = regex::Regex::new(r"\n|[^\S\n]+|[^\s]+").unwrap();
    let texts = [
        "",
        "The quick brown fox",
        "  leading and trailing  ",
        "line one\nline two\n\nline four",
        "tabs\tand\u{a0}hard spaces\u{2003}and \u{3000}wide ones",
        "carriage\r\nreturns \r stay",
        "\n\n\n",
        "x",
    ];
    for text in texts {
        let expected: Vec<&str> = pattern.find_iter(text).map(|m| m.as_str()).collect();
        assert_eq!(tokenize(text), expected, "{:?}", text);
    }
}

#[test]
fn inserted_word_is_added_with_its_space() {
    let diff = diff_words("The quick fox", "The quick brown fox");
    assert_eq!(
        diff,
        vec![
            WordChange::Unchanged("The"),
            WordChange::Unchanged(" "),
            WordChange::Unchanged("quick"),
            WordChange::Unchanged(" "),
            WordChange::Added("brown"),
            WordChange::Added(" "),
            WordChange::Unchanged("fox"),
        ]
    );
    assert_eq!(count_words_from_diff(&diff), (2, 0));
}

#[test]
fn removed_word_is_removed_with_its_space() {
    let diff = diff_words("The quick brown fox", "The quick fox");
    assert_eq!(count_words_from_diff(&diff), (0, 2));
    assert_eq!(old_side(&diff), "The quick brown fox");
    assert_eq!(new_side(&diff), "The quick fox");
}

#[test]
fn replaced_word_is_removed_and_added() {
    let diff = diff_words("a b c", "a x c");
    assert_eq!(
        diff,
        vec![
            WordChange::Unchanged("a"),
            WordChange::Unchanged(" "),
            WordChange::Removed("b"),
            WordChange::Added("x"),
            WordChange::Unchanged(" "),
            WordChange::Unchanged("c"),
        ]
    );
    assert_eq!(count_words_from_diff(&diff), (1, 1));
}

#[test]
fn equal_texts_change_nothing() {
    for text in ["", "Hello world", "a\nb\n\n c  d\t", "\u{1f600} \u{1f600}"] {
        let diff = diff_words(text, text);
        assert_eq!(count_words_from_diff(&diff), (0, 0));
        assert_eq!(diff.len(), tokenize(text).len());
        assert!(diff.iter().all(|c| matches!(c, WordChange::Unchanged(_))));
    }
}

#[test]
fn diff_from_and_to_nothing() {
    let added = diff_words("", "new text");
    assert_eq!(
        added,
        vec![WordChange::Added("new"), WordChange::Added(" "), WordChange::Added("text")]
    );
    let removed = diff_words("old text", "");
    assert_eq!(
        removed,
        vec![WordChange::Removed("old"), WordChange::Removed(" "), WordChange::Removed("text")]
    );
    assert!(diff_words("", "").is_empty());
}

#[test]
fn changed_spacing_counts_like_a_changed_word() {
    let diff = diff_words("a b", "a  b");
    assert_eq!(
        diff,
        vec![
            WordChange::Unchanged("a"),
            WordChange::Removed(" "),
            WordChange::Added("  "),
            WordChange::Unchanged("b"),
        ]
    );
    assert_eq!(count_words_from_diff(&diff), (1, 1));
}

#[test]
fn sides_of_a_diff_give_both_texts_back() {
    let pairs = [
        ("one two three four", "one three four five"),
        ("a\nb\nc", "a\nc\nb"),
        ("x y z", "z y x"),
        ("  keep  the   spacing ", "keep the spacing"),
        ("same", "same"),
        ("", "only new"),
    ];
    for (old, new) in pairs {
        let diff = diff_words(old, new);
        assert_eq!(old_side(&diff), old);
        assert_eq!(new_side(&diff), new);
    }
}

#[test]
fn unchanged_tokens_are_common_to_both_texts() {
    let pairs = [
        ("one two three four", "one three four five"),
        ("x y z", "z y x"),
        ("a b a b a", "b a b a b"),
    ];
    for (old, new) in pairs {
        let diff = diff_words(old, new);
        let common = kept(&diff);
        assert!(is_subsequence(&common, &tokenize(old)));
        assert!(is_subsequence(&common, &tokenize(new)));
    }
}

#[test]
fn no_alignment_keeps_more_tokens() {
    let words = ["a", "b", "c"];
    let mut sequences: Vec<Vec<&str>> = vec![vec![]];
    let mut frontier: Vec<Vec<&str>> = vec![vec![]];
    for _ in 0..4 {
        let mut next = Vec::new();
        for sequence in &frontier {
            for word in words {
                let mut longer = sequence.clone();
                longer.push(word);
                next.push(longer);
            }
        }
        sequences.extend(next.iter().cloned());
        frontier = next;
    }
    for old in &sequences {
        for new in &sequences {
            let diff = diff_tokens(old, new);
            assert_eq!(kept(&diff).len(), longest_common(old, new));
            let (added, removed) = count_words_from_diff(&diff);
            assert_eq!(removed + kept(&diff).len(), old.len());
            assert_eq!(added + kept(&diff).len(), new.len());
        }
    }
}

#[test]
fn counts_count_occurrences() {
    let diff = vec![
        WordChange::Added("x"),
        WordChange::Added("x"),
        WordChange::Removed(" "),
        WordChange::Unchanged("y"),
        WordChange::Added("\n"),
    ];
    assert_eq!(count_words_from_diff(&diff), (3, 1));
    assert_eq!(count_words_from_diff(&[]), (0, 0));
}

#[test]
fn alignment_reads_left_as_removed_and_right_as_added() {
    let pairs = vec![Pairing::Left("gone"), Pairing::Both("same", "same"), Pairing::Right("new")];
    assert_eq!(
        changes_from_alignment(&pairs),
        vec![WordChange::Removed("gone"), WordChange::Unchanged("same"), WordChange::Added("new")]
    );
}

#[test]
fn owned_changes_keep_tag_and_token() {
    let diff = diff_words("a b", "a c");
    assert_eq!(
        owned_changes(&diff),
        vec![
            OwnedWordChange::Unchanged("a".to_string()),
            OwnedWordChange::Unchanged(" ".to_string()),
            OwnedWordChange::Removed("b".to_string()),
            OwnedWordChange::Added("c".to_string()),
        ]
    );
    assert_eq!(OwnedWordChange::from(WordChange::Added("t")), OwnedWordChange::Added("t".to_string()));
    assert_eq!(
        OwnedWordChange::from(WordChange::Removed("t")),
        OwnedWordChange::Removed("t".to_string())
    );
    assert_eq!(
        OwnedWordChange::from(WordChange::Unchanged("t")),
        OwnedWordChange::Unchanged("t".to_string())
    );
}

#[test]
fn texts_of_ordinary_size_can_be_aligned() {
    assert!(fits_table(0, 0));
    assert!(fits_table(100_000, 100_000));
    assert!(!fits_table(usize::MAX, 1));
    assert!(!fits_table(1, usize::MAX));
    assert!(!fits_table(usize::MAX / 2, 2));
    let most = (isize::MAX as usize) / 4;
    assert!(fits_table(most - 1, 0));
    assert!(fits_table(0, most - 1));
    assert!(!fits_table(most, 0));
    assert!(!fits_table(0, most));
    assert!(fits_table(most / 2 - 1, 1));
    assert!(!fits_table(most / 2, 1));
    let diff = try_diff_words("The quick fox", "The quick brown fox").unwrap();
    assert_eq!(diff, diff_words("The quick fox", "The quick brown fox"));
}

#[test]
fn blank_texts_hold_nothing_but_white_space() {
    assert!(is_blank(""));
    assert!(is_blank(" "));
    assert!(is_blank(" \t\r\n\u{a0}\u{3000}"));
    assert!(!is_blank("a"));
    assert!(!is_blank("  a  "));
    assert!(!is_blank("\u{200b}"));
}

#[test]
fn visible_counts_leave_spacing_out() {
    let diff = vec![
        OwnedWordChange::Unchanged("hello".to_string()),
        OwnedWordChange::Added(" ".to_string()),
        OwnedWordChange::Added("brave".to_string()),
        OwnedWordChange::Added("\n".to_string()),
        OwnedWordChange::Added("new".to_string()),
        OwnedWordChange::Removed("\t ".to_string()),
        OwnedWordChange::Removed("old".to_string()),
        OwnedWordChange::Unchanged(" ".to_string()),
        OwnedWordChange::Unchanged("world".to_string()),
    ];
    assert_eq!(count_visible_words(&diff), (2, 1));
    assert_eq!(count_visible_words(&[]), (0, 0));
}

#[test]
fn visible_counts_of_an_inserted_word() {
    let diff = owned_changes(&diff_words("hello world", "hello brave world"));
    assert_eq!(count_words_from_diff(&diff_words("hello world", "hello brave world")), (2, 0));
    assert_eq!(count_visible_words(&diff), (1, 0));
}
