use std::borrow::Cow;

use j3treetext::domain::text_edit::{
    replace_all_literal, replace_literal_at_in_place, ReplaceAllError, TextMatch,
};

#[test]
fn replace_all_literal_borrows_content_when_no_matches() {
    let content = "large document without the target";

    let result = replace_all_literal(content, "missing", "replacement", usize::MAX)
        .expect("no-match replace all should succeed");

    assert_eq!(result.count, 0);
    assert_eq!(result.content.as_ref(), content);
    assert!(matches!(result.content, Cow::Borrowed(_)));
}

#[test]
fn replace_all_literal_borrows_content_for_empty_needle() {
    let content = "unchanged content";

    let result = replace_all_literal(content, "", "replacement", 0)
        .expect("empty needle should be treated as no replacements");

    assert_eq!(result.count, 0);
    assert_eq!(result.content.as_ref(), content);
    assert!(matches!(result.content, Cow::Borrowed(_)));
}

#[test]
fn replace_all_literal_replaces_matches_and_counts_them() {
    let result = replace_all_literal("one two one", "one", "three", usize::MAX)
        .expect("matching replace all should succeed");

    assert_eq!(result.count, 2);
    assert_eq!(result.content.as_ref(), "three two three");
}

#[test]
fn replace_all_literal_handles_many_matches_at_exact_output_limit() {
    let content = "a".repeat(4096);
    let expected = "bc".repeat(4096);

    let result = replace_all_literal(&content, "a", "bc", expected.len())
        .expect("many-match replace all should succeed at the exact output limit");

    assert_eq!(result.count, 4096);
    assert_eq!(result.content.as_ref(), expected);
}

#[test]
fn replace_all_literal_counts_identical_replacements() {
    let content = "one two one";

    let result = replace_all_literal(content, "one", "one", usize::MAX)
        .expect("identical replacement should still count matches");

    assert_eq!(result.count, 2);
    assert_eq!(result.content.as_ref(), content);
    assert!(matches!(result.content, Cow::Borrowed(_)));
}

#[test]
fn replace_all_literal_identical_replacement_enforces_output_limit() {
    let result = replace_all_literal("one two one", "one", "one", 5);

    assert_eq!(result, Err(ReplaceAllError::OutputTooLarge { limit: 5 }));
}

#[test]
fn replace_all_literal_enforces_output_limit_for_no_match() {
    let result = replace_all_literal("abcd", "missing", "replacement", 3);

    assert_eq!(result, Err(ReplaceAllError::OutputTooLarge { limit: 3 }));
}

#[test]
fn replace_all_literal_enforces_output_limit_for_matches() {
    let result = replace_all_literal("aa", "a", "abc", 5);

    assert_eq!(result, Err(ReplaceAllError::OutputTooLarge { limit: 5 }));
}

#[test]
fn replace_literal_at_in_place_reuses_existing_content() {
    let mut content = String::from("alpha beta alpha");
    let capacity_before = content.capacity();
    let replaced = replace_literal_at_in_place(&mut content, "beta", "one", 6)
        .expect("matching range should replace in place");

    assert_eq!(replaced, TextMatch { start: 6, end: 10 });
    assert_eq!(content, "alpha one alpha");
    assert!(content.capacity() <= capacity_before);
}

#[test]
fn replace_literal_at_in_place_rejects_non_matching_position() {
    let mut content = String::from("alpha beta");

    assert!(replace_literal_at_in_place(&mut content, "alpha", "one", 1).is_none());
    assert_eq!(content, "alpha beta");
}
