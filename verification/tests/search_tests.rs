use j3treetext::search::{
    fts_trigram_content_query, fts_trigram_title_query, is_short_trigram_query,
    like_contains_pattern, like_prefix_pattern, normalize_title_input, search_plan,
    short_query_content_scan_limit, unique_child_title_from_titles,
    unique_restored_child_title_from_titles, SearchPlan,
};

#[test]
fn fts_trigram_content_query_escapes_phrase_quotes() {
    assert_eq!(
        fts_trigram_content_query(r#"quoted "needle""#),
        Some(r#"content : "quoted ""needle""""#.to_string())
    );
}

#[test]
fn fts_trigram_content_query_rejects_short_or_nul_queries() {
    assert_eq!(fts_trigram_content_query("ab"), None);
    assert_eq!(fts_trigram_content_query("abc\0def"), None);
}

#[test]
fn fts_title_query_uses_title_column() {
    assert_eq!(
        fts_trigram_title_query("한글문서"),
        Some("title : \"한글문서\"".to_string())
    );
}

#[test]
fn short_queries_are_counted_in_characters() {
    assert!(is_short_trigram_query("ab"));
    assert!(is_short_trigram_query("한글"));
    assert!(!is_short_trigram_query("한글자"));
}

#[test]
fn like_patterns_escape_wildcards() {
    assert_eq!(like_contains_pattern(" 50%_a^b "), Some("%50^%^_a^^b%".to_string()));
    assert_eq!(like_contains_pattern("   "), None);
    assert_eq!(like_prefix_pattern("a%"), "a^%%".to_string());
}

#[test]
fn short_query_scan_limit_is_clamped() {
    assert_eq!(short_query_content_scan_limit(1), 512);
    assert_eq!(short_query_content_scan_limit(20), 640);
    assert_eq!(short_query_content_scan_limit(1_000), 4096);
}

#[test]
fn title_input_is_trimmed_and_checked() {
    assert_eq!(normalize_title_input("  Title  ").ok(), Some("Title".to_string()));
    assert!(normalize_title_input("   ").is_err());
    assert!(normalize_title_input("a\0b").is_err());
}

#[test]
fn unique_child_titles_are_numbered() {
    let existing = vec!["Draft".to_string(), "Draft 2".to_string()];
    assert_eq!(
        unique_child_title_from_titles(&existing, "Draft").ok(),
        Some("Draft 3".to_string())
    );
    assert_eq!(
        unique_child_title_from_titles(&existing, "Other").ok(),
        Some("Other".to_string())
    );
}

#[test]
fn restored_titles_avoid_active_and_reserved_titles() {
    let active = vec!["Doc".to_string()];
    let reserved = vec!["Doc (restored)".to_string()];
    assert_eq!(
        unique_restored_child_title_from_titles(&active, "Doc", &reserved).ok(),
        Some("Doc (restored) 2".to_string())
    );
    assert_eq!(
        unique_restored_child_title_from_titles(&active, "Free", &reserved).ok(),
        Some("Free".to_string())
    );
}

#[test]
fn search_plan_picks_the_strategy_by_query_length() {
    assert!(matches!(search_plan("needle", 0).unwrap(), SearchPlan::Nothing));
    assert!(matches!(search_plan("   ", 10).unwrap(), SearchPlan::Nothing));
    match search_plan(" ab ", 10).unwrap() {
        SearchPlan::Short { pattern, limit, content_scan_limit } => {
            assert_eq!(pattern, "%ab%");
            assert_eq!(limit, 10);
            assert_eq!(content_scan_limit, 512);
        }
        other => panic!("unexpected plan: {other:?}"),
    }
    match search_plan("50%_\"x", 20).unwrap() {
        SearchPlan::FullText { pattern, title_query, content_query, limit } => {
            assert_eq!(pattern, "%50^%^_\"x%");
            assert_eq!(title_query, "title : \"50%_\"\"x\"");
            assert_eq!(content_query, "content : \"50%_\"\"x\"");
            assert_eq!(limit, 20);
        }
        other => panic!("unexpected plan: {other:?}"),
    }
    match search_plan("a\0bc", 5).unwrap() {
        SearchPlan::Like { pattern, limit } => {
            assert_eq!(pattern, "%a\0bc%");
            assert_eq!(limit, 5);
        }
        other => panic!("unexpected plan: {other:?}"),
    }
}

#[test]
fn search_plan_refuses_a_limit_beyond_the_database_range() {
    let error = search_plan("needle", usize::MAX).unwrap_err();
    assert!(matches!(
        error,
        j3treetext::error::AppError::Platform { action: "search SQLite documents", .. }
    ));
}
