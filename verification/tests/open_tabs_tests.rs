use j3treetext::domain::open_tabs::{
    DocumentTabSource, DocumentTabViewState, LoadedTabMetadataUpdate, OpenDocumentTab,
    OpenDocumentTabInput, OpenTabs,
};

#[test]
fn clean_tabs_use_current_content_as_loaded_baseline() {
    let mut tab = OpenDocumentTab::from_input(input("loaded", "v1"));
    assert_loaded_is_current(&tab);
    assert_eq!(tab.loaded_content(), "loaded");
    assert!(!tab.dirty);

    tab.mark_saved("saved".to_owned(), "v2".to_owned());
    assert_loaded_is_current(&tab);
    assert_eq!(tab.content, "saved");
    assert_eq!(tab.loaded_updated_at, "v2");
    assert!(!tab.dirty);

    assert!(tab.set_content("draft".to_owned()));
    tab.mark_current_content_saved("v3".to_owned());
    assert_loaded_is_current(&tab);
    assert_eq!(tab.loaded_content(), "draft");
    assert_eq!(tab.loaded_updated_at, "v3");
    assert!(!tab.dirty);

    tab.reload_from(input("reloaded", "v4"));
    assert_loaded_is_current(&tab);
    assert_eq!(tab.content, "reloaded");
    assert_eq!(tab.loaded_updated_at, "v4");
    assert!(!tab.dirty);

    tab.sync_from(input("synced", "v5"), false);
    assert_loaded_is_current(&tab);
    assert_eq!(tab.content, "synced");
    assert_eq!(tab.loaded_updated_at, "v5");
    assert!(!tab.dirty);
}

#[test]
fn set_content_materializes_and_releases_saved_baseline() {
    let mut tab = OpenDocumentTab::from_input(input("saved", "v1"));

    assert!(tab.set_content("draft".to_owned()));
    assert_eq!(tab.content, "draft");
    assert_loaded_is_saved(&tab, "saved");
    assert!(tab.dirty);

    assert!(tab.set_content("saved".to_owned()));
    assert_eq!(tab.content, "saved");
    assert_loaded_is_current(&tab);
    assert!(!tab.dirty);
}

#[test]
fn content_revision_changes_only_with_visible_content() {
    let mut tab = OpenDocumentTab::from_input(input("saved", "v1"));
    let initial_revision = tab.content_revision();

    assert!(!tab.set_content("saved".to_owned()));
    assert_eq!(tab.content_revision(), initial_revision);

    assert!(tab.mark_dirty_from_view());
    assert_eq!(tab.content_revision(), initial_revision);

    assert!(tab.set_content("draft".to_owned()));
    let draft_revision = tab.content_revision();
    assert!(draft_revision > initial_revision);

    tab.mark_current_content_saved("v2".to_owned());
    assert_eq!(tab.content_revision(), draft_revision);

    tab.mark_saved("stored".to_owned(), "v3".to_owned());
    assert!(tab.content_revision() > draft_revision);
}

#[test]
fn set_content_reusing_moves_previous_buffer_into_saved_baseline() {
    let mut tab = OpenDocumentTab::from_input(input("saved", "v1"));
    let saved_content_ptr = tab.content.as_ptr();
    let mut next_content = String::from("draft");

    assert!(tab.set_content_reusing(&mut next_content));
    assert_eq!(tab.content, "draft");
    assert!(next_content.is_empty());
    assert_loaded_is_saved(&tab, "saved");
    assert_eq!(tab.loaded_content().as_ptr(), saved_content_ptr);
    assert!(tab.dirty);

    let mut saved_content = String::from("saved");
    assert!(tab.set_content_reusing(&mut saved_content));
    assert_eq!(tab.content, "saved");
    assert_eq!(saved_content, "draft");
    assert_loaded_is_current(&tab);
    assert!(!tab.dirty);
}

#[test]
fn replace_active_content_range_preserves_saved_baseline() {
    let mut tabs = OpenTabs::new();
    tabs.open_or_activate(input("one two one", "v1"));

    assert!(tabs.replace_active_content_range(4..7, "dos"));
    let tab = tabs.active().expect("active tab should exist");
    assert_eq!(tab.content, "one dos one");
    assert_loaded_is_saved(tab, "one two one");
    assert!(tab.dirty);
    let content_ptr = tab.content.as_ptr();
    let revision = tab.content_revision();

    assert!(tabs.replace_active_content_range(4..7, "two"));
    let tab = tabs.active().expect("active tab should exist");
    assert_eq!(tab.content, "one two one");
    assert_eq!(tab.content.as_ptr(), content_ptr);
    assert_loaded_is_current(tab);
    assert!(!tab.dirty);
    assert!(tab.content_revision() > revision);
}

#[test]
fn discard_changes_restores_saved_content_and_drops_baseline() {
    let mut tab = OpenDocumentTab::from_input(input("saved", "v1"));
    tab.set_view_state(DocumentTabViewState {
        first_visible_line: 3,
        caret_position_utf16: 4,
        selection_start_utf16: 4,
        selection_end_utf16: 4,
    });

    assert!(tab.set_content("draft".to_owned()));
    tab.discard_changes();

    assert_eq!(tab.content, "saved");
    assert_loaded_is_current(&tab);
    assert!(!tab.dirty);
    assert_eq!(tab.view_state, DocumentTabViewState::default());
}

#[test]
fn dirty_sync_updates_token_against_saved_baseline() {
    let mut tab = OpenDocumentTab::from_input(input("saved", "v1"));
    assert!(tab.set_content("draft".to_owned()));

    tab.sync_from(input("saved", "v2"), true);
    assert_eq!(tab.content, "draft");
    assert_loaded_is_saved(&tab, "saved");
    assert_eq!(tab.loaded_updated_at, "v2");
    assert!(tab.dirty);

    tab.sync_from(input("remote", "v3"), true);
    assert_eq!(tab.content, "draft");
    assert_loaded_is_saved(&tab, "saved");
    assert_eq!(tab.loaded_updated_at, "v2");
    assert!(tab.dirty);
}

#[test]
fn metadata_sync_preserves_content_dirty_state_and_save_conflict_token() {
    let mut tabs = OpenTabs::new();
    tabs.open_or_activate(input("loaded", "initial-token"));
    tabs.update_active_content("draft".to_owned());

    tabs.sync_loaded_tab_metadata(
        1,
        Some(42),
        "Renamed".to_owned(),
        true,
        DocumentTabSource::SearchResult,
    );

    let tab = tabs.active().expect("active tab should exist");
    assert_eq!(tab.parent_id, Some(42));
    assert_eq!(tab.title, "Renamed");
    assert_eq!(tab.content, "draft");
    assert_loaded_is_saved(tab, "loaded");
    assert_eq!(tab.loaded_updated_at, "initial-token");
    assert!(tab.dirty);
    assert_eq!(tab.source, DocumentTabSource::SearchResult);
}

#[test]
fn indexed_metadata_sync_updates_matching_tab_only() {
    let mut tabs = OpenTabs::new();
    tabs.open_or_activate(input("loaded", "initial-token"));

    assert!(!tabs.sync_loaded_tab_metadata_at(
        0,
        2,
        Some(42),
        "Ignored".to_owned(),
        false,
        DocumentTabSource::SearchResult,
    ));
    let tab = tabs.active().expect("active tab should exist");
    assert_eq!(tab.parent_id, Some(0));
    assert_eq!(tab.title, "Title");
    assert!(tab.editable);
    assert_eq!(tab.source, DocumentTabSource::ActiveTree);

    assert!(tabs.sync_loaded_tab_metadata_at(
        0,
        1,
        Some(42),
        "Renamed".to_owned(),
        false,
        DocumentTabSource::SearchResult,
    ));
    let tab = tabs.active().expect("active tab should exist");
    assert_eq!(tab.parent_id, Some(42));
    assert_eq!(tab.title, "Renamed");
    assert_eq!(tab.content, "loaded");
    assert_eq!(tab.loaded_updated_at, "initial-token");
    assert!(!tab.editable);
    assert_eq!(tab.source, DocumentTabSource::SearchResult);
}

#[test]
fn metadata_token_sync_preserves_clean_content_buffer() {
    let mut tabs = OpenTabs::new();
    tabs.open_or_activate(input("loaded", "initial-token"));
    let content_ptr = tabs
        .active()
        .expect("active tab should exist")
        .content
        .as_ptr();

    tabs.sync_loaded_tab_metadata_preserving_content(
        1,
        Some(42),
        "Renamed".to_owned(),
        "next-token".to_owned(),
        false,
        DocumentTabSource::SearchResult,
    );

    let tab = tabs.active().expect("active tab should exist");
    assert_eq!(tab.parent_id, Some(42));
    assert_eq!(tab.title, "Renamed");
    assert_eq!(tab.content, "loaded");
    assert_eq!(tab.content.as_ptr(), content_ptr);
    assert_loaded_is_current(tab);
    assert_eq!(tab.loaded_updated_at, "next-token");
    assert!(!tab.dirty);
    assert!(!tab.editable);
    assert_eq!(tab.source, DocumentTabSource::SearchResult);
}

#[test]
fn metadata_token_sync_preserves_dirty_content_and_save_conflict_token() {
    let mut tabs = OpenTabs::new();
    tabs.open_or_activate(input("loaded", "initial-token"));
    tabs.update_active_content("draft".to_owned());

    tabs.sync_loaded_tab_metadata_preserving_content(
        1,
        Some(42),
        "Renamed".to_owned(),
        "next-token".to_owned(),
        true,
        DocumentTabSource::SearchResult,
    );

    let tab = tabs.active().expect("active tab should exist");
    assert_eq!(tab.parent_id, Some(42));
    assert_eq!(tab.title, "Renamed");
    assert_eq!(tab.content, "draft");
    assert_loaded_is_saved(tab, "loaded");
    assert_eq!(tab.loaded_updated_at, "initial-token");
    assert!(tab.dirty);
    assert_eq!(tab.source, DocumentTabSource::SearchResult);
}

#[test]
fn indexed_metadata_token_sync_updates_dirty_token_without_replacing_content() {
    let mut tabs = OpenTabs::new();
    tabs.open_or_activate(input("loaded", "initial-token"));
    tabs.update_active_content("draft".to_owned());
    let content_ptr = tabs
        .active()
        .expect("active tab should exist")
        .content
        .as_ptr();

    assert!(tabs.sync_loaded_tab_metadata_preserving_content_at(
        0,
        LoadedTabMetadataUpdate {
            node_id: 1,
            parent_id: Some(42),
            title: "Renamed".to_owned(),
            loaded_updated_at: "next-token".to_owned(),
            editable: true,
            source: DocumentTabSource::ActiveTree,
            current_content_for_dirty_token: Some("loaded"),
        },
    ));
    let tab = tabs.active().expect("active tab should exist");
    assert_eq!(tab.content, "draft");
    assert_eq!(tab.content.as_ptr(), content_ptr);
    assert_loaded_is_saved(tab, "loaded");
    assert_eq!(tab.loaded_updated_at, "next-token");
    assert!(tab.dirty);

    assert!(tabs.sync_loaded_tab_metadata_preserving_content_at(
        0,
        LoadedTabMetadataUpdate {
            node_id: 1,
            parent_id: Some(42),
            title: "Renamed again".to_owned(),
            loaded_updated_at: "stale-token".to_owned(),
            editable: true,
            source: DocumentTabSource::ActiveTree,
            current_content_for_dirty_token: Some("remote"),
        },
    ));
    let tab = tabs.active().expect("active tab should exist");
    assert_eq!(tab.title, "Renamed again");
    assert_eq!(tab.content.as_ptr(), content_ptr);
    assert_loaded_is_saved(tab, "loaded");
    assert_eq!(tab.loaded_updated_at, "next-token");
    assert!(tab.dirty);
}

#[test]
fn dirty_from_view_defers_saved_baseline_until_content_sync() {
    let mut tab = OpenDocumentTab::from_input(input("saved", "v1"));

    assert!(tab.mark_dirty_from_view());
    assert_loaded_is_current(&tab);
    assert!(tab.dirty);

    tab.mark_current_content_saved("v2".to_owned());
    assert_loaded_is_current(&tab);
    assert_eq!(tab.loaded_updated_at, "v2");
    assert!(!tab.dirty);

    assert!(tab.mark_dirty_from_view());
    assert_loaded_is_current(&tab);
    assert!(tab.dirty);

    tab.discard_changes();
    assert_loaded_is_current(&tab);
    assert_eq!(tab.content, "saved");
    assert!(!tab.dirty);

    assert!(tab.mark_dirty_from_view());
    let mut unchanged_content = String::from("saved");
    assert!(tab.set_content_reusing(&mut unchanged_content));
    assert_loaded_is_current(&tab);
    assert_eq!(tab.content, "saved");
    assert!(!tab.dirty);

    assert!(tab.mark_dirty_from_view());
    assert!(tab.set_content("draft".to_owned()));
    assert_loaded_is_saved(&tab, "saved");
    assert_eq!(tab.content, "draft");
    assert!(tab.dirty);

    assert!(tab.set_content("saved".to_owned()));
    assert_loaded_is_current(&tab);
    assert_eq!(tab.content, "saved");
    assert!(!tab.dirty);
}

#[test]
fn move_tab_preserves_active_document_across_reorder() {
    let mut tabs = OpenTabs::new();
    tabs.open_or_activate(input_for_node(1, "one", "v1"));
    tabs.open_or_activate(input_for_node(2, "two", "v2"));
    tabs.open_or_activate(input_for_node(3, "three", "v3"));
    assert!(tabs.set_active(1));

    assert!(tabs.move_tab(0, 2));
    assert_eq!(tab_node_ids(&tabs), vec![2, 3, 1]);
    assert_eq!(tabs.active_index(), Some(0));
    assert_eq!(tabs.active().map(|tab| tab.node_id), Some(2));

    assert!(tabs.move_tab(0, 2));
    assert_eq!(tab_node_ids(&tabs), vec![3, 1, 2]);
    assert_eq!(tabs.active_index(), Some(2));
    assert_eq!(tabs.active().map(|tab| tab.node_id), Some(2));

    assert!(!tabs.move_tab(9, 0));
    assert!(!tabs.move_tab(0, 9));
    assert_eq!(tab_node_ids(&tabs), vec![3, 1, 2]);
    assert_eq!(tabs.active_index(), Some(2));
}

fn input(content: &str, loaded_updated_at: &str) -> OpenDocumentTabInput {
    input_for_node(1, content, loaded_updated_at)
}

fn input_for_node(
    node_id: i64,
    content: &str,
    loaded_updated_at: &str,
) -> OpenDocumentTabInput {
    OpenDocumentTabInput {
        node_id,
        parent_id: Some(0),
        title: "Title".to_owned(),
        content: content.to_owned(),
        loaded_updated_at: loaded_updated_at.to_owned(),
        editable: true,
        source: DocumentTabSource::ActiveTree,
    }
}

fn tab_node_ids(tabs: &OpenTabs) -> Vec<i64> {
    tabs.tabs().iter().map(|tab| tab.node_id).collect()
}

fn assert_loaded_is_current(tab: &OpenDocumentTab) {
    assert!(tab.loaded_content_is_current());
    assert_eq!(tab.loaded_content(), tab.content);
}

fn assert_loaded_is_saved(tab: &OpenDocumentTab, expected: &str) {
    assert_eq!(tab.loaded_content(), expected);
    assert!(!tab.loaded_content_is_current());
}

#[test]
fn closing_every_tab_leaves_no_active_tab() {
    let mut tabs = OpenTabs::new();
    assert_eq!(tabs.active_index(), None);
    tabs.open_or_activate(input_for_node(1, "one", "v1"));
    tabs.open_or_activate(input_for_node(2, "two", "v2"));
    assert_eq!(tabs.active_index(), Some(1));

    let closed = tabs.close_tabs_for_nodes(&[2]);
    assert_eq!(closed.iter().map(|tab| tab.node_id).collect::<Vec<_>>(), vec![2]);
    assert_eq!(tabs.active_index(), Some(0));
    assert!(tabs.has_active());

    let closed = tabs.close_tabs_for_nodes(&[1, 2]);
    assert_eq!(closed.len(), 1);
    assert!(tabs.tabs().is_empty());
    assert_eq!(tabs.active_index(), None);
    assert!(!tabs.has_active());
}

#[test]
fn clean_tab_after_returning_to_saved_text_keeps_no_separate_baseline() {
    let mut tab = OpenDocumentTab::from_input(input("saved", "v1"));
    assert!(tab.set_content("draft".to_owned()));
    tab.discard_changes();
    assert!(!tab.dirty);
    assert_loaded_is_current(&tab);
    assert_eq!(tab.content, "saved");
}
