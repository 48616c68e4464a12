use j3treetext::infra::desktop_entry::{
    application_file_names, application_ids, data_home_source, legacy_entry_ids, DataHomeSource,
    alias_desktop_entry_content, desktop_entry_content, desktop_exec_path, lowercase_alias_id,
    DesktopEntryError, DesktopEntryMetadata,
};

const METADATA: DesktopEntryMetadata = DesktopEntryMetadata {
    application_id: "io.github.edgarp9.j3TreeText",
    display_name: "j3TreeText",
    comment: "Tree text editor",
    categories: "Utility;TextEditor;",
    icon_svg_file_name: "icon.svg",
    icon_png_file_name: "icon.png",
    legacy_application_ids: &["j3TreeText"],
};

#[test]
fn exec_path_is_quoted_only_when_needed() {
    assert_eq!(desktop_exec_path("/opt/j3/j3TreeText"), "/opt/j3/j3TreeText");
    assert_eq!(
        desktop_exec_path("/opt/my apps/j3\"$`\\x"),
        "\"/opt/my apps/j3\\\"\\$\\`\\\\x\""
    );
}

#[test]
fn desktop_entry_names_the_application_and_executable() {
    let content = desktop_entry_content(METADATA, "/opt/j3/j3TreeText");
    assert_eq!(
        content,
        "# Managed by j3TreeText --install\n[Desktop Entry]\nType=Application\nName=j3TreeText\nComment=Tree text editor\nExec=/opt/j3/j3TreeText\nIcon=io.github.edgarp9.j3TreeText\nTerminal=false\nCategories=Utility;TextEditor;\nStartupNotify=true\nStartupWMClass=io.github.edgarp9.j3TreeText\n"
    );
}

#[test]
fn alias_entry_is_hidden() {
    let content = alias_desktop_entry_content(
        METADATA,
        "io.github.edgarp9.j3treetext",
        "/opt/j3/j3TreeText",
    );
    assert!(content.ends_with("StartupWMClass=io.github.edgarp9.j3treetext\nNoDisplay=true\n"));
    assert!(content.contains("Icon=io.github.edgarp9.j3treetext\n"));
}

#[test]
fn alias_id_is_the_lower_case_form_when_it_differs() {
    assert_eq!(
        lowercase_alias_id("io.github.edgarp9.j3TreeText"),
        Some("io.github.edgarp9.j3treetext".to_owned())
    );
    assert_eq!(lowercase_alias_id("already.lower"), None);
}

#[test]
fn desktop_entry_errors_keep_their_message() {
    assert_eq!(DesktopEntryError::new("HOME 없음").message(), "HOME 없음");
}

#[test]
fn uninstall_covers_the_id_and_its_lowercase_alias() {
    assert_eq!(application_ids("io.github.j3TreeText"), vec!["io.github.j3TreeText", "io.github.j3treetext"]);
    assert_eq!(application_ids("plain"), vec!["plain"]);
}

#[test]
fn legacy_ids_skip_the_current_id_and_add_aliases() {
    let ids = legacy_entry_ids(
        "io.github.j3TreeText",
        &["io.github.j3treetext", "j3TreeText", "io.github.j3TreeText", "j3treetext"],
    );
    assert_eq!(ids, vec!["io.github.j3treetext", "j3TreeText", "j3treetext", "j3treetext"]);
}

#[test]
fn file_names_and_data_home_follow_the_desktop_conventions() {
    let (desktop, svg, png) = application_file_names("app.id");
    assert_eq!(desktop, "app.id.desktop");
    assert_eq!(svg, "app.id.svg");
    assert_eq!(png, "app.id.png");
    assert_eq!(data_home_source(true, true, false).unwrap(), DataHomeSource::XdgDataHome);
    assert_eq!(
        data_home_source(true, false, true).unwrap_err().message(),
        "XDG_DATA_HOME은 절대 경로여야 합니다."
    );
    assert_eq!(data_home_source(false, false, true).unwrap(), DataHomeSource::HomeLocalShare);
    assert_eq!(
        data_home_source(false, false, false).unwrap_err().message(),
        "HOME 경로를 확인할 수 없어 desktop entry를 설치할 수 없습니다."
    );
}
