use docwatch::requests::{
    folder_of, wildcard, CreateFolderPayload, DocSearchQuery, EditPayload, UserDocumentEdit,
};

fn edit(field: &str, value: &str) -> EditPayload {
    EditPayload { id: "entry".to_string(), field: field.to_string(), value: value.to_string() }
}

#[test]
fn search_pattern_is_lower_case_between_wildcards() {
    assert_eq!(DocSearchQuery { q: Some("Budget 2024".to_string()) }.pattern(), "%budget 2024%");
    assert_eq!(DocSearchQuery { q: Some("\u{c4}RGER".to_string()) }.pattern(), "%\u{e4}rger%");
}

#[test]
fn search_without_text_matches_everything() {
    assert_eq!(DocSearchQuery { q: None }.pattern(), "%%");
    assert_eq!(DocSearchQuery { q: Some(String::new()) }.pattern(), "%%");
}

#[test]
fn wildcard_wraps_the_needle() {
    assert_eq!(wildcard("x"), "%x%");
    assert_eq!(wildcard("%"), "%%%");
}

#[test]
fn home_names_the_top() {
    assert_eq!(folder_of(None), None);
    assert_eq!(folder_of(Some("home")), None);
    assert_eq!(folder_of(Some("Home")), Some("Home".to_string()));
    assert_eq!(folder_of(Some("f1")), Some("f1".to_string()));
    assert_eq!(folder_of(Some("")), Some(String::new()));
}

#[test]
fn edit_moves_an_entry() {
    match edit("id_parent", "folder-7").edit() {
        Some(UserDocumentEdit::Move { id, parent }) => {
            assert_eq!(id, "entry");
            assert_eq!(parent, Some("folder-7".to_string()));
        }
        _ => panic!("expected a move"),
    }
    match edit("id_parent", "home").edit() {
        Some(UserDocumentEdit::Move { id, parent }) => {
            assert_eq!(id, "entry");
            assert_eq!(parent, None);
        }
        _ => panic!("expected a move"),
    }
}

#[test]
fn edit_renames_a_folder() {
    match edit("folder_name", "Reports").edit() {
        Some(UserDocumentEdit::Rename { id, name }) => {
            assert_eq!(id, "entry");
            assert_eq!(name, "Reports");
        }
        _ => panic!("expected a rename"),
    }
}

#[test]
fn edit_of_another_field_is_refused() {
    assert!(edit("user_id", "1").edit().is_none());
    assert!(edit("", "x").edit().is_none());
    assert!(edit("ID_PARENT", "x").edit().is_none());
}

#[test]
fn new_folder_name_and_parent() {
    let named = CreateFolderPayload {
        name: Some("Drafts".to_string()),
        id_parent: Some("f2".to_string()),
    };
    assert_eq!(named.folder_name(), "Drafts");
    assert_eq!(named.parent(), Some("f2".to_string()));
    let bare = CreateFolderPayload { name: None, id_parent: None };
    assert_eq!(bare.folder_name(), "Untitled Folder");
    assert_eq!(bare.parent(), None);
    let at_home = CreateFolderPayload { name: None, id_parent: Some("home".to_string()) };
    assert_eq!(at_home.parent(), None);
}
