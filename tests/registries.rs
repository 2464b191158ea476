use file_catalog::categories::{folder_names, CategoryStore, FolderEntry};
use file_catalog::registry::RegistryError;
use file_catalog::subcategories::SubcategoryStore;
use file_catalog::tags::TagStore;

fn strs(v: &[&str]) -> Vec<String> {
    v.iter().map(|s| s.to_string()).collect()
}

#[test]
fn tags_listed_ascending_without_duplicates() {
    let mut tags = TagStore::new();
    for name in ["pose", "avatar", "zeta", "avatar", "Beta", "pose"] {
        tags.insert_tag(name);
    }
    assert_eq!(tags.get_tags(), strs(&["Beta", "avatar", "pose", "zeta"]));
}

#[test]
fn tag_add_reports_whether_new() {
    let mut tags = TagStore::new();
    assert!(tags.insert_tag("x"));
    assert!(!tags.insert_tag("x"));
    assert_eq!(tags.get_tags(), strs(&["x"]));
}

#[test]
fn tag_order_is_by_code_point_and_prefix_first() {
    let mut tags = TagStore::new();
    for name in ["ab", "a", "b", "aa", "", "é"] {
        tags.insert_tag(name);
    }
    assert_eq!(tags.get_tags(), strs(&["", "a", "aa", "ab", "b", "é"]));
}

#[test]
fn tag_rename_shows_new_and_not_old() {
    let mut tags = TagStore::from_rows(&strs(&["old", "other"]));
    assert_eq!(tags.update_tag("old", "new"), Ok(true));
    assert_eq!(tags.get_tags(), strs(&["new", "other"]));
}

#[test]
fn tag_rename_of_absent_name_changes_nothing() {
    let mut tags = TagStore::from_rows(&strs(&["a"]));
    assert_eq!(tags.update_tag("missing", "b"), Ok(false));
    assert_eq!(tags.get_tags(), strs(&["a"]));
}

#[test]
fn tag_rename_onto_taken_name_is_refused() {
    let mut tags = TagStore::from_rows(&strs(&["a", "b"]));
    assert_eq!(tags.update_tag("a", "b"), Err(RegistryError::NameTaken));
    assert_eq!(tags.get_tags(), strs(&["a", "b"]));
}

#[test]
fn tag_rename_to_itself_changes_nothing() {
    let mut tags = TagStore::from_rows(&strs(&["a"]));
    assert_eq!(tags.update_tag("a", "a"), Ok(false));
    assert_eq!(tags.get_tags(), strs(&["a"]));
}

#[test]
fn tag_remove_drops_name() {
    let mut tags = TagStore::from_rows(&strs(&["c", "a", "b", "a"]));
    assert!(tags.delete_tag("b"));
    assert!(!tags.delete_tag("b"));
    assert_eq!(tags.get_tags(), strs(&["a", "c"]));
}

#[test]
fn tag_schema_statement() {
    let tags = TagStore::new();
    assert_eq!(
        tags.init(),
        "CREATE TABLE IF NOT EXISTS tags (id INTEGER PRIMARY KEY AUTOINCREMENT, name TEXT UNIQUE NOT NULL);"
    );
}

#[test]
fn category_crud() {
    let mut cats = CategoryStore::new();
    assert!(cats.insert_category("Props"));
    assert!(cats.insert_category("Avatars"));
    assert!(!cats.insert_category("Props"));
    assert_eq!(cats.get_categories(), strs(&["Avatars", "Props"]));
    assert_eq!(cats.update_category("Props", "Worlds"), Ok(true));
    assert_eq!(cats.update_category("Avatars", "Worlds"), Err(RegistryError::NameTaken));
    assert!(cats.delete_category("Avatars"));
    assert_eq!(cats.get_categories(), strs(&["Worlds"]));
    assert_eq!(cats.init(), "CREATE TABLE IF NOT EXISTS categories (name TEXT PRIMARY KEY);");
}

#[test]
fn sync_converges_to_folders() {
    let mut cats = CategoryStore::from_rows(&strs(&["Avatars", "Old"]));
    let outcome = cats.sync_with_folders(&strs(&["Props", "Avatars"]));
    assert_eq!(cats.get_categories(), strs(&["Avatars", "Props"]));
    assert_eq!(outcome.added, strs(&["Props"]));
    assert_eq!(outcome.removed, strs(&["Old"]));
}

#[test]
fn sync_twice_changes_nothing_more() {
    let mut cats = CategoryStore::from_rows(&strs(&["b", "x", "y"]));
    let folders = strs(&["c", "a", "b"]);
    cats.sync_with_folders(&folders);
    let first = cats.get_categories();
    let outcome = cats.sync_with_folders(&folders);
    assert_eq!(cats.get_categories(), first);
    assert!(outcome.added.is_empty());
    assert!(outcome.removed.is_empty());
    assert_eq!(first, strs(&["a", "b", "c"]));
}

#[test]
fn sync_with_no_folders_empties_registry() {
    let mut cats = CategoryStore::from_rows(&strs(&["a", "b"]));
    let outcome = cats.sync_with_folders(&Vec::new());
    assert!(cats.get_categories().is_empty());
    assert_eq!(outcome.removed, strs(&["a", "b"]));
}

#[test]
fn subcategory_duplicates_are_kept() {
    let mut subs = SubcategoryStore::new();
    subs.insert_subcategory("Avatars", "Casual");
    subs.insert_subcategory("Avatars", "Casual");
    assert_eq!(subs.get_subcategories_by_category("Avatars"), strs(&["Casual", "Casual"]));
}

#[test]
fn subcategories_by_category_sorted() {
    let mut subs = SubcategoryStore::new();
    subs.insert_subcategory("Avatars", "Formal");
    subs.insert_subcategory("Props", "Chairs");
    subs.insert_subcategory("Avatars", "Casual");
    subs.insert_subcategory("Avatars", "Beach");
    assert_eq!(
        subs.get_subcategories_by_category("Avatars"),
        strs(&["Beach", "Casual", "Formal"])
    );
    assert_eq!(subs.get_subcategories_by_category("Props"), strs(&["Chairs"]));
    assert!(subs.get_subcategories_by_category("None").is_empty());
}

#[test]
fn subcategories_listed_in_row_order() {
    let mut subs = SubcategoryStore::new();
    subs.insert_subcategory("Props", "Chairs");
    subs.insert_subcategory("Avatars", "Casual");
    assert_eq!(subs.get_subcategories(), strs(&["Props/Chairs", "Avatars/Casual"]));
}

#[test]
fn subcategory_delete_removes_every_exact_match() {
    let mut subs = SubcategoryStore::new();
    subs.insert_subcategory("A", "x");
    subs.insert_subcategory("B", "x");
    subs.insert_subcategory("A", "x");
    subs.insert_subcategory("A", "y");
    subs.delete_subcategory("A", "x");
    assert_eq!(subs.get_subcategories(), strs(&["B/x", "A/y"]));
    subs.delete_subcategory("A", "missing");
    assert_eq!(subs.get_subcategories(), strs(&["B/x", "A/y"]));
}

fn entry(name: &str, is_dir: bool) -> FolderEntry {
    FolderEntry { name: name.to_string(), is_dir }
}

#[test]
fn sync_with_missing_root_changes_nothing() {
    let mut cats = CategoryStore::from_rows(&strs(&["Avatars", "Old"]));
    let outcome = cats.sync_with_root(&None);
    assert_eq!(cats.get_categories(), strs(&["Avatars", "Old"]));
    assert!(outcome.added.is_empty() && outcome.removed.is_empty());
}

#[test]
fn sync_with_root_ignores_plain_files() {
    let mut cats = CategoryStore::from_rows(&strs(&["Avatars", "Old"]));
    let listing = vec![entry("Avatars", true), entry("notes.txt", false), entry("Props", true)];
    cats.sync_with_root(&Some(listing));
    assert_eq!(cats.get_categories(), strs(&["Avatars", "Props"]));
}

#[test]
fn folder_names_keep_directories_in_order() {
    let listing = vec![entry("b", true), entry("f", false), entry("a", true)];
    assert_eq!(folder_names(&listing), strs(&["b", "a"]));
}
