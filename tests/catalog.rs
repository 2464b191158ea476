use file_catalog::catalog::{FileRow, IndexedFile, SqliteStore};
use file_catalog::items::{plan_item, ItemError};

fn file(path: &str, name: &str, tags: &[&str]) -> IndexedFile {
    IndexedFile {
        path: path.to_string(),
        name: name.to_string(),
        tags: tags.iter().map(|s| s.to_string()).collect(),
    }
}

#[test]
fn upsert_then_search_round_trip() {
    let mut store = SqliteStore::new();
    let row = store.insert_file(&file("/a/b.txt", "b.txt", &["x", "y"]));
    assert_eq!(row.tags, "[\"x\",\"y\"]");
    let found = store.search("b");
    assert_eq!(found.len(), 1);
    assert_eq!(found[0].path, "/a/b.txt");
    assert_eq!(found[0].tags, vec!["x".to_string(), "y".to_string()]);
}

#[test]
fn stored_row_reads_back_with_tags_in_order() {
    let mut store = SqliteStore::new();
    let row = store.insert_file(&file("/a/b.txt", "b.txt", &["y", "x", "y"]));
    let reloaded = SqliteStore::from_rows(&vec![row]);
    let found = reloaded.search("");
    assert_eq!(found.len(), 1);
    assert_eq!(found[0].name, "b.txt");
    assert_eq!(found[0].tags, vec!["y".to_string(), "x".to_string(), "y".to_string()]);
}

#[test]
fn upsert_same_path_replaces() {
    let mut store = SqliteStore::new();
    store.insert_file(&file("/p", "first", &["a"]));
    store.insert_file(&file("/q", "other", &[]));
    store.insert_file(&file("/p", "second", &["b", "c"]));
    let all = store.search("");
    assert_eq!(all.len(), 2);
    let under_p: Vec<&IndexedFile> = all.iter().filter(|f| f.path == "/p").collect();
    assert_eq!(under_p.len(), 1);
    assert_eq!(under_p[0].name, "second");
    assert_eq!(under_p[0].tags, vec!["b".to_string(), "c".to_string()]);
    assert_eq!(all[1].path, "/p");
}

#[test]
fn search_is_case_sensitive_substring() {
    let mut store = SqliteStore::new();
    store.insert_file(&file("/1", "Readme.md", &[]));
    store.insert_file(&file("/2", "notes.txt", &[]));
    assert_eq!(store.search("read").len(), 0);
    let found = store.search("Read");
    assert_eq!(found.len(), 1);
    assert_eq!(found[0].path, "/1");
    assert_eq!(store.search(".").len(), 2);
    assert_eq!(store.search("notes.txt!").len(), 0);
}

#[test]
fn unreadable_tags_read_as_none() {
    let row = FileRow {
        path: "/x".to_string(),
        name: "x".to_string(),
        tags: "not json".to_string(),
    };
    let f = IndexedFile::from_row(&row);
    assert_eq!(f.path, "/x");
    assert!(f.tags.is_empty());
}

#[test]
fn empty_tags_encode_as_empty_array() {
    let f = file("/x", "x", &[]);
    assert_eq!(f.tags_json(), "[]");
}

#[test]
fn files_schema_statement() {
    let store = SqliteStore::new();
    assert_eq!(
        store.init(),
        "CREATE TABLE IF NOT EXISTS files (path TEXT PRIMARY KEY, name TEXT NOT NULL, tags TEXT NOT NULL DEFAULT '[]');"
    );
}

fn some(s: &str) -> Option<String> {
    Some(s.to_string())
}

#[test]
fn item_plan_folder_and_copies() {
    let plan = plan_item(&some("Avatars"), "Suit1", &some("/src/notes.md"), &some("/src/pic.jpg"))
        .unwrap();
    assert_eq!(plan.folder, vec!["Avatars".to_string(), "Suit1".to_string()]);
    assert_eq!(plan.copies.len(), 2);
    assert_eq!(plan.copies[0].source, "/src/notes.md");
    assert_eq!(plan.copies[0].target, "data.txt");
    assert_eq!(plan.copies[1].source, "/src/pic.jpg");
    assert_eq!(plan.copies[1].target, "image.png");
}

#[test]
fn item_plan_errors() {
    let d = some("/d");
    let i = some("/i");
    assert_eq!(plan_item(&None, "n", &d, &i).err(), Some(ItemError::NoCategory));
    assert_eq!(plan_item(&some(""), "n", &d, &i).err(), Some(ItemError::NoCategory));
    assert_eq!(plan_item(&some("C"), " \t\u{3000}", &d, &i).err(), Some(ItemError::BlankName));
    assert_eq!(plan_item(&some("C"), "", &d, &i).err(), Some(ItemError::BlankName));
    assert_eq!(plan_item(&some("C"), "n", &None, &i).err(), Some(ItemError::NoDataFile));
    assert_eq!(plan_item(&some("C"), "n", &d, &None).err(), Some(ItemError::NoImageFile));
}

#[test]
fn tags_json_escapes_as_json() {
    let f = file("/x", "x", &["a\"b", "c\\d", "e\nf\u{1}", "é"]);
    assert_eq!(f.tags_json(), "[\"a\\\"b\",\"c\\\\d\",\"e\\nf\\u0001\",\"é\"]");
}
