//! The catalog of indexed files: records keyed by path, each with a display
//! name and an ordered list of tags, searched by substring of the name.
use vstd::prelude::*;
use vstd::string::StringExecFns;
use crate::names::{has_substring, str_contains, str_eq, views};

verus! {

#[verifier::external_type_specification]
#[verifier::external_body]
pub struct ExJsonError(serde_json::Error);

/// A lowercase hexadecimal digit, for `0 <= n < 16`.
pub open spec fn hex_digit(n: int) -> char {
    "0123456789abcdef"@[n]
}

/// How a character is written inside a JSON string: quote and backslash are
/// escaped, control characters below 0x20 take a short escape where JSON has
/// one and `\u00xx` otherwise; every other character stands as it is.
pub open spec fn json_escaped_char(c: char) -> Seq<char> {
    let n = c as int;
    if c == '"' {
        seq!['\\', '"']
    } else if c == '\\' {
        seq!['\\', '\\']
    } else if n == 0x08 {
        seq!['\\', 'b']
    } else if n == 0x09 {
        seq!['\\', 't']
    } else if n == 0x0A {
        seq!['\\', 'n']
    } else if n == 0x0C {
        seq!['\\', 'f']
    } else if n == 0x0D {
        seq!['\\', 'r']
    } else if n < 0x20 {
        seq!['\\', 'u', '0', '0', hex_digit(n / 16), hex_digit(n % 16)]
    } else {
        seq![c]
    }
}

/// The characters of `s`, each written as inside a JSON string.
pub open spec fn json_escaped(s: Seq<char>) -> Seq<char>
    decreases s.len(),
{
    if s.len() == 0 {
        Seq::empty()
    } else {
        json_escaped(s.drop_last()) + json_escaped_char(s.last())
    }
}

/// `s` as a JSON string, quotes included.
pub open spec fn json_string(s: Seq<char>) -> Seq<char> {
    seq!['"'] + json_escaped(s) + seq!['"']
}

/// The JSON strings of `tags`, separated by commas.
pub open spec fn json_items(tags: Seq<Seq<char>>) -> Seq<char>
    decreases tags.len(),
{
    if tags.len() == 0 {
        Seq::empty()
    } else if tags.len() == 1 {
        json_string(tags[0])
    } else {
        json_items(tags.drop_last()) + seq![','] + json_string(tags.last())
    }
}

/// The compact JSON array that serde_json writes for a list of strings.
pub open spec fn json_of_tags(tags: Seq<Seq<char>>) -> Seq<char> {
    seq!['['] + json_items(tags) + seq![']']
}

/// The list of strings that serde_json reads from a JSON text, if it reads one.
pub uninterp spec fn tags_of_json(text: Seq<char>) -> Option<Seq<Seq<char>>>;

/// Relies on serde_json::to_string: the compact JSON array of the list of
/// strings, escaped as its string serializer does. Writing a list of strings into memory does not fail: serde_json fails
/// only where a `Serialize` impl fails or a map has keys that are not strings.
#[verifier::external_body]
fn encode_tags(tags: &Vec<String>) -> (r: Result<String, serde_json::Error>)
    ensures
        r is Ok,
        match r {
            Ok(text) => text@ == json_of_tags(views(tags@)),
            Err(_) => true,
        },
{
    serde_json::to_string(tags)
}

/// Relies on serde_json::from_str: the list of strings that a JSON text holds.
#[verifier::external_body]
fn decode_tags(text: &str) -> (r: Result<Vec<String>, serde_json::Error>)
    ensures
        match r {
            Ok(tags) => tags_of_json(text@) == Some(views(tags@)),
            Err(_) => tags_of_json(text@) == None::<Seq<Seq<char>>>,
        },
{
    serde_json::from_str::<Vec<String>>(text)
}

/// The statement that creates the table of files where it is missing.
pub open spec fn files_schema() -> Seq<char> {
    "CREATE TABLE IF NOT EXISTS files (path TEXT PRIMARY KEY, name TEXT NOT NULL, tags TEXT NOT NULL DEFAULT '[]');"@
}

/// A record as plain values.
pub struct FileRecord {
    pub path: Seq<char>,
    pub name: Seq<char>,
    pub tags: Seq<Seq<char>>,
}

/// A stored row as plain values: path, name and the tags as JSON text.
pub type RowView = (Seq<char>, Seq<char>, Seq<char>);

/// An indexed file: its path, which identifies it, its display name and its tags.
#[derive(Debug, Clone)]
pub struct IndexedFile {
    pub path: String,
    pub name: String,
    pub tags: Vec<String>,
}

impl View for IndexedFile {
    type V = FileRecord;

    open spec fn view(&self) -> FileRecord {
        FileRecord { path: self.path@, name: self.name@, tags: views(self.tags@) }
    }
}

/// A file as it is stored: the tags are held as a JSON array of strings.
#[derive(Debug, Clone)]
pub struct FileRow {
    pub path: String,
    pub name: String,
    pub tags: String,
}

impl View for FileRow {
    type V = RowView;

    open spec fn view(&self) -> RowView {
        (self.path@, self.name@, self.tags@)
    }
}

/// The records left after dropping every record with path `p`.
pub open spec fn without_path(rows: Seq<FileRecord>, p: Seq<char>) -> Seq<FileRecord>
    decreases rows.len(),
{
    if rows.len() == 0 {
        Seq::empty()
    } else if rows.last().path == p {
        without_path(rows.drop_last(), p)
    } else {
        without_path(rows.drop_last(), p).push(rows.last())
    }
}

/// The records after storing `f`: a record with the same path is replaced,
/// and `f` comes last.
pub open spec fn upserted(rows: Seq<FileRecord>, f: FileRecord) -> Seq<FileRecord> {
    without_path(rows, f.path).push(f)
}

/// The records whose name holds `q`, in stored order.
pub open spec fn matching(rows: Seq<FileRecord>, q: Seq<char>) -> Seq<FileRecord>
    decreases rows.len(),
{
    if rows.len() == 0 {
        Seq::empty()
    } else if has_substring(rows.last().name, q) {
        matching(rows.drop_last(), q).push(rows.last())
    } else {
        matching(rows.drop_last(), q)
    }
}

/// The record that a stored row reads back as: tags that are not a JSON
/// array of strings read as no tags.
pub open spec fn decoded(row: RowView) -> FileRecord {
    FileRecord {
        path: row.0,
        name: row.1,
        tags: match tags_of_json(row.2) {
            Some(t) => t,
            None => Seq::empty(),
        },
    }
}

/// The records after storing each row in turn.
pub open spec fn loaded(rows: Seq<RowView>) -> Seq<FileRecord>
    decreases rows.len(),
{
    if rows.len() == 0 {
        Seq::empty()
    } else {
        upserted(loaded(rows.drop_last()), decoded(rows.last()))
    }
}

/// No two records share a path.
pub open spec fn paths_unique(rows: Seq<FileRecord>) -> bool {
    forall|i: int, j: int| 0 <= i < j < rows.len() ==> rows[i].path != rows[j].path
}

proof fn lemma_without_path(rows: Seq<FileRecord>, p: Seq<char>)
    requires
        paths_unique(rows),
    ensures
        paths_unique(without_path(rows, p)),
        forall|i: int| 0 <= i < without_path(rows, p).len() ==> (#[trigger] without_path(rows, p)[i]).path != p,
        forall|i: int| 0 <= i < without_path(rows, p).len() ==> rows.contains(#[trigger] without_path(rows, p)[i]),
    decreases rows.len(),
{
    if rows.len() > 0 {
        let d = rows.drop_last();
        assert(paths_unique(d));
        lemma_without_path(d, p);
        let w = without_path(d, p);
        assert forall|i: int| 0 <= i < w.len() implies rows.contains(#[trigger] w[i]) by {
            assert(d.contains(w[i]));
            let k = choose|k: int| 0 <= k < d.len() && d[k] == w[i];
            assert(rows[k] == w[i]);
        }
        if rows.last().path != p {
            let v = w.push(rows.last());
            assert forall|i: int| 0 <= i < v.len() implies rows.contains(#[trigger] v[i]) by {
                if i == w.len() {
                    assert(rows[rows.len() - 1] == v[i]);
                }
            }
            assert forall|i: int, j: int| 0 <= i < j < v.len() implies v[i].path != v[j].path by {
                if j == w.len() {
                    assert(d.contains(w[i]));
                    let k = choose|k: int| 0 <= k < d.len() && d[k] == w[i];
                    assert(rows[k] == w[i]);
                }
            }
        }
    }
}

impl IndexedFile {
    /// A copy of this record.
    pub fn copy(&self) -> (r: IndexedFile)
        ensures
            r@ == self@,
    {
        IndexedFile { path: self.path.clone(), name: self.name.clone(), tags: copy_names(&self.tags) }
    }

    /// The tags as the JSON text that is stored for them.
    pub fn tags_json(&self) -> (r: String)
        ensures
            r@ == json_of_tags(self@.tags),
    {
        match encode_tags(&self.tags) {
            Ok(text) => text,
            Err(_) => {
                proof {
                    assert(false);
                }
                String::new()
            },
        }
    }

    /// The record that a stored row reads back as; tags that are not a JSON
    /// array of strings read as no tags.
    pub fn from_row(row: &FileRow) -> (r: IndexedFile)
        ensures
            r@ == decoded(row@),
    {
        let tags = match decode_tags(row.tags.as_str()) {
            Ok(t) => t,
            Err(_) => Vec::new(),
        };
        proof {
            if tags_of_json(row@.2) is None {
                assert(views(tags@) =~= Seq::<Seq<char>>::empty());
            }
        }
        IndexedFile { path: row.path.clone(), name: row.name.clone(), tags }
    }
}

fn copy_names(v: &Vec<String>) -> (r: Vec<String>)
    ensures
        views(r@) == views(v@),
{
    let mut out: Vec<String> = Vec::new();
    let mut i: usize = 0;
    while i < v.len()
        invariant
            i <= v@.len(),
            views(out@) == views(v@.subrange(0, i as int)),
        decreases v@.len() - i,
    {
        let ghost before = views(out@);
        let s = v[i].clone();
        out.push(s);
        proof {
            assert(views(out@) =~= before.push(v@[i as int]@));
            assert(views(v@.subrange(0, i + 1)) =~= views(v@.subrange(0, i as int)).push(
                v@[i as int]@,
            ));
        }
        i = i + 1;
    }
    assert(v@.subrange(0, v@.len() as int) =~= v@);
    out
}

/// The catalog: records keyed by path, in the order they were stored.
pub struct SqliteStore {
    files: Vec<IndexedFile>,
}

impl View for SqliteStore {
    type V = Seq<FileRecord>;

    closed spec fn view(&self) -> Seq<FileRecord> {
        self.files@.map_values(|f: IndexedFile| f@)
    }
}

impl SqliteStore {
    /// No two records share a path.
    pub open spec fn wf(&self) -> bool {
        paths_unique(self@)
    }

    /// An empty catalog.
    pub fn new() -> (r: Self)
        ensures
            r.wf(),
            r@ == Seq::<FileRecord>::empty(),
    {
        let r = SqliteStore { files: Vec::new() };
        assert(r@ =~= Seq::<FileRecord>::empty());
        r
    }

    /// The statement that creates the storage table of files; running it
    /// again changes nothing.
    pub fn init(&self) -> (r: String)
        ensures
            r@ == files_schema(),
    {
        String::from_str(
            "CREATE TABLE IF NOT EXISTS files (path TEXT PRIMARY KEY, name TEXT NOT NULL, tags TEXT NOT NULL DEFAULT '[]');",
        )
    }

    /// The catalog that stored rows read back as, each row stored in turn.
    pub fn from_rows(rows: &Vec<FileRow>) -> (r: Self)
        ensures
            r.wf(),
            r@ == loaded(rows@.map_values(|row: FileRow| row@)),
    {
        let ghost rv = rows@.map_values(|row: FileRow| row@);
        let mut store = SqliteStore::new();
        let mut i: usize = 0;
        proof {
            assert(rv.subrange(0, 0) =~= Seq::<RowView>::empty());
        }
        while i < rows.len()
            invariant
                i <= rows@.len(),
                rv == rows@.map_values(|row: FileRow| row@),
                store.wf(),
                store@ == loaded(rv.subrange(0, i as int)),
            decreases rows@.len() - i,
        {
            let f = IndexedFile::from_row(&rows[i]);
            store.put(f);
            proof {
                assert(rv.subrange(0, i + 1).drop_last() =~= rv.subrange(0, i as int));
                assert(rv.subrange(0, i + 1).last() == rows@[i as int]@);
            }
            i = i + 1;
        }
        assert(rv.subrange(0, rv.len() as int) =~= rv);
        store
    }

    /// Stores `f`, replacing the record with the same path.
    fn put(&mut self, f: IndexedFile)
        requires
            old(self).wf(),
        ensures
            final(self).wf(),
            final(self)@ == upserted(old(self)@, f@),
    {
        let ghost rows = self@;
        let mut kept: Vec<IndexedFile> = Vec::new();
        let mut i: usize = 0;
        assert(kept@.map_values(|r: IndexedFile| r@) =~= without_path(rows.subrange(0, 0), f@.path));
        while i < self.files.len()
            invariant
                i <= self.files@.len(),
                self@ == rows,
                kept@.map_values(|r: IndexedFile| r@) == without_path(
                    rows.subrange(0, i as int),
                    f@.path,
                ),
            decreases self.files@.len() - i,
        {
            let ghost before = kept@.map_values(|r: IndexedFile| r@);
            proof {
                assert(rows.subrange(0, i + 1).drop_last() =~= rows.subrange(0, i as int));
                assert(rows.subrange(0, i + 1).last() == rows[i as int]);
            }
            if !str_eq(self.files[i].path.as_str(), f.path.as_str()) {
                let c = self.files[i].copy();
                kept.push(c);
                assert(kept@.map_values(|r: IndexedFile| r@) =~= before.push(rows[i as int]));
            }
            i = i + 1;
        }
        assert(rows.subrange(0, rows.len() as int) =~= rows);
        proof {
            lemma_without_path(rows, f@.path);
        }
        let ghost w = kept@.map_values(|r: IndexedFile| r@);
        kept.push(f);
        assert(kept@.map_values(|r: IndexedFile| r@) =~= w.push(f@));
        self.files = kept;
    }

    /// Stores `f`, replacing the record with the same path, and returns the
    /// row to be written to storage.
    pub fn insert_file(&mut self, f: &IndexedFile) -> (r: FileRow)
        requires
            old(self).wf(),
        ensures
            final(self).wf(),
            final(self)@ == upserted(old(self)@, f@),
            r@ == (f@.path, f@.name, json_of_tags(f@.tags)),
    {
        let tags = f.tags_json();
        self.put(f.copy());
        FileRow { path: f.path.clone(), name: f.name.clone(), tags }
    }

    /// The records whose name holds `query` (case counts; an empty query
    /// matches every record), in stored order.
    pub fn search(&self, query: &str) -> (r: Vec<IndexedFile>)
        ensures
            r@.map_values(|f: IndexedFile| f@) == matching(self@, query@),
    {
        let mut out: Vec<IndexedFile> = Vec::new();
        let mut i: usize = 0;
        assert(out@.map_values(|f: IndexedFile| f@) =~= matching(self@.subrange(0, 0), query@));
        while i < self.files.len()
            invariant
                i <= self.files@.len(),
                out@.map_values(|f: IndexedFile| f@) == matching(self@.subrange(0, i as int), query@),
            decreases self.files@.len() - i,
        {
            let ghost before = out@.map_values(|f: IndexedFile| f@);
            proof {
                assert(self@.subrange(0, i + 1).drop_last() =~= self@.subrange(0, i as int));
                assert(self@.subrange(0, i + 1).last() == self@[i as int]);
            }
            if str_contains(self.files[i].name.as_str(), query) {
                let c = self.files[i].copy();
                out.push(c);
                assert(out@.map_values(|f: IndexedFile| f@) =~= before.push(self@[i as int]));
            }
            i = i + 1;
        }
        assert(self@.subrange(0, self@.len() as int) =~= self@);
        out
    }
}

/// Storing two records with the same path leaves exactly one record under
/// that path: the second one.
pub proof fn law_upsert_replaces(rows: Seq<FileRecord>, first: FileRecord, second: FileRecord)
    requires
        paths_unique(rows),
        first.path == second.path,
    ensures
        paths_unique(upserted(upserted(rows, first), second)),
        ({
            let u = upserted(upserted(rows, first), second);
            u.last() == second && forall|i: int|
                0 <= i < u.len() && #[trigger] u[i].path == second.path ==> i == u.len() - 1
        }),
{
    lemma_without_path(rows, first.path);
    let once = upserted(rows, first);
    assert(paths_unique(once));
    lemma_without_path(once, second.path);
    let u = upserted(once, second);
    assert(paths_unique(u));
}

/// A stored record is found again, with its path, name and tags as stored,
/// by a search for any part of its name.
pub proof fn law_stored_record_found(rows: Seq<FileRecord>, f: FileRecord, query: Seq<char>)
    requires
        has_substring(f.name, query),
    ensures
        matching(upserted(rows, f), query).len() > 0,
        matching(upserted(rows, f), query).last() == f,
{
    let u = upserted(rows, f);
    assert(u.drop_last() == without_path(rows, f.path));
}

} // verus!
