//! The subcategory registry: (category, name) rows in the order they were
//! added, duplicates kept.
use vstd::prelude::*;
use vstd::string::StringExecFns;
use crate::names::{
    lemma_lt_irreflexive, lemma_lt_total, lemma_lt_transitive, seq_le, seq_lt, sorted, str_eq,
    str_lt, views,
};

verus! {

broadcast use vstd::seq_lib::to_multiset_build, vstd::seq_lib::to_multiset_insert;

/// The statement that creates the table of subcategories where it is missing.
pub open spec fn subcategories_schema() -> Seq<char> {
    "CREATE TABLE IF NOT EXISTS subcategories (id INTEGER PRIMARY KEY, category TEXT NOT NULL, name TEXT NOT NULL)"@
}

/// A row as a pair of character sequences: (category, name).
pub type RowView = (Seq<char>, Seq<char>);

/// The rows left after deleting every row equal to `(category, name)`.
pub open spec fn without(rows: Seq<RowView>, category: Seq<char>, name: Seq<char>) -> Seq<RowView>
    decreases rows.len(),
{
    if rows.len() == 0 {
        Seq::empty()
    } else if rows.last() == (category, name) {
        without(rows.drop_last(), category, name)
    } else {
        without(rows.drop_last(), category, name).push(rows.last())
    }
}

/// The names of the rows of `category`, in row order.
pub open spec fn names_in(rows: Seq<RowView>, category: Seq<char>) -> Seq<Seq<char>>
    decreases rows.len(),
{
    if rows.len() == 0 {
        Seq::empty()
    } else if rows.last().0 == category {
        names_in(rows.drop_last(), category).push(rows.last().1)
    } else {
        names_in(rows.drop_last(), category)
    }
}

/// A row shown as `category/name`.
pub open spec fn joined(r: RowView) -> Seq<char> {
    r.0 + "/"@ + r.1
}

/// One subcategory row.
pub struct Subcategory {
    pub category: String,
    pub name: String,
}

impl View for Subcategory {
    type V = RowView;

    open spec fn view(&self) -> RowView {
        (self.category@, self.name@)
    }
}

/// Subcategory rows, in the order they were added.
pub struct SubcategoryStore {
    rows: Vec<Subcategory>,
}

impl View for SubcategoryStore {
    type V = Seq<RowView>;

    closed spec fn view(&self) -> Seq<RowView> {
        self.rows@.map_values(|r: Subcategory| r@)
    }
}

proof fn lemma_insert_sorted(s: Seq<Seq<char>>, p: int, x: Seq<char>)
    requires
        sorted(s),
        0 <= p <= s.len(),
        forall|k: int| 0 <= k < p ==> !seq_lt(x, #[trigger] s[k]),
        p < s.len() ==> seq_lt(x, s[p]),
    ensures
        sorted(s.insert(p, x)),
{
    let t = s.insert(p, x);
    assert forall|a: int, b: int| 0 <= a < b < t.len() implies seq_le(#[trigger] t[a], #[trigger] t[b]) by {
        if a < p && b == p {
            lemma_lt_total(s[a], x);
        } else if a < p && b > p {
            lemma_lt_total(s[a], x);
            if b - 1 > p {
                lemma_lt_trans_le(x, s[p], s[b - 1]);
            }
            lemma_le_lt(s[a], x, s[b - 1]);
        } else if a == p && b > p {
            if b - 1 > p {
                lemma_lt_trans_le(x, s[p], s[b - 1]);
            }
        } else if a > p {
            assert(t[a] == s[a - 1] && t[b] == s[b - 1]);
        }
    }
}

proof fn lemma_lt_trans_le(a: Seq<char>, b: Seq<char>, c: Seq<char>)
    requires
        seq_lt(a, b),
        seq_le(b, c),
    ensures
        seq_lt(a, c),
{
    if b != c {
        lemma_lt_transitive(a, b, c);
    }
}

proof fn lemma_le_lt(a: Seq<char>, b: Seq<char>, c: Seq<char>)
    requires
        seq_le(a, b),
        seq_lt(b, c),
    ensures
        seq_le(a, c),
{
    if a != b {
        lemma_lt_transitive(a, b, c);
    }
}

impl SubcategoryStore {
    /// A registry with no rows.
    pub fn new() -> (r: Self)
        ensures
            r@ == Seq::<RowView>::empty(),
    {
        let r = SubcategoryStore { rows: Vec::new() };
        assert(r@ =~= Seq::<RowView>::empty());
        r
    }

    /// The statement that creates the storage table of subcategories;
    /// running it again changes nothing.
    pub fn init(&self) -> (r: String)
        ensures
            r@ == subcategories_schema(),
    {
        String::from_str(
            "CREATE TABLE IF NOT EXISTS subcategories (id INTEGER PRIMARY KEY, category TEXT NOT NULL, name TEXT NOT NULL)",
        )
    }

    /// Appends the row `(category, name)`, also when an equal row is there.
    pub fn insert_subcategory(&mut self, category: &str, name: &str)
        ensures
            final(self)@ == old(self)@.push((category@, name@)),
    {
        let row = Subcategory { category: category.to_string(), name: name.to_string() };
        self.rows.push(row);
        assert(self@ =~= old(self)@.push((category@, name@)));
    }

    /// Deletes every row equal to `(category, name)`; the others keep their order.
    pub fn delete_subcategory(&mut self, category: &str, name: &str)
        ensures
            final(self)@ == without(old(self)@, category@, name@),
    {
        let ghost rows = self@;
        let mut kept: Vec<Subcategory> = Vec::new();
        let mut i: usize = 0;
        let ghost kv = kept@.map_values(|r: Subcategory| r@);
        assert(kv =~= without(rows.subrange(0, 0), category@, name@));
        while i < self.rows.len()
            invariant
                i <= self.rows@.len(),
                self@ == rows,
                kept@.map_values(|r: Subcategory| r@) == without(
                    rows.subrange(0, i as int),
                    category@,
                    name@,
                ),
            decreases self.rows@.len() - i,
        {
            let ghost before = kept@.map_values(|r: Subcategory| r@);
            let same = str_eq(self.rows[i].category.as_str(), category) && str_eq(
                self.rows[i].name.as_str(),
                name,
            );
            proof {
                assert(rows.subrange(0, i + 1).drop_last() =~= rows.subrange(0, i as int));
                assert(rows.subrange(0, i + 1).last() == rows[i as int]);
            }
            if !same {
                let row = Subcategory {
                    category: self.rows[i].category.clone(),
                    name: self.rows[i].name.clone(),
                };
                kept.push(row);
                assert(kept@.map_values(|r: Subcategory| r@) =~= before.push(rows[i as int]));
                assert(rows[i as int] != (category@, name@));
            } else {
                assert(rows[i as int] == (category@, name@));
            }
            i = i + 1;
        }
        assert(rows.subrange(0, rows.len() as int) =~= rows);
        self.rows = kept;
    }

    /// Every row, shown as `category/name`, in row order.
    pub fn get_subcategories(&self) -> (r: Vec<String>)
        ensures
            views(r@) == self@.map_values(|row: RowView| joined(row)),
    {
        let mut out: Vec<String> = Vec::new();
        let mut i: usize = 0;
        while i < self.rows.len()
            invariant
                i <= self.rows@.len(),
                views(out@) == self@.subrange(0, i as int).map_values(|row: RowView| joined(row)),
            decreases self.rows@.len() - i,
        {
            let ghost before = views(out@);
            let mut shown = self.rows[i].category.clone();
            shown.append("/");
            shown.append(self.rows[i].name.as_str());
            out.push(shown);
            proof {
                assert(views(out@) =~= before.push(joined(self@[i as int])));
                assert(self@.subrange(0, i + 1).map_values(|row: RowView| joined(row))
                    =~= self@.subrange(0, i as int).map_values(|row: RowView| joined(row)).push(
                    joined(self@[i as int]),
                ));
            }
            i = i + 1;
        }
        assert(self@.subrange(0, self@.len() as int) =~= self@);
        out
    }

    /// The names of the rows of `category` in ascending order, duplicates kept.
    pub fn get_subcategories_by_category(&self, category: &str) -> (r: Vec<String>)
        ensures
            sorted(views(r@)),
            views(r@).to_multiset() == names_in(self@, category@).to_multiset(),
    {
        let mut out: Vec<String> = Vec::new();
        let mut i: usize = 0;
        proof {
            assert(views(out@) =~= Seq::<Seq<char>>::empty());
            assert(self@.subrange(0, 0) =~= Seq::<RowView>::empty());
        }
        while i < self.rows.len()
            invariant
                i <= self.rows@.len(),
                sorted(views(out@)),
                views(out@).to_multiset() == names_in(self@.subrange(0, i as int), category@).to_multiset(),
            decreases self.rows@.len() - i,
        {
            proof {
                assert(self@.subrange(0, i + 1).drop_last() =~= self@.subrange(0, i as int));
                assert(self@.subrange(0, i + 1).last() == self@[i as int]);
            }
            if str_eq(self.rows[i].category.as_str(), category) {
                let name = self.rows[i].name.as_str();
                let ghost s = views(out@);
                let mut p: usize = 0;
                while p < out.len() && !str_lt(name, out[p].as_str())
                    invariant
                        p <= out@.len(),
                        s == views(out@),
                        forall|k: int| 0 <= k < p ==> !seq_lt(name@, #[trigger] s[k]),
                    decreases out@.len() - p,
                {
                    p = p + 1;
                }
                proof {
                    lemma_insert_sorted(s, p as int, name@);
                }
                out.insert(p, name.to_string());
                proof {
                    assert(views(out@) =~= s.insert(p as int, name@));
                }
            }
            i = i + 1;
        }
        assert(self@.subrange(0, self@.len() as int) =~= self@);
        out
    }
}

/// Rows are never merged: adding the same `(category, name)` twice lists
/// `name` twice more under `category` than before.
pub proof fn law_duplicate_rows_kept(rows: Seq<RowView>, category: Seq<char>, name: Seq<char>)
    ensures
        names_in(rows.push((category, name)).push((category, name)), category).to_multiset().count(
            name,
        ) == names_in(rows, category).to_multiset().count(name) + 2,
{
    let once = rows.push((category, name));
    let twice = once.push((category, name));
    assert(twice.drop_last() == once);
    assert(once.drop_last() == rows);
    assert(twice.last() == (category, name));
    assert(once.last() == (category, name));
    assert(names_in(once, category) == names_in(rows, category).push(name));
    assert(names_in(twice, category) == names_in(rows, category).push(name).push(name));
}

} // verus!
