//! The category registry: unique category names, listed in ascending order,
//! and its reconciliation with the folders found under the root directory.
use vstd::prelude::*;
use vstd::string::StringExecFns;
use crate::names::{lemma_strictly_sorted_unique, position_of, strictly_sorted, views};
use crate::registry::{NameRegistry, RegistryError, rename_refused, renamed_set};

verus! {

/// The statement that creates the table of categories where it is missing.
pub open spec fn categories_schema() -> Seq<char> {
    "CREATE TABLE IF NOT EXISTS categories (name TEXT PRIMARY KEY);"@
}

/// The names that a synchronization adds: folders with no category.
pub open spec fn sync_added(held: Set<Seq<char>>, folders: Set<Seq<char>>) -> Set<Seq<char>> {
    folders.difference(held)
}

/// The names that a synchronization removes: categories with no folder.
pub open spec fn sync_removed(held: Set<Seq<char>>, folders: Set<Seq<char>>) -> Set<Seq<char>> {
    held.difference(folders)
}

/// What a synchronization changed, for the caller to carry over to storage.
pub struct SyncOutcome {
    /// Folder names that became categories.
    pub added: Vec<String>,
    /// Categories that were dropped because their folder is gone.
    pub removed: Vec<String>,
}

/// An entry found directly under the root directory.
pub struct FolderEntry {
    pub name: String,
    pub is_dir: bool,
}

impl View for FolderEntry {
    type V = (Seq<char>, bool);

    open spec fn view(&self) -> (Seq<char>, bool) {
        (self.name@, self.is_dir)
    }
}

/// The names of the directories among `entries`, in order.
pub open spec fn dir_names(entries: Seq<(Seq<char>, bool)>) -> Seq<Seq<char>>
    decreases entries.len(),
{
    if entries.len() == 0 {
        Seq::empty()
    } else if entries.last().1 {
        dir_names(entries.drop_last()).push(entries.last().0)
    } else {
        dir_names(entries.drop_last())
    }
}

/// The names of the directories among `entries`, in order; other entries
/// are ignored.
pub fn folder_names(entries: &Vec<FolderEntry>) -> (r: Vec<String>)
    ensures
        views(r@) == dir_names(entries@.map_values(|e: FolderEntry| e@)),
{
    let ghost ev = entries@.map_values(|e: FolderEntry| e@);
    let mut out: Vec<String> = Vec::new();
    let mut i: usize = 0;
    assert(views(out@) =~= dir_names(ev.subrange(0, 0)));
    while i < entries.len()
        invariant
            i <= entries@.len(),
            ev == entries@.map_values(|e: FolderEntry| e@),
            views(out@) == dir_names(ev.subrange(0, i as int)),
        decreases entries@.len() - i,
    {
        let ghost before = views(out@);
        proof {
            assert(ev.subrange(0, i + 1).drop_last() =~= ev.subrange(0, i as int));
            assert(ev.subrange(0, i + 1).last() == entries@[i as int]@);
        }
        if entries[i].is_dir {
            let name = entries[i].name.clone();
            out.push(name);
            assert(views(out@) =~= before.push(entries@[i as int]@.0));
        }
        i = i + 1;
    }
    assert(ev.subrange(0, ev.len() as int) =~= ev);
    out
}

/// Unique category names.
pub struct CategoryStore {
    registry: NameRegistry,
}

impl View for CategoryStore {
    type V = Seq<Seq<char>>;

    closed spec fn view(&self) -> Seq<Seq<char>> {
        self.registry@
    }
}

impl CategoryStore {
    pub closed spec fn wf(&self) -> bool {
        self.registry.wf()
    }

    /// The set of category names held.
    pub open spec fn name_set(&self) -> Set<Seq<char>> {
        self@.to_set()
    }

    /// A registry with no categories.
    pub fn new() -> (r: Self)
        ensures
            r.wf(),
            r.name_set() == Set::<Seq<char>>::empty(),
    {
        let r = CategoryStore { registry: NameRegistry::new() };
        proof {
            assert(r@.to_set() =~= Set::<Seq<char>>::empty());
        }
        r
    }

    /// A registry holding the given category names, as rows read back from storage.
    pub fn from_rows(rows: &Vec<String>) -> (r: Self)
        ensures
            r.wf(),
            r.name_set() == views(rows@).to_set(),
    {
        CategoryStore { registry: NameRegistry::from_names(rows) }
    }

    /// The statement that creates the storage table of categories; running
    /// it again changes nothing.
    pub fn init(&self) -> (r: String)
        ensures
            r@ == categories_schema(),
    {
        String::from_str("CREATE TABLE IF NOT EXISTS categories (name TEXT PRIMARY KEY);")
    }

    /// Adds the category `name`; adding one that is held already changes
    /// nothing. Returns whether the category was new.
    pub fn insert_category(&mut self, name: &str) -> (added: bool)
        requires
            old(self).wf(),
        ensures
            final(self).wf(),
            final(self).name_set() == old(self).name_set().insert(name@),
            added == !old(self).name_set().contains(name@),
    {
        self.registry.insert(name)
    }

    /// Renames the category `old_name` to `new_name`. Nothing changes when
    /// `old_name` is not held; refused, with nothing changed, when
    /// `new_name` is another category's name. Returns whether a category
    /// was renamed.
    pub fn update_category(&mut self, old_name: &str, new_name: &str) -> (r: Result<
        bool,
        RegistryError,
    >)
        requires
            old(self).wf(),
        ensures
            final(self).wf(),
            rename_refused(old(self).name_set(), old_name@, new_name@) ==> r == Err::<
                bool,
                RegistryError,
            >(RegistryError::NameTaken) && final(self)@ == old(self)@,
            !rename_refused(old(self).name_set(), old_name@, new_name@) ==> r == Ok::<
                bool,
                RegistryError,
            >(old(self).name_set().contains(old_name@) && old_name@ != new_name@)
                && final(self).name_set() == renamed_set(
                old(self).name_set(),
                old_name@,
                new_name@,
            ),
    {
        self.registry.rename(old_name, new_name)
    }

    /// Removes the category `name`; removing one that is not held changes
    /// nothing. Returns whether the category was held.
    pub fn delete_category(&mut self, name: &str) -> (removed: bool)
        requires
            old(self).wf(),
        ensures
            final(self).wf(),
            final(self).name_set() == old(self).name_set().remove(name@),
            removed == old(self).name_set().contains(name@),
    {
        self.registry.remove(name)
    }

    /// All category names, in strictly ascending order.
    pub fn get_categories(&self) -> (r: Vec<String>)
        requires
            self.wf(),
        ensures
            views(r@) == self@,
            strictly_sorted(views(r@)),
            views(r@).to_set() == self.name_set(),
    {
        self.registry.list()
    }

    /// Reconciles the categories with what was found under the root
    /// directory: `None` when the root directory does not exist, which
    /// changes nothing; otherwise its entries, of which the directories
    /// become exactly the categories.
    pub fn sync_with_root(&mut self, listing: &Option<Vec<FolderEntry>>) -> (r: SyncOutcome)
        requires
            old(self).wf(),
        ensures
            final(self).wf(),
            match listing {
                None => final(self)@ == old(self)@ && r.added@.len() == 0 && r.removed@.len() == 0,
                Some(entries) => {
                    let folders = dir_names(entries@.map_values(|e: FolderEntry| e@)).to_set();
                    &&& final(self).name_set() == folders
                    &&& views(r.added@).to_set() == sync_added(old(self).name_set(), folders)
                    &&& views(r.removed@).to_set() == sync_removed(old(self).name_set(), folders)
                },
            },
    {
        match listing {
            None => SyncOutcome { added: Vec::new(), removed: Vec::new() },
            Some(entries) => {
                let folders = folder_names(entries);
                self.sync_with_folders(&folders)
            },
        }
    }

    /// Makes the categories exactly the names of `folders`, the immediate
    /// subdirectories found under the root directory: each folder without a
    /// category is added, each category without a folder is removed.
    pub fn sync_with_folders(&mut self, folders: &Vec<String>) -> (r: SyncOutcome)
        requires
            old(self).wf(),
        ensures
            final(self).wf(),
            final(self).name_set() == views(folders@).to_set(),
            views(r.added@).to_set() == sync_added(old(self).name_set(), views(folders@).to_set()),
            views(r.removed@).to_set() == sync_removed(
                old(self).name_set(),
                views(folders@).to_set(),
            ),
    {
        let ghost held = self.name_set();
        let ghost f = views(folders@);
        let mut added: Vec<String> = Vec::new();
        let mut i: usize = 0;
        proof {
            assert(self.name_set() =~= held.union(views(folders@.subrange(0, 0)).to_set()));
            assert(views(added@).to_set() =~= Set::<Seq<char>>::empty());
        }
        while i < folders.len()
            invariant
                i <= folders@.len(),
                f == views(folders@),
                self.wf(),
                self.name_set() == held.union(views(folders@.subrange(0, i as int)).to_set()),
                views(added@).to_set() == views(folders@.subrange(0, i as int)).to_set().difference(
                    held,
                ),
            decreases folders@.len() - i,
        {
            let ghost before = views(added@);
            let ghost prefix = views(folders@.subrange(0, i as int));
            let fresh = self.registry.insert(folders[i].as_str());
            if fresh {
                added.push(folders[i].clone());
                proof {
                    assert(views(added@) =~= before.push(f[i as int]));
                    before.lemma_push_to_set_commute(f[i as int]);
                }
            }
            proof {
                let next = views(folders@.subrange(0, i + 1));
                assert(next =~= prefix.push(f[i as int]));
                prefix.lemma_push_to_set_commute(f[i as int]);
                assert(self.name_set() =~= held.union(next.to_set()));
                assert(views(added@).to_set() =~= next.to_set().difference(held));
            }
            i = i + 1;
        }
        proof {
            assert(folders@.subrange(0, folders@.len() as int) =~= folders@);
        }
        let ghost both = self.name_set();
        let listed = self.registry.list();
        let mut removed: Vec<String> = Vec::new();
        let mut j: usize = 0;
        proof {
            assert(views(removed@).to_set() =~= Set::<Seq<char>>::empty());
            assert(both.difference(Set::<Seq<char>>::empty()) =~= both);
        }
        while j < listed.len()
            invariant
                j <= listed@.len(),
                f == views(folders@),
                both == held.union(f.to_set()),
                views(listed@).to_set() == both,
                self.wf(),
                views(removed@).to_set() == views(listed@.subrange(0, j as int)).to_set().difference(
                    f.to_set(),
                ),
                self.name_set() == both.difference(views(removed@).to_set()),
            decreases listed@.len() - j,
        {
            let ghost before = views(removed@);
            let ghost prefix = views(listed@.subrange(0, j as int));
            let ghost x = listed@[j as int]@;
            let next_prefix: Ghost<Seq<Seq<char>>> = Ghost(views(listed@.subrange(0, j + 1)));
            proof {
                assert(next_prefix@ =~= prefix.push(x));
                prefix.lemma_push_to_set_commute(x);
            }
            match position_of(folders, listed[j].as_str()) {
                Some(k) => {
                    proof {
                        assert(f[k as int] == x);
                        assert(f.to_set().contains(x));
                        assert(views(removed@).to_set() =~= next_prefix@.to_set().difference(
                            f.to_set(),
                        ));
                    }
                },
                None => {
                    proof {
                        assert forall|y: Seq<char>| #[trigger] f.to_set().contains(y) implies y != x by {
                            let k = choose|k: int| 0 <= k < f.len() && f[k] == y;
                            assert(folders@[k]@ == y);
                        }
                    }
                    self.registry.remove(listed[j].as_str());
                    removed.push(listed[j].clone());
                    proof {
                        assert(views(removed@) =~= before.push(x));
                        before.lemma_push_to_set_commute(x);
                        assert(views(removed@).to_set() =~= next_prefix@.to_set().difference(
                            f.to_set(),
                        ));
                        assert(self.name_set() =~= both.difference(views(removed@).to_set()));
                    }
                },
            }
            j = j + 1;
        }
        proof {
            assert(listed@.subrange(0, listed@.len() as int) =~= listed@);
            assert(views(removed@).to_set() =~= both.difference(f.to_set()));
            assert(self.name_set() =~= f.to_set());
            assert(views(removed@).to_set() =~= held.difference(f.to_set()));
        }
        SyncOutcome { added, removed }
    }
}

/// Synchronizing twice with the same folders: the second pass adds and
/// removes nothing and leaves the registry exactly as the first pass left it.
pub proof fn law_sync_idempotent(
    first: CategoryStore,
    second: CategoryStore,
    folders: Set<Seq<char>>,
)
    requires
        first.wf(),
        second.wf(),
        first.name_set() == folders,
        second.name_set() == folders,
    ensures
        sync_added(first.name_set(), folders) == Set::<Seq<char>>::empty(),
        sync_removed(first.name_set(), folders) == Set::<Seq<char>>::empty(),
        second@ == first@,
{
    assert(sync_added(first.name_set(), folders) =~= Set::<Seq<char>>::empty());
    assert(sync_removed(first.name_set(), folders) =~= Set::<Seq<char>>::empty());
    lemma_strictly_sorted_unique(first@, second@);
}

} // verus!
