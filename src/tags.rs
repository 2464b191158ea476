//! The tag registry: unique tag names, listed in ascending order.
use vstd::prelude::*;
use vstd::string::StringExecFns;
use crate::names::{strictly_sorted, views};
use crate::registry::{NameRegistry, RegistryError, rename_refused, renamed_set};

verus! {

/// The statement that creates the table of tags where it is missing.
pub open spec fn tags_schema() -> Seq<char> {
    "CREATE TABLE IF NOT EXISTS tags (id INTEGER PRIMARY KEY AUTOINCREMENT, name TEXT UNIQUE NOT NULL);"@
}

/// Unique tag names.
pub struct TagStore {
    registry: NameRegistry,
}

impl View for TagStore {
    type V = Seq<Seq<char>>;

    closed spec fn view(&self) -> Seq<Seq<char>> {
        self.registry@
    }
}

impl TagStore {
    pub closed spec fn wf(&self) -> bool {
        self.registry.wf()
    }

    /// The set of tag names held.
    pub open spec fn name_set(&self) -> Set<Seq<char>> {
        self@.to_set()
    }

    /// A registry with no tags.
    pub fn new() -> (r: Self)
        ensures
            r.wf(),
            r.name_set() == Set::<Seq<char>>::empty(),
    {
        let r = TagStore { registry: NameRegistry::new() };
        proof {
            assert(r@.to_set() =~= Set::<Seq<char>>::empty());
        }
        r
    }

    /// A registry holding the given tag names, as rows read back from storage.
    pub fn from_rows(rows: &Vec<String>) -> (r: Self)
        ensures
            r.wf(),
            r.name_set() == views(rows@).to_set(),
    {
        TagStore { registry: NameRegistry::from_names(rows) }
    }

    /// The statement that creates the storage table of tags; running it
    /// again changes nothing.
    pub fn init(&self) -> (r: String)
        ensures
            r@ == tags_schema(),
    {
        String::from_str(
            "CREATE TABLE IF NOT EXISTS tags (id INTEGER PRIMARY KEY AUTOINCREMENT, name TEXT UNIQUE NOT NULL);",
        )
    }

    /// Adds the tag `name`; adding a tag that is held already changes nothing.
    /// Returns whether the tag was new.
    pub fn insert_tag(&mut self, name: &str) -> (added: bool)
        requires
            old(self).wf(),
        ensures
            final(self).wf(),
            final(self).name_set() == old(self).name_set().insert(name@),
            added == !old(self).name_set().contains(name@),
    {
        self.registry.insert(name)
    }

    /// All tag names, in strictly ascending order.
    pub fn get_tags(&self) -> (r: Vec<String>)
        requires
            self.wf(),
        ensures
            views(r@) == self@,
            strictly_sorted(views(r@)),
            views(r@).to_set() == self.name_set(),
    {
        self.registry.list()
    }

    /// Renames the tag `old_name` to `new_name`. Nothing changes when
    /// `old_name` is not held; refused, with nothing changed, when
    /// `new_name` is another tag's name. Returns whether a tag was renamed.
    pub fn update_tag(&mut self, old_name: &str, new_name: &str) -> (r: Result<bool, RegistryError>)
        requires
            old(self).wf(),
        ensures
            final(self).wf(),
            rename_refused(old(self).name_set(), old_name@, new_name@) ==> r == Err::<
                bool,
                RegistryError,
            >(RegistryError::NameTaken) && final(self)@ == old(self)@,
            !rename_refused(old(self).name_set(), old_name@, new_name@) ==> r == Ok::<
                bool,
                RegistryError,
            >(old(self).name_set().contains(old_name@) && old_name@ != new_name@)
                && final(self).name_set() == renamed_set(
                old(self).name_set(),
                old_name@,
                new_name@,
            ),
    {
        self.registry.rename(old_name, new_name)
    }

    /// Removes the tag `name`; removing a tag that is not held changes nothing.
    /// Returns whether the tag was held.
    pub fn delete_tag(&mut self, name: &str) -> (removed: bool)
        requires
            old(self).wf(),
        ensures
            final(self).wf(),
            final(self).name_set() == old(self).name_set().remove(name@),
            removed == old(self).name_set().contains(name@),
    {
        self.registry.remove(name)
    }
}

/// After renaming a held name to one that is not held, the listing shows the
/// new name and not the old one.
pub proof fn law_rename_shows_new_name(
    names: Set<Seq<char>>,
    old_name: Seq<char>,
    new_name: Seq<char>,
)
    requires
        names.contains(old_name),
        !names.contains(new_name),
    ensures
        !rename_refused(names, old_name, new_name),
        renamed_set(names, old_name, new_name).contains(new_name),
        !renamed_set(names, old_name, new_name).contains(old_name),
{
}

/// After removing a name, the listing does not hold it.
pub proof fn law_removed_name_absent(names: Set<Seq<char>>, name: Seq<char>)
    ensures
        !names.remove(name).contains(name),
{
}

} // verus!
