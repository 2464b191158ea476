//! A registry of unique names kept in ascending order: the state shared by
//! the tag and category registries.
use vstd::prelude::*;
use crate::names::{
    lemma_lt_asymmetric, lemma_lt_irreflexive, lemma_lt_total, lemma_lt_transitive,
    position_of, seq_lt, str_eq, str_lt, strictly_sorted, views,
};

verus! {

/// Why a rename was refused.
#[derive(Debug, Clone, Copy, PartialEq, Eq)]
pub enum RegistryError {
    /// The new name already belongs to another entry.
    NameTaken,
}

/// Unique names, held in ascending order.
pub struct NameRegistry {
    names: Vec<String>,
}

impl View for NameRegistry {
    type V = Seq<Seq<char>>;

    closed spec fn view(&self) -> Seq<Seq<char>> {
        views(self.names@)
    }
}

/// The names after `rename(old_name, new_name)` on a registry holding `s`,
/// when the rename is not refused.
pub open spec fn renamed_set(s: Set<Seq<char>>, old_name: Seq<char>, new_name: Seq<char>) -> Set<
    Seq<char>,
> {
    if s.contains(old_name) {
        s.remove(old_name).insert(new_name)
    } else {
        s
    }
}

/// A rename is refused exactly when the new name already belongs to another entry.
pub open spec fn rename_refused(s: Set<Seq<char>>, old_name: Seq<char>, new_name: Seq<char>) -> bool {
    s.contains(old_name) && s.contains(new_name) && old_name != new_name
}

proof fn lemma_insert_at(s: Seq<Seq<char>>, i: int, x: Seq<char>)
    requires
        strictly_sorted(s),
        0 <= i <= s.len(),
        forall|k: int| 0 <= k < i ==> seq_lt(#[trigger] s[k], x),
        i < s.len() ==> seq_lt(x, s[i]),
    ensures
        strictly_sorted(s.insert(i, x)),
        s.insert(i, x).to_set() == s.to_set().insert(x),
{
    let t = s.insert(i, x);
    assert forall|a: int, b: int| 0 <= a < b < t.len() implies seq_lt(#[trigger] t[a], #[trigger] t[b]) by {
        if b < i {
        } else if b == i {
        } else if a < i {
            lemma_lt_transitive(s[a], x, s[i]);
            if b - 1 > i {
                lemma_lt_transitive(s[a], s[i], s[b - 1]);
            }
        } else if a == i {
            if b - 1 > i {
                lemma_lt_transitive(x, s[i], s[b - 1]);
            }
        } else {
            assert(t[a] == s[a - 1] && t[b] == s[b - 1]);
        }
    }
    assert forall|y: Seq<char>| #[trigger] t.to_set().contains(y) <==> s.to_set().insert(x).contains(y) by {
        if t.to_set().contains(y) {
            let k = choose|k: int| 0 <= k < t.len() && t[k] == y;
            if k < i {
                assert(s[k] == y);
            } else if k > i {
                assert(s[k - 1] == y);
            }
        }
        if s.to_set().contains(y) {
            let k = choose|k: int| 0 <= k < s.len() && s[k] == y;
            if k < i {
                assert(t[k] == y);
            } else {
                assert(t[k + 1] == y);
            }
        }
        if y == x {
            assert(t[i] == y);
        }
    }
    assert(t.to_set() =~= s.to_set().insert(x));
}

proof fn lemma_remove_at(s: Seq<Seq<char>>, i: int)
    requires
        strictly_sorted(s),
        0 <= i < s.len(),
    ensures
        strictly_sorted(s.remove(i)),
        s.remove(i).to_set() == s.to_set().remove(s[i]),
{
    let t = s.remove(i);
    assert forall|a: int, b: int| 0 <= a < b < t.len() implies seq_lt(#[trigger] t[a], #[trigger] t[b]) by {
        if a < i && b >= i {
            assert(t[b] == s[b + 1]);
        } else if a >= i {
            assert(t[a] == s[a + 1] && t[b] == s[b + 1]);
        }
    }
    assert forall|y: Seq<char>| #[trigger] t.to_set().contains(y) <==> s.to_set().remove(s[i]).contains(y) by {
        if t.to_set().contains(y) {
            let k = choose|k: int| 0 <= k < t.len() && t[k] == y;
            if k < i {
                assert(s[k] == y);
                lemma_lt_irreflexive(y);
            } else {
                assert(s[k + 1] == y);
                lemma_lt_irreflexive(y);
            }
        }
        if s.to_set().contains(y) && y != s[i] {
            let k = choose|k: int| 0 <= k < s.len() && s[k] == y;
            if k < i {
                assert(t[k] == y);
            } else {
                assert(t[k - 1] == y);
            }
        }
    }
    assert(t.to_set() =~= s.to_set().remove(s[i]));
}

impl NameRegistry {
    /// The registry is well formed: its names ascend strictly.
    pub open spec fn wf(&self) -> bool {
        strictly_sorted(self@)
    }

    /// The set of names held.
    pub open spec fn name_set(&self) -> Set<Seq<char>> {
        self@.to_set()
    }

    /// An empty registry.
    pub fn new() -> (r: Self)
        ensures
            r.wf(),
            r@ == Seq::<Seq<char>>::empty(),
    {
        let r = NameRegistry { names: Vec::new() };
        assert(r@ =~= Seq::<Seq<char>>::empty());
        r
    }

    /// A registry holding the given names, each once, whatever their order.
    pub fn from_names(rows: &Vec<String>) -> (r: Self)
        ensures
            r.wf(),
            r.name_set() == views(rows@).to_set(),
    {
        let mut r = NameRegistry::new();
        let mut i: usize = 0;
        proof {
            assert(r@.to_set() =~= views(rows@.subrange(0, 0)).to_set());
        }
        while i < rows.len()
            invariant
                i <= rows@.len(),
                r.wf(),
                r.name_set() == views(rows@.subrange(0, i as int)).to_set(),
            decreases rows@.len() - i,
        {
            r.insert(rows[i].as_str());
            proof {
                let a = views(rows@.subrange(0, i as int));
                let b = views(rows@.subrange(0, i + 1));
                assert(b =~= a.push(rows@[i as int]@));
                a.lemma_push_to_set_commute(rows@[i as int]@);
            }
            i = i + 1;
        }
        assert(rows@.subrange(0, rows@.len() as int) =~= rows@);
        r
    }

    /// The names, in ascending order.
    pub fn list(&self) -> (r: Vec<String>)
        ensures
            views(r@) == self@,
    {
        let mut out: Vec<String> = Vec::new();
        let mut i: usize = 0;
        while i < self.names.len()
            invariant
                i <= self.names@.len(),
                views(out@) == views(self.names@.subrange(0, i as int)),
            decreases self.names@.len() - i,
        {
            let ghost before = out@;
            let name = self.names[i].clone();
            out.push(name);
            proof {
                assert(views(out@) =~= views(before).push(self.names@[i as int]@));
                assert(views(self.names@.subrange(0, i + 1)) =~= views(
                    self.names@.subrange(0, i as int),
                ).push(self.names@[i as int]@));
            }
            i = i + 1;
        }
        assert(self.names@.subrange(0, self.names@.len() as int) =~= self.names@);
        out
    }

    /// Whether `name` is held.
    pub fn contains(&self, name: &str) -> (r: bool)
        ensures
            r == self.name_set().contains(name@),
    {
        let p = position_of(&self.names, name);
        proof {
            if self.name_set().contains(name@) {
                let k = choose|k: int| 0 <= k < self@.len() && self@[k] == name@;
                assert(self.names@[k]@ == name@);
            }
            if let Some(i) = p {
                assert(self@[i as int] == name@);
            }
        }
        p.is_some()
    }

    /// Adds `name`; a name already held is left as it is.
    /// Returns whether the name was new.
    pub fn insert(&mut self, name: &str) -> (added: bool)
        requires
            old(self).wf(),
        ensures
            final(self).wf(),
            final(self).name_set() == old(self).name_set().insert(name@),
            added == !old(self).name_set().contains(name@),
    {
        let ghost s = self@;
        let mut i: usize = 0;
        while i < self.names.len() && str_lt(self.names[i].as_str(), name)
            invariant
                i <= self.names@.len(),
                self@ == s,
                forall|k: int| 0 <= k < i ==> seq_lt(#[trigger] s[k], name@),
            decreases self.names@.len() - i,
        {
            i = i + 1;
        }
        if i < self.names.len() && str_eq(self.names[i].as_str(), name) {
            proof {
                assert(s[i as int] == name@);
                assert(s.to_set().insert(name@) =~= s.to_set());
            }
            return false;
        }
        proof {
            if i < s.len() {
                lemma_lt_total(s[i as int], name@);
            }
            assert forall|y: Seq<char>| #[trigger] s.to_set().contains(y) implies y != name@ by {
                let k = choose|k: int| 0 <= k < s.len() && s[k] == y;
                if k < i {
                    lemma_lt_irreflexive(y);
                } else if k > i {
                    lemma_lt_transitive(name@, s[i as int], s[k]);
                    lemma_lt_irreflexive(y);
                } else {
                    lemma_lt_asymmetric(name@, y);
                }
            }
            lemma_insert_at(s, i as int, name@);
        }
        self.names.insert(i, name.to_string());
        proof {
            assert(self@ =~= s.insert(i as int, name@));
        }
        true
    }

    /// Removes `name`; a name not held leaves the registry as it is.
    /// Returns whether the name was held.
    pub fn remove(&mut self, name: &str) -> (removed: bool)
        requires
            old(self).wf(),
        ensures
            final(self).wf(),
            final(self).name_set() == old(self).name_set().remove(name@),
            removed == old(self).name_set().contains(name@),
    {
        let ghost s = self@;
        match position_of(&self.names, name) {
            Some(i) => {
                proof {
                    lemma_remove_at(s, i as int);
                }
                self.names.remove(i);
                proof {
                    assert(self@ =~= s.remove(i as int));
                }
                true
            },
            None => {
                proof {
                    assert forall|y: Seq<char>| #[trigger] s.to_set().contains(y) implies y != name@ by {
                        let k = choose|k: int| 0 <= k < s.len() && s[k] == y;
                    }
                    assert(s.to_set().remove(name@) =~= s.to_set());
                }
                false
            },
        }
    }

    /// Gives the entry `old_name` the name `new_name`. Nothing changes when
    /// `old_name` is not held or the two names are equal. Refused, with
    /// nothing changed, when `new_name` belongs to another entry.
    /// Returns whether an entry was renamed.
    pub fn rename(&mut self, old_name: &str, new_name: &str) -> (r: Result<bool, RegistryError>)
        requires
            old(self).wf(),
        ensures
            final(self).wf(),
            rename_refused(old(self).name_set(), old_name@, new_name@) ==> r == Err::<
                bool,
                RegistryError,
            >(RegistryError::NameTaken) && final(self)@ == old(self)@,
            !rename_refused(old(self).name_set(), old_name@, new_name@) ==> r == Ok::<
                bool,
                RegistryError,
            >(old(self).name_set().contains(old_name@) && old_name@ != new_name@)
                && final(self).name_set() == renamed_set(
                old(self).name_set(),
                old_name@,
                new_name@,
            ),
    {
        let ghost s = self.name_set();
        if !self.contains(old_name) {
            return Ok(false);
        }
        if str_eq(old_name, new_name) {
            proof {
                assert(s.remove(old_name@).insert(new_name@) =~= s);
            }
            return Ok(false);
        }
        if self.contains(new_name) {
            return Err(RegistryError::NameTaken);
        }
        self.remove(old_name);
        self.insert(new_name);
        Ok(true)
    }
}

} // verus!
