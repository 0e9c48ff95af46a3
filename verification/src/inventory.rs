//! Component inventory: for every component discovered at ingestion, the
//! non-negative count of copies the user owns.  Counts start at zero,
//! `increment` adds one, `decrement` subtracts one but floors at zero.

use vstd::prelude::*;

use crate::domain::Item;
use crate::domain::ItemModel;
use crate::store::LookupError;

verus! {

/// A component paired with how many copies of it the user owns.
#[derive(Debug, PartialEq, Eq)]
pub struct ComponentState {
    pub component: Item,
    pub count: usize,
}

/// The mathematical model of a [`ComponentState`].
#[verifier::ext_equal]
pub ghost struct ComponentStateModel {
    pub component: ItemModel,
    pub count: nat,
}

impl View for ComponentState {
    type V = ComponentStateModel;

    open spec fn view(&self) -> ComponentStateModel {
        ComponentStateModel { component: self.component@, count: self.count as nat }
    }
}

impl DeepView for ComponentState {
    type V = ComponentStateModel;

    open spec fn deep_view(&self) -> ComponentStateModel {
        self.view()
    }
}

impl Clone for ComponentState {
    fn clone(&self) -> (r: Self)
        ensures
            r@ == self@,
    {
        ComponentState { component: self.component.clone(), count: self.count }
    }
}

/// The user's component inventory, in component discovery order.
#[derive(Debug, PartialEq, Eq)]
pub struct ComponentInventory {
    pub entries: Vec<ComponentState>,
}

impl View for ComponentInventory {
    type V = Seq<ComponentStateModel>;

    open spec fn view(&self) -> Seq<ComponentStateModel> {
        self.entries.deep_view()
    }
}

/// The index of the first entry whose component bears the identifier
/// `id`, if any.
pub open spec fn first_entry_index(s: Seq<ComponentStateModel>, id: Seq<char>) -> Option<int>
    decreases s.len(),
{
    if s.len() == 0 {
        None
    } else if s.first().component.api_name == id {
        Some(0)
    } else {
        match first_entry_index(s.skip(1), id) {
            Some(i) => Some(i + 1),
            None => None,
        }
    }
}

/// What `first_entry_index` returns is the first matching index.
pub proof fn lemma_first_entry_index_props(s: Seq<ComponentStateModel>, id: Seq<char>)
    ensures
        match first_entry_index(s, id) {
            Some(i) => {
                &&& 0 <= i < s.len()
                &&& s[i].component.api_name == id
                &&& forall|j: int| 0 <= j < i ==> (#[trigger] s[j]).component.api_name != id
            },
            None => forall|j: int|
                0 <= j < s.len() ==> (#[trigger] s[j]).component.api_name != id,
        },
    decreases s.len(),
{
    if s.len() > 0 && s.first().component.api_name != id {
        lemma_first_entry_index_props(s.skip(1), id);
        match first_entry_index(s.skip(1), id) {
            Some(i) => {
                assert(s.skip(1)[i] == s[i + 1]);
                assert forall|j: int| 0 <= j < i + 1 implies (#[trigger] s[j]).component.api_name
                    != id by {
                    if j > 0 {
                        assert(s.skip(1)[j - 1] == s[j]);
                    }
                }
            },
            None => {
                assert forall|j: int| 0 <= j < s.len() implies (#[trigger] s[j]).component.api_name
                    != id by {
                    if j > 0 {
                        assert(s.skip(1)[j - 1] == s[j]);
                    }
                }
            },
        }
    }
}

proof fn lemma_first_entry_index_at(s: Seq<ComponentStateModel>, id: Seq<char>, k: int)
    requires
        0 <= k < s.len(),
        forall|j: int| 0 <= j < k ==> (#[trigger] s[j]).component.api_name != id,
        s[k].component.api_name == id,
    ensures
        first_entry_index(s, id) == Some(k),
    decreases k,
{
    if k > 0 {
        assert(forall|j: int| 0 <= j < s.len() - 1 ==> (#[trigger] s.skip(1)[j]) == s[j + 1]);
        lemma_first_entry_index_at(s.skip(1), id, k - 1);
    }
}

proof fn lemma_first_entry_index_none(s: Seq<ComponentStateModel>, id: Seq<char>)
    requires
        forall|j: int| 0 <= j < s.len() ==> (#[trigger] s[j]).component.api_name != id,
    ensures
        first_entry_index(s, id) is None,
    decreases s.len(),
{
    if s.len() > 0 {
        assert(forall|j: int| 0 <= j < s.len() - 1 ==> (#[trigger] s.skip(1)[j]) == s[j + 1]);
        lemma_first_entry_index_none(s.skip(1), id);
    }
}

/// One saturating decrement: counts above zero go down by one, a count
/// of zero stays at zero.
pub open spec fn dec_floor(c: nat) -> nat {
    if c > 0 {
        (c - 1) as nat
    } else {
        0
    }
}

/// `n` saturating decrements applied to `c`.
pub open spec fn dec_floor_many(c: nat, n: nat) -> nat
    decreases n,
{
    if n == 0 {
        c
    } else {
        dec_floor(dec_floor_many(c, (n - 1) as nat))
    }
}

/// Any number of repeated decrements of a count at zero leaves it at
/// zero: the count never goes negative.
pub proof fn lemma_decrement_floor(n: nat)
    ensures
        dec_floor_many(0, n) == 0,
    decreases n,
{
    if n > 0 {
        lemma_decrement_floor((n - 1) as nat);
    }
}

impl ComponentInventory {
    /// Seeds the inventory for the discovered components: one entry per
    /// component, in order, every count at zero.
    #[verifier::loop_isolation(false)]
    pub fn seed(components: &Vec<Item>) -> (inv: ComponentInventory)
        ensures
            inv@.len() == components@.len(),
            forall|i: int|
                0 <= i < components@.len() ==> (#[trigger] inv@[i]).component
                    == components.deep_view()[i],
            forall|i: int| 0 <= i < components@.len() ==> (#[trigger] inv@[i]).count == 0,
    {
        let mut entries: Vec<ComponentState> = Vec::new();
        let n = components.len();
        let mut i: usize = 0;
        while i < n
            invariant
                0 <= i <= n,
                entries@.len() == i,
                forall|j: int|
                    0 <= j < i ==> (#[trigger] entries.deep_view()[j]).component
                        == components.deep_view()[j],
                forall|j: int| 0 <= j < i ==> (#[trigger] entries.deep_view()[j]).count == 0,
            decreases n - i,
        {
            let entry = ComponentState { component: components[i].clone(), count: 0 };
            let ghost prev = entries.deep_view();
            let ghost entrym = entry@;
            entries.push(entry);
            proof {
                assert(entries.deep_view() =~= prev.push(entrym));
            }
            i = i + 1;
        }
        ComponentInventory { entries }
    }

    /// The index of the entry for identifier `id`, if any.
    #[verifier::loop_isolation(false)]
    fn find_entry(&self, id: &String) -> (r: Option<usize>)
        ensures
            match r {
                Some(k) => first_entry_index(self@, id@) == Some(k as int),
                None => first_entry_index(self@, id@) is None,
            },
    {
        let n = self.entries.len();
        let mut i: usize = 0;
        while i < n
            invariant
                0 <= i <= n,
                forall|j: int| 0 <= j < i ==> (#[trigger] self@[j]).component.api_name != id@,
            decreases n - i,
        {
            if self.entries[i].component.api_name == *id {
                proof {
                    lemma_first_entry_index_at(self@, id@, i as int);
                }
                return Some(i);
            }
            i = i + 1;
        }
        proof {
            lemma_first_entry_index_none(self@, id@);
        }
        None
    }

    /// The owned count for identifier `id`, if the inventory holds it.
    pub fn count_of(&self, id: &String) -> (r: Option<usize>)
        ensures
            match r {
                Some(c) => ({
                    &&& first_entry_index(self@, id@) matches Some(k)
                    &&& c as nat == self@[k].count
                }),
                None => first_entry_index(self@, id@) is None,
            },
    {
        match self.find_entry(id) {
            Some(k) => {
                proof {
                    lemma_first_entry_index_props(self@, id@);
                }
                Some(self.entries[k].count)
            },
            None => None,
        }
    }

    /// Adds one to the count for identifier `id`.  An unknown identifier
    /// is a recoverable error and leaves the inventory unchanged.  The
    /// count must not already stand at the machine limit.
    pub fn increment(&mut self, id: &String) -> (r: Result<(), LookupError>)
        requires
            (first_entry_index(old(self)@, id@) matches Some(k) ==> old(self)@[k].count
                < usize::MAX),
        ensures
            match r {
                Ok(()) => ({
                    &&& first_entry_index(old(self)@, id@) matches Some(k)
                    &&& final(self)@ == old(self)@.update(
                        k,
                        ComponentStateModel {
                            component: old(self)@[k].component,
                            count: old(self)@[k].count + 1,
                        },
                    )
                }),
                Err(LookupError::UnknownComponent) => {
                    &&& first_entry_index(old(self)@, id@) is None
                    &&& final(self)@ == old(self)@
                },
                Err(LookupError::UnknownChampion) => false,
            },
    {
        let k = match self.find_entry(id) {
            Some(k) => k,
            None => {
                return Err(LookupError::UnknownComponent);
            },
        };
        proof {
            lemma_first_entry_index_props(self@, id@);
        }
        let ghost before = self@;
        let mut entry = self.entries.remove(k);
        entry.count = entry.count + 1;
        proof {
            assert(entry@ =~= ComponentStateModel {
                component: before[k as int].component,
                count: before[k as int].count + 1,
            });
        }
        self.entries.insert(k, entry);
        proof {
            assert(final(self)@ =~= before.update(
                k as int,
                ComponentStateModel {
                    component: before[k as int].component,
                    count: before[k as int].count + 1,
                },
            ));
        }
        Ok(())
    }

    /// Subtracts one from the count for identifier `id`, flooring at
    /// zero: a count of zero stays at zero.  An unknown identifier is a
    /// recoverable error and leaves the inventory unchanged.
    pub fn decrement(&mut self, id: &String) -> (r: Result<(), LookupError>)
        ensures
            match r {
                Ok(()) => ({
                    &&& first_entry_index(old(self)@, id@) matches Some(k)
                    &&& final(self)@ == old(self)@.update(
                        k,
                        ComponentStateModel {
                            component: old(self)@[k].component,
                            count: dec_floor(old(self)@[k].count),
                        },
                    )
                }),
                Err(LookupError::UnknownComponent) => {
                    &&& first_entry_index(old(self)@, id@) is None
                    &&& final(self)@ == old(self)@
                },
                Err(LookupError::UnknownChampion) => false,
            },
    {
        let k = match self.find_entry(id) {
            Some(k) => k,
            None => {
                return Err(LookupError::UnknownComponent);
            },
        };
        proof {
            lemma_first_entry_index_props(self@, id@);
        }
        let ghost before = self@;
        let mut entry = self.entries.remove(k);
        if entry.count > 0 {
            entry.count = entry.count - 1;
        }
        proof {
            assert(entry@ =~= ComponentStateModel {
                component: before[k as int].component,
                count: dec_floor(before[k as int].count),
            });
        }
        self.entries.insert(k, entry);
        proof {
            assert(final(self)@ =~= before.update(
                k as int,
                ComponentStateModel {
                    component: before[k as int].component,
                    count: dec_floor(before[k as int].count),
                },
            ));
        }
        Ok(())
    }
}

} // verus!
