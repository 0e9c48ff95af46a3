//! Build state store: the ordered list of per-champion build records.
//! Each record pairs a champion with the ordered list of items assigned
//! to it.  The store is created by merging the freshly ingested roster
//! with optional persisted state, mutated by assign / unassign / clear,
//! and round-trips through the persisted form.
//!
//! Records are matched by champion display name, as the persisted format
//! has always done; a rename therefore breaks the merge (a known
//! fragility of that format).

use vstd::prelude::*;

use crate::domain::Champion;
use crate::domain::ChampionModel;
use crate::domain::Item;
use crate::domain::ItemModel;

verus! {

/// An operation referenced a champion or component the store does not
/// hold.  Recoverable: the caller reports it and goes on.
#[derive(Debug, PartialEq, Eq, Clone)]
pub enum LookupError {
    /// No champion of the given name is in the store.
    UnknownChampion,
    /// No component of the given identifier is in the inventory.
    UnknownComponent,
}

/// One champion together with the ordered list of items assigned to it.
/// Nothing enforces global exclusivity: the same item may be assigned to
/// several champions, or several times to one.
#[derive(Debug, PartialEq, Eq)]
pub struct ChampionState {
    pub champ: Champion,
    pub items: Vec<Item>,
}

/// The mathematical model of a [`ChampionState`].
#[verifier::ext_equal]
pub ghost struct ChampionStateModel {
    pub champ: ChampionModel,
    pub items: Seq<ItemModel>,
}

impl View for ChampionState {
    type V = ChampionStateModel;

    open spec fn view(&self) -> ChampionStateModel {
        ChampionStateModel { champ: self.champ@, items: self.items.deep_view() }
    }
}

impl DeepView for ChampionState {
    type V = ChampionStateModel;

    open spec fn deep_view(&self) -> ChampionStateModel {
        self.view()
    }
}

impl Clone for ChampionState {
    fn clone(&self) -> (r: Self)
        ensures
            r@ == self@,
    {
        let r = ChampionState { champ: self.champ.clone(), items: self.items.clone() };
        proof {
            assert forall|i: int| 0 <= i < self.items@.len() implies r.items.deep_view()[i]
                == self.items.deep_view()[i] by {
                assert(cloned::<Item>(self.items@[i], r.items@[i]));
            }
            assert(r.items.deep_view() =~= self.items.deep_view());
            assert(r@ =~= self@);
        }
        r
    }
}

/// The build state store: one record per roster champion, in roster
/// order.
#[derive(Debug, PartialEq, Eq)]
pub struct BuildStateStore {
    pub champs: Vec<ChampionState>,
}

impl View for BuildStateStore {
    type V = Seq<ChampionStateModel>;

    open spec fn view(&self) -> Seq<ChampionStateModel> {
        self.champs.deep_view()
    }
}

// ---------------------------------------------------------------------------
// Finding records by champion name
// ---------------------------------------------------------------------------

/// The index of the first record whose champion bears `name`, if any.
pub open spec fn first_index_named(s: Seq<ChampionStateModel>, name: Seq<char>) -> Option<int>
    decreases s.len(),
{
    if s.len() == 0 {
        None
    } else if s.first().champ.name == name {
        Some(0)
    } else {
        match first_index_named(s.skip(1), name) {
            Some(i) => Some(i + 1),
            None => None,
        }
    }
}

/// How many records bear `name`.
pub open spec fn count_named(s: Seq<ChampionStateModel>, name: Seq<char>) -> nat
    decreases s.len(),
{
    if s.len() == 0 {
        0
    } else {
        count_named(s.drop_last(), name) + if s.last().champ.name == name {
            1nat
        } else {
            0nat
        }
    }
}

/// What `first_index_named` returns is the first matching index: it
/// matches, everything before it does not, and a `None` means nothing
/// matches.
pub proof fn lemma_first_index_named_props(s: Seq<ChampionStateModel>, name: Seq<char>)
    ensures
        match first_index_named(s, name) {
            Some(i) => {
                &&& 0 <= i < s.len()
                &&& s[i].champ.name == name
                &&& forall|j: int| 0 <= j < i ==> (#[trigger] s[j]).champ.name != name
            },
            None => forall|j: int| 0 <= j < s.len() ==> (#[trigger] s[j]).champ.name != name,
        },
    decreases s.len(),
{
    if s.len() > 0 && s.first().champ.name != name {
        lemma_first_index_named_props(s.skip(1), name);
        match first_index_named(s.skip(1), name) {
            Some(i) => {
                assert(s.skip(1)[i] == s[i + 1]);
                assert forall|j: int| 0 <= j < i + 1 implies (#[trigger] s[j]).champ.name
                    != name by {
                    if j > 0 {
                        assert(s.skip(1)[j - 1] == s[j]);
                    }
                }
            },
            None => {
                assert forall|j: int| 0 <= j < s.len() implies (#[trigger] s[j]).champ.name
                    != name by {
                    if j > 0 {
                        assert(s.skip(1)[j - 1] == s[j]);
                    }
                }
            },
        }
    }
}

proof fn lemma_first_index_named_at(s: Seq<ChampionStateModel>, name: Seq<char>, k: int)
    requires
        0 <= k < s.len(),
        forall|j: int| 0 <= j < k ==> (#[trigger] s[j]).champ.name != name,
        s[k].champ.name == name,
    ensures
        first_index_named(s, name) == Some(k),
    decreases k,
{
    if k > 0 {
        assert(forall|j: int| 0 <= j < s.len() - 1 ==> (#[trigger] s.skip(1)[j]) == s[j + 1]);
        lemma_first_index_named_at(s.skip(1), name, k - 1);
    }
}

proof fn lemma_first_index_named_none(s: Seq<ChampionStateModel>, name: Seq<char>)
    requires
        forall|j: int| 0 <= j < s.len() ==> (#[trigger] s[j]).champ.name != name,
    ensures
        first_index_named(s, name) is None,
    decreases s.len(),
{
    if s.len() > 0 {
        assert(forall|j: int| 0 <= j < s.len() - 1 ==> (#[trigger] s.skip(1)[j]) == s[j + 1]);
        lemma_first_index_named_none(s.skip(1), name);
    }
}

/// The items carried over from persisted state for a champion of the
/// given name: the persisted record's items when exactly one record
/// matches, the empty list otherwise.
pub open spec fn attached_items(
    persisted: Option<Seq<ChampionStateModel>>,
    name: Seq<char>,
) -> Seq<ItemModel> {
    match persisted {
        None => Seq::empty(),
        Some(ps) => if count_named(ps, name) == 1 {
            ps[first_index_named(ps, name)->Some_0].items
        } else {
            Seq::empty()
        },
    }
}

// ---------------------------------------------------------------------------
// Construction and persistence
// ---------------------------------------------------------------------------

/// Clones the item list of the single record of `ps` bearing `name`,
/// when exactly one does; yields the empty list otherwise.
#[verifier::loop_isolation(false)]
fn carried_items(ps: &Vec<ChampionState>, name: &String) -> (r: Vec<Item>)
    ensures
        r.deep_view() == attached_items(Some(ps.deep_view()), name@),
{
    let ghost psm = ps.deep_view();
    let n = ps.len();
    let mut count: usize = 0;
    let mut found: Option<usize> = None;
    let mut i: usize = 0;
    while i < n
        invariant
            0 <= i <= n,
            count <= i,
            count as nat == count_named(psm.subrange(0, i as int), name@),
            match found {
                Some(k) => {
                    &&& 0 <= k < i
                    &&& psm[k as int].champ.name == name@
                    &&& forall|j: int| 0 <= j < k ==> (#[trigger] psm[j]).champ.name != name@
                },
                None => forall|j: int| 0 <= j < i ==> (#[trigger] psm[j]).champ.name != name@,
            },
        decreases n - i,
    {
        proof {
            assert(psm.subrange(0, i + 1).drop_last() =~= psm.subrange(0, i as int));
            assert(psm.subrange(0, i + 1).last() == psm[i as int]);
        }
        if ps[i].champ.name == *name {
            count = count + 1;
            if found.is_none() {
                found = Some(i);
            }
        }
        i = i + 1;
    }
    proof {
        assert(psm.subrange(0, n as int) =~= psm);
    }
    if count == 1 {
        let k = match found {
            Some(k) => k,
            None => {
                proof {
                    lemma_first_index_named_none(psm, name@);
                    lemma_count_vs_first_index(psm, name@);
                    assert(false);
                }
                0
            },
        };
        proof {
            lemma_first_index_named_at(psm, name@, k as int);
        }
        let r = ps[k].items.clone();
        proof {
            assert forall|i: int| 0 <= i < ps[k as int].items@.len() implies r.deep_view()[i]
                == ps[k as int].items.deep_view()[i] by {
                assert(cloned::<Item>(ps[k as int].items@[i], r@[i]));
            }
            assert(r.deep_view() =~= psm[k as int].items);
        }
        r
    } else {
        proof {
            match found {
                Some(k) => {
                    lemma_first_index_named_at(psm, name@, k as int);
                },
                None => {
                    lemma_first_index_named_none(psm, name@);
                },
            }
            lemma_count_vs_first_index(psm, name@);
        }
        Vec::new()
    }
}

/// A name with no matching record is counted zero times, and a name
/// with a first matching record is counted at least once.
proof fn lemma_count_vs_first_index(s: Seq<ChampionStateModel>, name: Seq<char>)
    ensures
        (first_index_named(s, name) is None) ==> count_named(s, name) == 0,
        (first_index_named(s, name) is Some) ==> count_named(s, name) >= 1,
    decreases s.len(),
{
    lemma_first_index_named_props(s, name);
    if s.len() > 0 {
        lemma_count_vs_first_index(s.drop_last(), name);
        lemma_first_index_named_props(s.drop_last(), name);
        match first_index_named(s, name) {
            Some(i) => {
                if i < s.len() - 1 {
                    assert(s.drop_last()[i].champ.name == name);
                    assert(first_index_named(s.drop_last(), name) is Some) by {
                        match first_index_named(s.drop_last(), name) {
                            Some(_) => {},
                            None => {
                                assert(s.drop_last()[i].champ.name != name);
                            },
                        }
                    }
                }
            },
            None => {},
        }
    }
}

impl BuildStateStore {
    /// Merges the ingested roster with optional persisted state: each
    /// roster champion keeps its persisted item list when the persisted
    /// state holds exactly one record of its name, and starts empty
    /// otherwise.
    #[verifier::loop_isolation(false)]
    pub fn attach(roster: &Vec<Champion>, persisted: Option<&Vec<ChampionState>>) -> (s:
        BuildStateStore)
        ensures
            s@.len() == roster@.len(),
            forall|i: int|
                0 <= i < roster@.len() ==> (#[trigger] s@[i]).champ == roster.deep_view()[i],
            forall|i: int|
                0 <= i < roster@.len() ==> (#[trigger] s@[i]).items == attached_items(
                    persisted.deep_view(),
                    roster.deep_view()[i].name,
                ),
    {
        let mut champs: Vec<ChampionState> = Vec::new();
        let n = roster.len();
        let mut i: usize = 0;
        while i < n
            invariant
                0 <= i <= n,
                champs@.len() == i,
                forall|j: int|
                    0 <= j < i ==> (#[trigger] champs.deep_view()[j]).champ
                        == roster.deep_view()[j],
                forall|j: int|
                    0 <= j < i ==> (#[trigger] champs.deep_view()[j]).items == attached_items(
                        persisted.deep_view(),
                        roster.deep_view()[j].name,
                    ),
            decreases n - i,
        {
            let champ = roster[i].clone();
            let items: Vec<Item> = match persisted {
                Some(ps) => carried_items(ps, &champ.name),
                None => Vec::new(),
            };
            let record = ChampionState { champ, items };
            proof {
                assert(record@.champ == roster.deep_view()[i as int]);
                if persisted is None {
                    assert(record@.items =~= attached_items(
                        persisted.deep_view(),
                        roster.deep_view()[i as int].name,
                    ));
                }
                assert(record@.items == attached_items(
                    persisted.deep_view(),
                    roster.deep_view()[i as int].name,
                ));
            }
            let ghost prev = champs.deep_view();
            let ghost recordm = record@;
            champs.push(record);
            proof {
                assert(champs.deep_view() =~= prev.push(recordm));
            }
            i = i + 1;
        }
        BuildStateStore { champs }
    }

    /// The persisted form of the store: a structurally equal copy of its
    /// records.
    pub fn serialize(&self) -> (r: Vec<ChampionState>)
        ensures
            r.deep_view() == self@,
    {
        let r = self.champs.clone();
        proof {
            assert forall|i: int| 0 <= i < self.champs@.len() implies r.deep_view()[i]
                == self.champs.deep_view()[i] by {
                assert(cloned::<ChampionState>(self.champs@[i], r@[i]));
            }
            assert(r.deep_view() =~= self@);
        }
        r
    }

    /// Rebuilds a store from its persisted form.
    pub fn deserialize(persisted: Vec<ChampionState>) -> (s: BuildStateStore)
        ensures
            s@ == persisted.deep_view(),
    {
        BuildStateStore { champs: persisted }
    }
}

/// Round trip: what `deserialize` makes of `serialize`'s output is
/// structurally equal to the original store — their models coincide,
/// and in particular every champion name and ordered item list does.
/// The two premises are exactly the two functions' contracts.
pub proof fn lemma_round_trip(
    original: BuildStateStore,
    persisted: Vec<ChampionState>,
    restored: BuildStateStore,
)
    requires
        persisted.deep_view() == original@,
        restored@ == persisted.deep_view(),
    ensures
        restored@ == original@,
{
}

// ---------------------------------------------------------------------------
// Mutation
// ---------------------------------------------------------------------------

impl BuildStateStore {
    /// The index of the record bearing `champion_name`, if any.
    #[verifier::loop_isolation(false)]
    fn find_index(&self, champion_name: &String) -> (r: Option<usize>)
        ensures
            match r {
                Some(k) => first_index_named(self@, champion_name@) == Some(k as int),
                None => first_index_named(self@, champion_name@) is None,
            },
    {
        let n = self.champs.len();
        let mut i: usize = 0;
        while i < n
            invariant
                0 <= i <= n,
                forall|j: int| 0 <= j < i ==> (#[trigger] self@[j]).champ.name != champion_name@,
            decreases n - i,
        {
            if self.champs[i].champ.name == *champion_name {
                proof {
                    lemma_first_index_named_at(self@, champion_name@, i as int);
                }
                return Some(i);
            }
            i = i + 1;
        }
        proof {
            lemma_first_index_named_none(self@, champion_name@);
        }
        None
    }

    /// Appends `item` to the named champion's list.  Assigning the same
    /// item twice is allowed and produces two entries.  An unknown name
    /// is a recoverable error and leaves the store unchanged.
    pub fn assign(&mut self, champion_name: &String, item: Item) -> (r: Result<(), LookupError>)
        ensures
            match r {
                Ok(()) => ({
                    &&& first_index_named(old(self)@, champion_name@) matches Some(k)
                    &&& final(self)@ == old(self)@.update(
                        k,
                        ChampionStateModel {
                            champ: old(self)@[k].champ,
                            items: old(self)@[k].items.push(item@),
                        },
                    )
                }),
                Err(LookupError::UnknownChampion) => {
                    &&& first_index_named(old(self)@, champion_name@) is None
                    &&& final(self)@ == old(self)@
                },
                Err(LookupError::UnknownComponent) => false,
            },
    {
        let k = match self.find_index(champion_name) {
            Some(k) => k,
            None => {
                return Err(LookupError::UnknownChampion);
            },
        };
        proof {
            lemma_first_index_named_props(self@, champion_name@);
        }
        let ghost before = self@;
        let mut record = self.champs.remove(k);
        record.items.push(item);
        proof {
            assert(record.items.deep_view() =~= before[k as int].items.push(item@));
            assert(record@ =~= ChampionStateModel {
                champ: before[k as int].champ,
                items: before[k as int].items.push(item@),
            });
        }
        self.champs.insert(k, record);
        proof {
            assert(final(self)@ =~= before.update(
                k as int,
                ChampionStateModel {
                    champ: before[k as int].champ,
                    items: before[k as int].items.push(item@),
                },
            ));
        }
        Ok(())
    }

    /// The index of the first item of `items` bearing `item_name`, if
    /// any.
    #[verifier::loop_isolation(false)]
    fn first_item_index_exec(items: &Vec<Item>, item_name: &String) -> (r: Option<usize>)
        ensures
            match r {
                Some(k) => first_item_index(items.deep_view(), item_name@) == Some(k as int),
                None => first_item_index(items.deep_view(), item_name@) is None,
            },
    {
        let n = items.len();
        let mut i: usize = 0;
        while i < n
            invariant
                0 <= i <= n,
                forall|j: int|
                    0 <= j < i ==> (#[trigger] items.deep_view()[j]).name != item_name@,
            decreases n - i,
        {
            if items[i].name == *item_name {
                proof {
                    lemma_first_item_index_at(items.deep_view(), item_name@, i as int);
                }
                return Some(i);
            }
            i = i + 1;
        }
        proof {
            lemma_first_item_index_none(items.deep_view(), item_name@);
        }
        None
    }

    /// Removes the first entry bearing `item_name` from the named
    /// champion's list; a name the list does not hold leaves the list
    /// exactly as it was (a no-op, not an error).  An unknown champion
    /// is a recoverable error and leaves the store unchanged.
    pub fn unassign(&mut self, champion_name: &String, item_name: &String) -> (r: Result<
        (),
        LookupError,
    >)
        ensures
            match r {
                Ok(()) => ({
                    &&& first_index_named(old(self)@, champion_name@) matches Some(k)
                    &&& match first_item_index(old(self)@[k].items, item_name@) {
                        Some(j) => final(self)@ == old(self)@.update(
                            k,
                            ChampionStateModel {
                                champ: old(self)@[k].champ,
                                items: old(self)@[k].items.remove(j),
                            },
                        ),
                        None => final(self)@ == old(self)@,
                    }
                }),
                Err(LookupError::UnknownChampion) => {
                    &&& first_index_named(old(self)@, champion_name@) is None
                    &&& final(self)@ == old(self)@
                },
                Err(LookupError::UnknownComponent) => false,
            },
    {
        let k = match self.find_index(champion_name) {
            Some(k) => k,
            None => {
                return Err(LookupError::UnknownChampion);
            },
        };
        proof {
            lemma_first_index_named_props(self@, champion_name@);
        }
        let ghost before = self@;
        let mut record = self.champs.remove(k);
        let j = match Self::first_item_index_exec(&record.items, item_name) {
            Some(j) => j,
            None => {
                self.champs.insert(k, record);
                proof {
                    assert(final(self)@ =~= before);
                }
                return Ok(());
            },
        };
        proof {
            lemma_first_item_index_props(before[k as int].items, item_name@);
        }
        record.items.remove(j);
        proof {
            assert(record.items.deep_view() =~= before[k as int].items.remove(j as int));
            assert(record@ =~= ChampionStateModel {
                champ: before[k as int].champ,
                items: before[k as int].items.remove(j as int),
            });
        }
        self.champs.insert(k, record);
        proof {
            assert(final(self)@ =~= before.update(
                k as int,
                ChampionStateModel {
                    champ: before[k as int].champ,
                    items: before[k as int].items.remove(j as int),
                },
            ));
        }
        Ok(())
    }

    /// Empties the named champion's item list.  An unknown name is a
    /// recoverable error and leaves the store unchanged.
    pub fn clear(&mut self, champion_name: &String) -> (r: Result<(), LookupError>)
        ensures
            match r {
                Ok(()) => ({
                    &&& first_index_named(old(self)@, champion_name@) matches Some(k)
                    &&& final(self)@ == old(self)@.update(
                        k,
                        ChampionStateModel {
                            champ: old(self)@[k].champ,
                            items: Seq::empty(),
                        },
                    )
                }),
                Err(LookupError::UnknownChampion) => {
                    &&& first_index_named(old(self)@, champion_name@) is None
                    &&& final(self)@ == old(self)@
                },
                Err(LookupError::UnknownComponent) => false,
            },
    {
        let k = match self.find_index(champion_name) {
            Some(k) => k,
            None => {
                return Err(LookupError::UnknownChampion);
            },
        };
        proof {
            lemma_first_index_named_props(self@, champion_name@);
        }
        let ghost before = self@;
        let mut record = self.champs.remove(k);
        record.items.clear();
        proof {
            assert(record.items.deep_view() =~= Seq::<ItemModel>::empty());
            assert(record@ =~= ChampionStateModel {
                champ: before[k as int].champ,
                items: Seq::empty(),
            });
        }
        self.champs.insert(k, record);
        proof {
            assert(final(self)@ =~= before.update(
                k as int,
                ChampionStateModel { champ: before[k as int].champ, items: Seq::empty() },
            ));
        }
        Ok(())
    }
}

// ---------------------------------------------------------------------------
// Finding items by name
// ---------------------------------------------------------------------------

/// The index of the first item of `items` whose name is `name`, if any.
pub open spec fn first_item_index(items: Seq<ItemModel>, name: Seq<char>) -> Option<int>
    decreases items.len(),
{
    if items.len() == 0 {
        None
    } else if items.first().name == name {
        Some(0)
    } else {
        match first_item_index(items.skip(1), name) {
            Some(i) => Some(i + 1),
            None => None,
        }
    }
}

/// What `first_item_index` returns is the first matching index.
pub proof fn lemma_first_item_index_props(items: Seq<ItemModel>, name: Seq<char>)
    ensures
        match first_item_index(items, name) {
            Some(i) => {
                &&& 0 <= i < items.len()
                &&& items[i].name == name
                &&& forall|j: int| 0 <= j < i ==> (#[trigger] items[j]).name != name
            },
            None => forall|j: int| 0 <= j < items.len() ==> (#[trigger] items[j]).name != name,
        },
    decreases items.len(),
{
    if items.len() > 0 && items.first().name != name {
        lemma_first_item_index_props(items.skip(1), name);
        match first_item_index(items.skip(1), name) {
            Some(i) => {
                assert(items.skip(1)[i] == items[i + 1]);
                assert forall|j: int| 0 <= j < i + 1 implies (#[trigger] items[j]).name != name by {
                    if j > 0 {
                        assert(items.skip(1)[j - 1] == items[j]);
                    }
                }
            },
            None => {
                assert forall|j: int| 0 <= j < items.len() implies (#[trigger] items[j]).name
                    != name by {
                    if j > 0 {
                        assert(items.skip(1)[j - 1] == items[j]);
                    }
                }
            },
        }
    }
}

proof fn lemma_first_item_index_at(items: Seq<ItemModel>, name: Seq<char>, k: int)
    requires
        0 <= k < items.len(),
        forall|j: int| 0 <= j < k ==> (#[trigger] items[j]).name != name,
        items[k].name == name,
    ensures
        first_item_index(items, name) == Some(k),
    decreases k,
{
    if k > 0 {
        assert(forall|j: int|
            0 <= j < items.len() - 1 ==> (#[trigger] items.skip(1)[j]) == items[j + 1]);
        lemma_first_item_index_at(items.skip(1), name, k - 1);
    }
}

proof fn lemma_first_item_index_none(items: Seq<ItemModel>, name: Seq<char>)
    requires
        forall|j: int| 0 <= j < items.len() ==> (#[trigger] items[j]).name != name,
    ensures
        first_item_index(items, name) is None,
    decreases items.len(),
{
    if items.len() > 0 {
        assert(forall|j: int|
            0 <= j < items.len() - 1 ==> (#[trigger] items.skip(1)[j]) == items[j + 1]);
        lemma_first_item_index_none(items.skip(1), name);
    }
}

} // verus!
