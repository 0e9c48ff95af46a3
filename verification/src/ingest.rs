//! Ingestion filter: turns the raw game-data document into the validated
//! champion roster, the completed-item catalog and the component records
//! the catalog references.
//!
//! Rules, in the order they are applied:
//! 1. champions whose trait list is empty are discarded (non-combat
//!    entities);
//! 2. items whose composition is empty are discarded (only completed
//!    items are kept);
//! 3. completed items are discarded when their identifier contains the
//!    character `'5'`, `'6'` or `'7'` (entries of other data
//!    generations), when their display name contains `tft_item_name`
//!    (un-localized placeholder entries), or when any composition entry
//!    contains `Tutorial`;
//! 4. the composition entries of the surviving items are collected into a
//!    deduplicated component list (first occurrence kept) and each is
//!    resolved against the full, unfiltered catalog; a component that
//!    does not resolve is a fatal ingestion error.

use vstd::prelude::*;

use crate::domain::Champion;
use crate::domain::ChampionModel;
use crate::domain::Item;
use crate::domain::ItemModel;
use crate::domain::RawChampion;
use crate::domain::RawChampionModel;
use crate::domain::RawItem;
use crate::domain::RawItemModel;
use crate::domain::norm_champion;
use crate::domain::norm_item;
use crate::text::seq_contains_char;
use crate::text::seq_contains_seq;
use crate::text::str_contains_char;
use crate::text::str_contains_str;

verus! {

// ---------------------------------------------------------------------------
// The raw document
// ---------------------------------------------------------------------------

/// One entry of the document's season-data array.  The champion list may
/// be missing when the entry has the wrong shape.
pub struct RawSetEntry {
    pub champions: Option<Vec<RawChampion>>,
}

/// The mathematical model of a [`RawSetEntry`].
#[verifier::ext_equal]
pub ghost struct RawSetEntryModel {
    pub champions: Option<Seq<RawChampionModel>>,
}

impl View for RawSetEntry {
    type V = RawSetEntryModel;

    open spec fn view(&self) -> RawSetEntryModel {
        RawSetEntryModel { champions: self.champions.deep_view() }
    }
}

impl DeepView for RawSetEntry {
    type V = RawSetEntryModel;

    open spec fn deep_view(&self) -> RawSetEntryModel {
        self.view()
    }
}

/// The raw game-data document.  A top-level key the source document
/// lacks arrives as `None`.
pub struct RawDocument {
    pub set_data: Option<Vec<RawSetEntry>>,
    pub items: Option<Vec<RawItem>>,
}

/// The mathematical model of a [`RawDocument`].
#[verifier::ext_equal]
pub ghost struct RawDocumentModel {
    pub set_data: Option<Seq<RawSetEntryModel>>,
    pub items: Option<Seq<RawItemModel>>,
}

impl View for RawDocument {
    type V = RawDocumentModel;

    open spec fn view(&self) -> RawDocumentModel {
        RawDocumentModel { set_data: self.set_data.deep_view(), items: self.items.deep_view() }
    }
}

impl DeepView for RawDocument {
    type V = RawDocumentModel;

    open spec fn deep_view(&self) -> RawDocumentModel {
        self.view()
    }
}

/// A fatal ingestion failure: the document does not have the expected
/// shape, or a collected component identifier resolves to no item.  The
/// engine does not partially degrade; the caller aborts startup.
#[derive(Debug, PartialEq, Eq, Clone)]
pub enum IngestionError {
    /// The document has no season-data array.
    MissingSetData,
    /// The selected subset index lies outside the season-data array.
    SubsetIndexOutOfRange,
    /// The selected subset entry has no champion list.
    MissingChampions,
    /// The document has no item catalog.
    MissingItems,
    /// A composition entry of a surviving item resolves to no item of
    /// the full catalog; the identifier is carried in the error.
    UnresolvedComponent(String),
}

/// What a successful ingestion yields: the playable roster, the
/// completed-item catalog, and the full records of every component the
/// catalog references (in first-occurrence order, without duplicates).
#[derive(Debug)]
pub struct Ingested {
    pub champions: Vec<Champion>,
    pub items: Vec<Item>,
    pub components: Vec<Item>,
}

// ---------------------------------------------------------------------------
// The specification pipeline
// ---------------------------------------------------------------------------

/// A champion survives ingestion exactly when its trait list is
/// non-empty.
pub open spec fn champion_kept(c: ChampionModel) -> bool {
    c.traits.len() > 0
}

/// The roster for a sequence of raw champion records: each record
/// normalized, the kept ones in document order.
pub open spec fn ingested_roster(rs: Seq<RawChampionModel>) -> Seq<ChampionModel>
    decreases rs.len(),
{
    if rs.len() == 0 {
        Seq::empty()
    } else {
        let prefix = ingested_roster(rs.drop_last());
        let c = norm_champion(rs.last());
        if champion_kept(c) {
            prefix.push(c)
        } else {
            prefix
        }
    }
}

/// The item's identifier carries a digit that tags it as belonging to
/// another data generation.
pub open spec fn item_generation_tagged(i: ItemModel) -> bool {
    ||| seq_contains_char(i.api_name, '5')
    ||| seq_contains_char(i.api_name, '6')
    ||| seq_contains_char(i.api_name, '7')
}

/// Some composition entry of the item mentions the tutorial data set.
pub open spec fn composition_mentions_tutorial(i: ItemModel) -> bool {
    exists|k: int|
        0 <= k < i.composition.len() && seq_contains_seq(#[trigger] i.composition[k], "Tutorial"@)
}

/// An item survives ingestion exactly when it is a completed item (its
/// composition is non-empty), it is not tagged as another generation's,
/// its name is not an un-localized placeholder, and no composition entry
/// mentions the tutorial data set.
pub open spec fn item_kept(i: ItemModel) -> bool {
    &&& i.composition.len() > 0
    &&& !item_generation_tagged(i)
    &&& !seq_contains_seq(i.name, "tft_item_name"@)
    &&& !composition_mentions_tutorial(i)
}

/// Every raw item record normalized, in document order.
pub open spec fn normalized_catalog(rs: Seq<RawItemModel>) -> Seq<ItemModel>
    decreases rs.len(),
{
    if rs.len() == 0 {
        Seq::empty()
    } else {
        normalized_catalog(rs.drop_last()).push(norm_item(rs.last()))
    }
}

/// The completed-item catalog: the kept items, in document order.
pub open spec fn completed_catalog(s: Seq<ItemModel>) -> Seq<ItemModel>
    decreases s.len(),
{
    if s.len() == 0 {
        Seq::empty()
    } else {
        let prefix = completed_catalog(s.drop_last());
        if item_kept(s.last()) {
            prefix.push(s.last())
        } else {
            prefix
        }
    }
}

/// All composition entries of the catalog's items, concatenated in
/// document order.
pub open spec fn composition_ids(s: Seq<ItemModel>) -> Seq<Seq<char>>
    decreases s.len(),
{
    if s.len() == 0 {
        Seq::empty()
    } else {
        composition_ids(s.drop_last()) + s.last().composition
    }
}

/// Removes duplicates, keeping the first occurrence of each identifier.
pub open spec fn dedup_ids(ids: Seq<Seq<char>>) -> Seq<Seq<char>>
    decreases ids.len(),
{
    if ids.len() == 0 {
        Seq::empty()
    } else {
        let prefix = dedup_ids(ids.drop_last());
        if prefix.contains(ids.last()) {
            prefix
        } else {
            prefix.push(ids.last())
        }
    }
}

/// The first item of the catalog whose identifier is `id`, if any.
pub open spec fn find_item(catalog: Seq<ItemModel>, id: Seq<char>) -> Option<ItemModel>
    decreases catalog.len(),
{
    if catalog.len() == 0 {
        None
    } else if catalog.first().api_name == id {
        Some(catalog.first())
    } else {
        find_item(catalog.skip(1), id)
    }
}

/// The first identifier of `ids` that resolves to no item of the
/// catalog, if any.
pub open spec fn first_unresolved(ids: Seq<Seq<char>>, catalog: Seq<ItemModel>) -> Option<
    Seq<char>,
>
    decreases ids.len(),
{
    if ids.len() == 0 {
        None
    } else if find_item(catalog, ids.first()) is None {
        Some(ids.first())
    } else {
        first_unresolved(ids.skip(1), catalog)
    }
}

/// The full records the identifiers resolve to, in order; identifiers
/// that do not resolve contribute nothing.
pub open spec fn resolved_components(ids: Seq<Seq<char>>, catalog: Seq<ItemModel>) -> Seq<
    ItemModel,
>
    decreases ids.len(),
{
    if ids.len() == 0 {
        Seq::empty()
    } else {
        let prefix = resolved_components(ids.drop_last(), catalog);
        match find_item(catalog, ids.last()) {
            Some(it) => prefix.push(it),
            None => prefix,
        }
    }
}

// ---------------------------------------------------------------------------
// Supporting executable searches
// ---------------------------------------------------------------------------

/// Whether `v` holds a string equal to `s`.
fn vec_contains_string(v: &Vec<String>, s: &String) -> (r: bool)
    ensures
        r == v.deep_view().contains(s@),
{
    let n = v.len();
    let mut i: usize = 0;
    while i < n
        invariant
            n == v.len(),
            0 <= i <= n,
            forall|j: int| 0 <= j < i ==> v.deep_view()[j] != s@,
        decreases n - i,
    {
        if v[i] == *s {
            proof {
                assert(v.deep_view()[i as int] == s@);
            }
            return true;
        }
        i = i + 1;
    }
    false
}

proof fn lemma_find_item_at(catalog: Seq<ItemModel>, id: Seq<char>, k: int)
    requires
        0 <= k < catalog.len(),
        forall|j: int| 0 <= j < k ==> (#[trigger] catalog[j]).api_name != id,
        catalog[k].api_name == id,
    ensures
        find_item(catalog, id) == Some(catalog[k]),
    decreases k,
{
    if k > 0 {
        assert(forall|j: int|
            0 <= j < k - 1 ==> (#[trigger] catalog.skip(1)[j]) == catalog[j + 1]);
        lemma_find_item_at(catalog.skip(1), id, k - 1);
    }
}

proof fn lemma_find_item_none(catalog: Seq<ItemModel>, id: Seq<char>)
    requires
        forall|j: int| 0 <= j < catalog.len() ==> (#[trigger] catalog[j]).api_name != id,
    ensures
        find_item(catalog, id) is None,
    decreases catalog.len(),
{
    if catalog.len() > 0 {
        assert(forall|j: int|
            0 <= j < catalog.len() - 1 ==> (#[trigger] catalog.skip(1)[j]) == catalog[j + 1]);
        lemma_find_item_none(catalog.skip(1), id);
    }
}

/// The first item of the catalog with the given identifier, cloned.
fn find_item_exec(catalog: &Vec<Item>, id: &String) -> (r: Option<Item>)
    ensures
        r.deep_view() == find_item(catalog.deep_view(), id@),
{
    let n = catalog.len();
    let mut i: usize = 0;
    while i < n
        invariant
            n == catalog.len(),
            0 <= i <= n,
            forall|j: int| 0 <= j < i ==> (#[trigger] catalog.deep_view()[j]).api_name != id@,
        decreases n - i,
    {
        if catalog[i].api_name == *id {
            let it = catalog[i].clone();
            proof {
                lemma_find_item_at(catalog.deep_view(), id@, i as int);
            }
            return Some(it);
        }
        i = i + 1;
    }
    proof {
        lemma_find_item_none(catalog.deep_view(), id@);
    }
    None
}

proof fn lemma_first_unresolved_none(ids: Seq<Seq<char>>, catalog: Seq<ItemModel>)
    requires
        forall|j: int| 0 <= j < ids.len() ==> find_item(catalog, #[trigger] ids[j]) is Some,
    ensures
        first_unresolved(ids, catalog) is None,
    decreases ids.len(),
{
    if ids.len() > 0 {
        assert(forall|j: int| 0 <= j < ids.len() - 1 ==> (#[trigger] ids.skip(1)[j]) == ids[j + 1]);
        lemma_first_unresolved_none(ids.skip(1), catalog);
    }
}

proof fn lemma_first_unresolved_at(ids: Seq<Seq<char>>, catalog: Seq<ItemModel>, k: int)
    requires
        0 <= k < ids.len(),
        forall|j: int| 0 <= j < k ==> find_item(catalog, #[trigger] ids[j]) is Some,
        find_item(catalog, ids[k]) is None,
    ensures
        first_unresolved(ids, catalog) == Some(ids[k]),
    decreases k,
{
    if k > 0 {
        assert(forall|j: int| 0 <= j < ids.len() - 1 ==> (#[trigger] ids.skip(1)[j]) == ids[j + 1]);
        lemma_first_unresolved_at(ids.skip(1), catalog, k - 1);
    }
}

// ---------------------------------------------------------------------------
// Ingestion
// ---------------------------------------------------------------------------

/// Runs the ingestion filter on a raw document, selecting the season
/// subset at `subset_index`.
///
/// On success the roster, the completed-item catalog and the resolved
/// component records are exactly the specification pipeline's; each
/// error comes exactly on the inputs its doc comment names, checked in
/// the order: season data present, index in range, champion list
/// present, item catalog present, every component resolves.
#[verifier::loop_isolation(false)]
pub fn ingest(doc: &RawDocument, subset_index: usize) -> (r: Result<Ingested, IngestionError>)
    ensures
        ({
            let dv = doc@;
            match r {
                Ok(ing) => {
                    &&& dv.set_data is Some
                    &&& subset_index < dv.set_data->Some_0.len()
                    &&& dv.set_data->Some_0[subset_index as int].champions is Some
                    &&& dv.items is Some
                    &&& ing.champions.deep_view() == ingested_roster(
                        dv.set_data->Some_0[subset_index as int].champions->Some_0,
                    )
                    &&& ing.items.deep_view() == completed_catalog(
                        normalized_catalog(dv.items->Some_0),
                    )
                    &&& first_unresolved(
                        dedup_ids(composition_ids(ing.items.deep_view())),
                        normalized_catalog(dv.items->Some_0),
                    ) is None
                    &&& ing.components.deep_view() == resolved_components(
                        dedup_ids(composition_ids(ing.items.deep_view())),
                        normalized_catalog(dv.items->Some_0),
                    )
                },
                Err(IngestionError::MissingSetData) => dv.set_data is None,
                Err(IngestionError::SubsetIndexOutOfRange) => {
                    &&& dv.set_data is Some
                    &&& subset_index >= dv.set_data->Some_0.len()
                },
                Err(IngestionError::MissingChampions) => {
                    &&& dv.set_data is Some
                    &&& subset_index < dv.set_data->Some_0.len()
                    &&& dv.set_data->Some_0[subset_index as int].champions is None
                },
                Err(IngestionError::MissingItems) => {
                    &&& dv.set_data is Some
                    &&& subset_index < dv.set_data->Some_0.len()
                    &&& dv.set_data->Some_0[subset_index as int].champions is Some
                    &&& dv.items is None
                },
                Err(IngestionError::UnresolvedComponent(id)) => {
                    &&& dv.set_data is Some
                    &&& subset_index < dv.set_data->Some_0.len()
                    &&& dv.set_data->Some_0[subset_index as int].champions is Some
                    &&& dv.items is Some
                    &&& first_unresolved(
                        dedup_ids(
                            composition_ids(
                                completed_catalog(normalized_catalog(dv.items->Some_0)),
                            ),
                        ),
                        normalized_catalog(dv.items->Some_0),
                    ) == Some(id@)
                },
            }
        }),
{
    let set_data = match &doc.set_data {
        Some(sd) => sd,
        None => {
            return Err(IngestionError::MissingSetData);
        },
    };
    if subset_index >= set_data.len() {
        return Err(IngestionError::SubsetIndexOutOfRange);
    }
    let raw_champs = match &set_data[subset_index].champions {
        Some(c) => c,
        None => {
            return Err(IngestionError::MissingChampions);
        },
    };
    let raw_items = match &doc.items {
        Some(it) => it,
        None => {
            return Err(IngestionError::MissingItems);
        },
    };

    // The roster: normalized champion records with a non-empty trait list.
    let mut champions: Vec<Champion> = Vec::new();
    let ghost rcm = raw_champs.deep_view();
    let n_champs = raw_champs.len();
    let mut i: usize = 0;
    while i < n_champs
        invariant
            n_champs == raw_champs.len(),
            rcm == raw_champs.deep_view(),
            0 <= i <= n_champs,
            champions.deep_view() == ingested_roster(rcm.subrange(0, i as int)),
        decreases n_champs - i,
    {
        let c = Champion::from_raw(&raw_champs[i]);
        proof {
            assert(rcm.subrange(0, i + 1).drop_last() =~= rcm.subrange(0, i as int));
            assert(rcm.subrange(0, i + 1).last() == rcm[i as int]);
            assert(c@.traits.len() == c.traits.deep_view().len());
        }
        if c.traits.len() > 0 {
            champions.push(c);
            proof {
                assert(champions.deep_view() =~= ingested_roster(rcm.subrange(0, i + 1)));
            }
        } else {
            proof {
                assert(champions.deep_view() == ingested_roster(rcm.subrange(0, i + 1)));
            }
        }
        i = i + 1;
    }
    proof {
        assert(rcm.subrange(0, n_champs as int) =~= rcm);
    }

    // The full normalized catalog, needed to resolve components.
    let mut full: Vec<Item> = Vec::new();
    let ghost rim = raw_items.deep_view();
    let n_items = raw_items.len();
    let mut i: usize = 0;
    while i < n_items
        invariant
            n_items == raw_items.len(),
            rim == raw_items.deep_view(),
            0 <= i <= n_items,
            full.deep_view() == normalized_catalog(rim.subrange(0, i as int)),
        decreases n_items - i,
    {
        let it = Item::from_raw(&raw_items[i]);
        full.push(it);
        proof {
            assert(rim.subrange(0, i + 1).drop_last() =~= rim.subrange(0, i as int));
            assert(rim.subrange(0, i + 1).last() == rim[i as int]);
            assert(full.deep_view() =~= normalized_catalog(rim.subrange(0, i + 1)));
        }
        i = i + 1;
    }
    proof {
        assert(rim.subrange(0, n_items as int) =~= rim);
    }
    let ghost fullm = full.deep_view();

    // The completed-item catalog.
    let mut items: Vec<Item> = Vec::new();
    let n_full = full.len();
    let mut i: usize = 0;
    while i < n_full
        invariant
            n_full == full.len(),
            fullm == full.deep_view(),
            0 <= i <= n_full,
            items.deep_view() == completed_catalog(fullm.subrange(0, i as int)),
        decreases n_full - i,
    {
        proof {
            assert(fullm.subrange(0, i + 1).drop_last() =~= fullm.subrange(0, i as int));
            assert(fullm.subrange(0, i + 1).last() == fullm[i as int]);
        }
        if item_kept_exec(&full[i]) {
            let it = full[i].clone();
            items.push(it);
            proof {
                assert(items.deep_view() =~= completed_catalog(fullm.subrange(0, i + 1)));
            }
        }
        i = i + 1;
    }
    proof {
        assert(fullm.subrange(0, n_full as int) =~= fullm);
    }
    let ghost catm = items.deep_view();

    // The distinct component identifiers, first occurrence kept.
    let mut ids: Vec<String> = Vec::new();
    let n_cat = items.len();
    let mut i: usize = 0;
    while i < n_cat
        invariant
            n_cat == items.len(),
            catm == items.deep_view(),
            0 <= i <= n_cat,
            ids.deep_view() == dedup_ids(composition_ids(catm.subrange(0, i as int))),
        decreases n_cat - i,
    {
        let comp = &items[i].composition;
        let ghost compm = comp.deep_view();
        let n_comp = comp.len();
        let mut k: usize = 0;
        while k < n_comp
            invariant
                n_comp == comp.len(),
                compm == comp.deep_view(),
                compm == catm[i as int].composition,
                0 <= i < n_cat,
                n_cat == items.len(),
                catm == items.deep_view(),
                0 <= k <= n_comp,
                ids.deep_view() == dedup_ids(
                    composition_ids(catm.subrange(0, i as int)) + compm.subrange(0, k as int),
                ),
            decreases n_comp - k,
        {
            let ghost before = composition_ids(catm.subrange(0, i as int)) + compm.subrange(
                0,
                k as int,
            );
            let ghost after = composition_ids(catm.subrange(0, i as int)) + compm.subrange(
                0,
                k + 1,
            );
            proof {
                assert(after.drop_last() =~= before);
                assert(after.last() == compm[k as int]);
            }
            if !vec_contains_string(&ids, &comp[k]) {
                let entry = comp[k].clone();
                ids.push(entry);
                proof {
                    assert(ids.deep_view() =~= dedup_ids(after));
                }
            } else {
                proof {
                    assert(ids.deep_view() == dedup_ids(after));
                }
            }
            k = k + 1;
        }
        proof {
            assert(compm.subrange(0, n_comp as int) =~= compm);
            assert(catm.subrange(0, i + 1).drop_last() =~= catm.subrange(0, i as int));
            assert(catm.subrange(0, i + 1).last() == catm[i as int]);
            assert(composition_ids(catm.subrange(0, i + 1)) =~= composition_ids(
                catm.subrange(0, i as int),
            ) + compm);
        }
        i = i + 1;
    }
    proof {
        assert(catm.subrange(0, n_cat as int) =~= catm);
    }
    let ghost idsm = ids.deep_view();

    // Resolve every identifier against the full catalog.
    let mut components: Vec<Item> = Vec::new();
    let n_ids = ids.len();
    let mut i: usize = 0;
    while i < n_ids
        invariant
            n_ids == ids.len(),
            idsm == ids.deep_view(),
            fullm == full.deep_view(),
            0 <= i <= n_ids,
            forall|j: int| 0 <= j < i ==> find_item(fullm, #[trigger] idsm[j]) is Some,
            components.deep_view() == resolved_components(idsm.subrange(0, i as int), fullm),
        decreases n_ids - i,
    {
        proof {
            assert(idsm.subrange(0, i + 1).drop_last() =~= idsm.subrange(0, i as int));
            assert(idsm.subrange(0, i + 1).last() == idsm[i as int]);
        }
        match find_item_exec(&full, &ids[i]) {
            Some(it) => {
                components.push(it);
                proof {
                    assert(components.deep_view() =~= resolved_components(
                        idsm.subrange(0, i + 1),
                        fullm,
                    ));
                }
            },
            None => {
                let id = ids[i].clone();
                proof {
                    lemma_first_unresolved_at(idsm, fullm, i as int);
                }
                return Err(IngestionError::UnresolvedComponent(id));
            },
        }
        i = i + 1;
    }
    proof {
        assert(idsm.subrange(0, n_ids as int) =~= idsm);
        lemma_first_unresolved_none(idsm, fullm);
    }

    Ok(Ingested { champions, items, components })
}

/// Whether a normalized item survives the catalog filter.
fn item_kept_exec(item: &Item) -> (r: bool)
    ensures
        r == item_kept(item@),
{
    if item.composition.len() == 0 {
        return false;
    }
    if str_contains_char(item.api_name.as_str(), '5') {
        return false;
    }
    if str_contains_char(item.api_name.as_str(), '6') {
        return false;
    }
    if str_contains_char(item.api_name.as_str(), '7') {
        return false;
    }
    if str_contains_str(item.name.as_str(), "tft_item_name") {
        return false;
    }
    let n = item.composition.len();
    let mut k: usize = 0;
    while k < n
        invariant
            n == item.composition.len(),
            0 <= k <= n,
            forall|j: int|
                0 <= j < k ==> !seq_contains_seq(
                    #[trigger] item.composition.deep_view()[j],
                    "Tutorial"@,
                ),
            item@.composition.len() > 0,
            !item_generation_tagged(item@),
            !seq_contains_seq(item@.name, "tft_item_name"@),
        decreases n - k,
    {
        if str_contains_str(item.composition[k].as_str(), "Tutorial") {
            proof {
                assert(seq_contains_seq(item@.composition[k as int], "Tutorial"@));
            }
            return false;
        }
        k = k + 1;
    }
    true
}

// ---------------------------------------------------------------------------
// Laws of the ingestion filter
// ---------------------------------------------------------------------------

/// Champions with an empty trait list never appear in the ingested
/// roster, for any document.
pub proof fn lemma_roster_traits_nonempty(rs: Seq<RawChampionModel>)
    ensures
        forall|i: int|
            0 <= i < ingested_roster(rs).len() ==> (#[trigger] ingested_roster(rs)[i]).traits.len()
                > 0,
    decreases rs.len(),
{
    if rs.len() > 0 {
        lemma_roster_traits_nonempty(rs.drop_last());
        let prefix = ingested_roster(rs.drop_last());
        let r = ingested_roster(rs);
        assert forall|i: int| 0 <= i < r.len() implies (#[trigger] r[i]).traits.len() > 0 by {
            if i < prefix.len() {
                assert(r[i] == prefix[i]);
            }
        }
    }
}

/// Every member of the completed-item catalog passes the item filter;
/// in particular only items with a non-empty composition appear in it.
pub proof fn lemma_catalog_items_kept(s: Seq<ItemModel>)
    ensures
        forall|i: int|
            0 <= i < completed_catalog(s).len() ==> item_kept(#[trigger] completed_catalog(s)[i]),
    decreases s.len(),
{
    if s.len() > 0 {
        lemma_catalog_items_kept(s.drop_last());
        let prefix = completed_catalog(s.drop_last());
        let r = completed_catalog(s);
        assert forall|i: int| 0 <= i < r.len() implies item_kept(#[trigger] r[i]) by {
            if i < prefix.len() {
                assert(r[i] == prefix[i]);
            }
        }
    }
}

/// Only items with a non-empty composition appear in the completed-item
/// catalog, for any document.
pub proof fn lemma_catalog_completed(s: Seq<ItemModel>)
    ensures
        forall|i: int|
            0 <= i < completed_catalog(s).len() ==> (#[trigger] completed_catalog(
                s,
            )[i]).composition.len() > 0,
{
    lemma_catalog_items_kept(s);
}

/// No completed item of the catalog carries a generation tag (`'5'`,
/// `'6'` or `'7'`) in its identifier, and no surviving item has a name
/// containing `tft_item_name`.
pub proof fn lemma_catalog_untagged(s: Seq<ItemModel>)
    ensures
        forall|i: int|
            0 <= i < completed_catalog(s).len() ==> !item_generation_tagged(
                #[trigger] completed_catalog(s)[i],
            ),
        forall|i: int|
            0 <= i < completed_catalog(s).len() ==> !seq_contains_seq(
                (#[trigger] completed_catalog(s)[i]).name,
                "tft_item_name"@,
            ),
{
    lemma_catalog_items_kept(s);
}

/// Deduplication neither invents nor loses identifiers: an identifier is
/// in the deduplicated list exactly when it is in the original one.
pub proof fn lemma_dedup_same_members(ids: Seq<Seq<char>>, id: Seq<char>)
    ensures
        dedup_ids(ids).contains(id) == ids.contains(id),
    decreases ids.len(),
{
    if ids.len() > 0 {
        lemma_dedup_same_members(ids.drop_last(), id);
        let last = ids.last();
        let prefix = dedup_ids(ids.drop_last());
        if ids.contains(id) {
            let j = choose|j: int| 0 <= j < ids.len() && ids[j] == id;
            if j < ids.len() - 1 {
                assert(ids.drop_last()[j] == id);
                assert(ids.drop_last().contains(id));
                let k = choose|k: int| 0 <= k < prefix.len() && prefix[k] == id;
                if prefix.contains(last) {
                    assert(dedup_ids(ids)[k] == id);
                } else {
                    assert(dedup_ids(ids)[k] == id);
                }
            } else {
                if prefix.contains(last) {
                    let k = choose|k: int| 0 <= k < prefix.len() && prefix[k] == last;
                    assert(dedup_ids(ids)[k] == id);
                } else {
                    assert(dedup_ids(ids)[prefix.len() as int] == id);
                }
            }
            assert(dedup_ids(ids).contains(id));
        }
        if dedup_ids(ids).contains(id) {
            let j = choose|j: int| 0 <= j < dedup_ids(ids).len() && dedup_ids(ids)[j] == id;
            if prefix.contains(last) {
                assert(prefix[j] == id);
            } else {
                if j < prefix.len() {
                    assert(prefix[j] == id);
                } else {
                    assert(id == last);
                    assert(ids[ids.len() - 1] == id);
                }
            }
            if prefix.contains(id) {
                let k = choose|k: int| 0 <= k < ids.drop_last().len() && ids.drop_last()[k] == id;
                assert(ids[k] == id);
            }
            assert(ids.contains(id));
        }
    }
}

/// An identifier in any catalog item's composition is among the
/// collected composition identifiers.
pub proof fn lemma_composition_ids_complete(s: Seq<ItemModel>, i: int, k: int)
    requires
        0 <= i < s.len(),
        0 <= k < s[i].composition.len(),
    ensures
        composition_ids(s).contains(s[i].composition[k]),
    decreases s.len(),
{
    if i == s.len() - 1 {
        let base = composition_ids(s.drop_last());
        assert(s.last() == s[i]);
        assert(composition_ids(s)[base.len() + k] == s[i].composition[k]);
    } else {
        lemma_composition_ids_complete(s.drop_last(), i, k);
        let pre = composition_ids(s.drop_last());
        let j = choose|j: int| 0 <= j < pre.len() && pre[j] == s[i].composition[k];
        assert(s.drop_last()[i] == s[i]);
        assert(composition_ids(s)[j] == s[i].composition[k]);
    }
}

/// What `find_item` returns is an item of the catalog bearing the
/// looked-up identifier.
pub proof fn lemma_find_item_props(catalog: Seq<ItemModel>, id: Seq<char>)
    ensures
        find_item(catalog, id) matches Some(it) ==> it.api_name == id && catalog.contains(it),
    decreases catalog.len(),
{
    if catalog.len() > 0 && catalog.first().api_name != id {
        lemma_find_item_props(catalog.skip(1), id);
        if find_item(catalog.skip(1), id) is Some {
            let it = find_item(catalog.skip(1), id)->Some_0;
            let j = choose|j: int| 0 <= j < catalog.skip(1).len() && catalog.skip(1)[j] == it;
            assert(catalog[j + 1] == it);
        }
    }
}

/// When every collected identifier resolves, the component records are
/// in one-to-one correspondence with the identifiers: the record at each
/// position is what the identifier at that position resolves to.
pub proof fn lemma_resolved_components_correspond(ids: Seq<Seq<char>>, catalog: Seq<ItemModel>)
    requires
        forall|j: int| 0 <= j < ids.len() ==> find_item(catalog, #[trigger] ids[j]) is Some,
    ensures
        resolved_components(ids, catalog).len() == ids.len(),
        forall|j: int|
            0 <= j < ids.len() ==> find_item(catalog, #[trigger] ids[j]) == Some(
                resolved_components(ids, catalog)[j],
            ),
    decreases ids.len(),
{
    if ids.len() > 0 {
        let d = ids.drop_last();
        assert forall|j: int| 0 <= j < d.len() implies find_item(catalog, #[trigger] d[j])
            is Some by {
            assert(d[j] == ids[j]);
            assert(find_item(catalog, ids[j]) is Some);
        }
        lemma_resolved_components_correspond(d, catalog);
        let rd = resolved_components(d, catalog);
        assert(ids[ids.len() - 1] == ids.last());
        assert(find_item(catalog, ids.last()) is Some);
        let it = find_item(catalog, ids.last())->Some_0;
        let r = resolved_components(ids, catalog);
        assert(r == rd.push(it));
        assert forall|j: int| 0 <= j < ids.len() implies find_item(catalog, #[trigger] ids[j])
            == Some(r[j]) by {
            if j < ids.len() - 1 {
                assert(d[j] == ids[j]);
                assert(find_item(catalog, d[j]) == Some(rd[j]));
                assert(r[j] == rd[j]);
            } else {
                assert(r[j] == it);
            }
        }
    }
}

/// When no collected identifier is unresolved, every identifier of the
/// list resolves.
pub proof fn lemma_none_unresolved_all_resolve(ids: Seq<Seq<char>>, catalog: Seq<ItemModel>)
    requires
        first_unresolved(ids, catalog) is None,
    ensures
        forall|j: int| 0 <= j < ids.len() ==> find_item(catalog, #[trigger] ids[j]) is Some,
    decreases ids.len(),
{
    if ids.len() > 0 {
        lemma_none_unresolved_all_resolve(ids.skip(1), catalog);
        assert forall|j: int| 0 <= j < ids.len() implies find_item(catalog, #[trigger] ids[j])
            is Some by {
            if j > 0 {
                assert(ids.skip(1)[j - 1] == ids[j]);
            }
        }
    }
}

/// Every identifier in any surviving item's composition resolves to an
/// item of the full, unfiltered catalog, whenever ingestion succeeded
/// (no collected identifier was unresolved).
pub proof fn lemma_catalog_ids_resolve(full: Seq<ItemModel>, i: int, k: int)
    requires
        first_unresolved(dedup_ids(composition_ids(completed_catalog(full))), full) is None,
        0 <= i < completed_catalog(full).len(),
        0 <= k < completed_catalog(full)[i].composition.len(),
    ensures
        find_item(full, completed_catalog(full)[i].composition[k]) is Some,
{
    let cat = completed_catalog(full);
    let id = cat[i].composition[k];
    lemma_composition_ids_complete(cat, i, k);
    lemma_dedup_same_members(composition_ids(cat), id);
    let ids = dedup_ids(composition_ids(cat));
    lemma_none_unresolved_all_resolve(ids, full);
    let j = choose|j: int| 0 <= j < ids.len() && ids[j] == id;
    assert(find_item(full, ids[j]) is Some);
}

} // verus!
