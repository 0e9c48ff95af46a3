//! Domain model: items and champions, together with the normalization
//! rules that turn raw document records (whose optional fields may be
//! absent or null in the source document) into fully populated values.

use vstd::prelude::*;
use vstd::string::StringExecFns;

verus! {

// ---------------------------------------------------------------------------
// Items
// ---------------------------------------------------------------------------

/// A game item.  An item with a non-empty `composition` is a *completed*
/// item, built out of the components the list names; an item with an empty
/// `composition` that is referenced by some completed item's composition
/// is a *component*.
///
/// `effects` is an opaque structured payload: it is carried through the
/// engine verbatim and never interpreted.  `icon` is an asset path
/// reference resolved by an external image cache; an empty path stands
/// for the placeholder icon.
#[derive(Debug, PartialEq, Eq)]
pub struct Item {
    pub api_name: String,
    pub name: String,
    pub desc: String,
    pub composition: Vec<String>,
    pub associated_traits: Vec<String>,
    pub incompatible_traits: Vec<String>,
    pub unique: bool,
    pub effects: String,
    pub icon: String,
}

/// The mathematical model of an [`Item`]: every field as a sequence of
/// characters or a plain value.
#[verifier::ext_equal]
pub ghost struct ItemModel {
    pub api_name: Seq<char>,
    pub name: Seq<char>,
    pub desc: Seq<char>,
    pub composition: Seq<Seq<char>>,
    pub associated_traits: Seq<Seq<char>>,
    pub incompatible_traits: Seq<Seq<char>>,
    pub unique: bool,
    pub effects: Seq<char>,
    pub icon: Seq<char>,
}

impl View for Item {
    type V = ItemModel;

    open spec fn view(&self) -> ItemModel {
        ItemModel {
            api_name: self.api_name@,
            name: self.name@,
            desc: self.desc@,
            composition: self.composition.deep_view(),
            associated_traits: self.associated_traits.deep_view(),
            incompatible_traits: self.incompatible_traits.deep_view(),
            unique: self.unique,
            effects: self.effects@,
            icon: self.icon@,
        }
    }
}

impl DeepView for Item {
    type V = ItemModel;

    open spec fn deep_view(&self) -> ItemModel {
        self.view()
    }
}

impl Clone for Item {
    fn clone(&self) -> (r: Self)
        ensures
            r@ == self@,
    {
        let r = Item {
            api_name: self.api_name.clone(),
            name: self.name.clone(),
            desc: self.desc.clone(),
            composition: self.composition.clone(),
            associated_traits: self.associated_traits.clone(),
            incompatible_traits: self.incompatible_traits.clone(),
            unique: self.unique,
            effects: self.effects.clone(),
            icon: self.icon.clone(),
        };
        proof {
            assert(r.composition.deep_view() =~= self.composition.deep_view());
            assert(r.associated_traits.deep_view() =~= self.associated_traits.deep_view());
            assert(r.incompatible_traits.deep_view() =~= self.incompatible_traits.deep_view());
            assert(r@ =~= self@);
        }
        r
    }
}

/// A raw item record as it stands in the game-data document: the fields
/// that the source may leave null arrive as `None`.
#[derive(Debug, PartialEq, Eq, Clone)]
pub struct RawItem {
    pub api_name: String,
    pub name: Option<String>,
    pub desc: Option<String>,
    pub composition: Vec<String>,
    pub associated_traits: Vec<String>,
    pub incompatible_traits: Vec<String>,
    pub unique: bool,
    pub effects: String,
    pub icon: Option<String>,
}

/// The mathematical model of a [`RawItem`].
#[verifier::ext_equal]
pub ghost struct RawItemModel {
    pub api_name: Seq<char>,
    pub name: Option<Seq<char>>,
    pub desc: Option<Seq<char>>,
    pub composition: Seq<Seq<char>>,
    pub associated_traits: Seq<Seq<char>>,
    pub incompatible_traits: Seq<Seq<char>>,
    pub unique: bool,
    pub effects: Seq<char>,
    pub icon: Option<Seq<char>>,
}

impl View for RawItem {
    type V = RawItemModel;

    open spec fn view(&self) -> RawItemModel {
        RawItemModel {
            api_name: self.api_name@,
            name: self.name.deep_view(),
            desc: self.desc.deep_view(),
            composition: self.composition.deep_view(),
            associated_traits: self.associated_traits.deep_view(),
            incompatible_traits: self.incompatible_traits.deep_view(),
            unique: self.unique,
            effects: self.effects@,
            icon: self.icon.deep_view(),
        }
    }
}

impl DeepView for RawItem {
    type V = RawItemModel;

    open spec fn deep_view(&self) -> RawItemModel {
        self.view()
    }
}

/// An absent or null text field normalizes to the empty string.
pub open spec fn norm_text(t: Option<Seq<char>>) -> Seq<char> {
    match t {
        Some(s) => s,
        None => Seq::empty(),
    }
}

/// Normalization of a raw item record: nullable text fields default to
/// the empty string, everything else is kept as it stands.
pub open spec fn norm_item(r: RawItemModel) -> ItemModel {
    ItemModel {
        api_name: r.api_name,
        name: norm_text(r.name),
        desc: norm_text(r.desc),
        composition: r.composition,
        associated_traits: r.associated_traits,
        incompatible_traits: r.incompatible_traits,
        unique: r.unique,
        effects: r.effects,
        icon: norm_text(r.icon),
    }
}

/// Fills a nullable text field with its default.
fn norm_text_exec(t: &Option<String>) -> (r: String)
    ensures
        r@ == norm_text(t.deep_view()),
{
    match t {
        Some(s) => s.clone(),
        None => String::new(),
    }
}

impl Item {
    /// Builds the normalized item for a raw document record.
    pub fn from_raw(raw: &RawItem) -> (r: Item)
        ensures
            r@ == norm_item(raw@),
    {
        let ghost m = raw@;
        let r = Item {
            api_name: raw.api_name.clone(),
            name: norm_text_exec(&raw.name),
            desc: norm_text_exec(&raw.desc),
            composition: raw.composition.clone(),
            associated_traits: raw.associated_traits.clone(),
            incompatible_traits: raw.incompatible_traits.clone(),
            unique: raw.unique,
            effects: raw.effects.clone(),
            icon: norm_text_exec(&raw.icon),
        };
        proof {
            assert(r.composition.deep_view() =~= raw.composition.deep_view());
            assert(r.associated_traits.deep_view() =~= raw.associated_traits.deep_view());
            assert(r.incompatible_traits.deep_view() =~= raw.incompatible_traits.deep_view());
            assert(r@ =~= norm_item(m));
        }
        r
    }
}

impl Item {
    /// The item's display name, as the interface shows it.
    pub fn display_name(&self) -> (r: String)
        ensures
            r@ == self@.name,
    {
        self.name.clone()
    }
}

/// An item list as the interface labels it: the display names joined by
/// a comma and a space, or `no items` for an empty list.
pub struct ItemsDisplay(pub Vec<Item>);

/// The joined display names of a non-empty item list.
pub open spec fn joined_names(items: Seq<ItemModel>) -> Seq<char>
    decreases items.len(),
{
    if items.len() == 0 {
        Seq::empty()
    } else if items.len() == 1 {
        items[0].name
    } else {
        joined_names(items.drop_last()) + ", "@ + items.last().name
    }
}

/// What an item list's label reads: `no items` when empty, the joined
/// display names otherwise.
pub open spec fn items_label(items: Seq<ItemModel>) -> Seq<char> {
    if items.len() == 0 {
        "no items"@
    } else {
        joined_names(items)
    }
}

impl ItemsDisplay {
    /// Renders the label.
    #[verifier::loop_isolation(false)]
    pub fn label(&self) -> (r: String)
        ensures
            r@ == items_label(self.0.deep_view()),
    {
        let ghost im = self.0.deep_view();
        let n = self.0.len();
        if n == 0 {
            let r = String::from_str("no items");
            return r;
        }
        let mut s = self.0[0].name.clone();
        proof {
            assert(im.subrange(0, 1).len() == 1);
            assert(im.subrange(0, 1)[0] == im[0]);
            assert(s@ == joined_names(im.subrange(0, 1)));
        }
        let mut i: usize = 1;
        while i < n
            invariant
                1 <= i <= n,
                s@ == joined_names(im.subrange(0, i as int)),
            decreases n - i,
        {
            s.append(", ");
            s.append(self.0[i].name.as_str());
            proof {
                assert(im.subrange(0, i + 1).drop_last() =~= im.subrange(0, i as int));
                assert(im.subrange(0, i + 1).last() == im[i as int]);
                assert(s@ == joined_names(im.subrange(0, i + 1)));
            }
            i = i + 1;
        }
        proof {
            assert(im.subrange(0, n as int) =~= im);
        }
        s
    }
}

// ---------------------------------------------------------------------------
// Champions
// ---------------------------------------------------------------------------

/// A champion ability: a named, described effect with an icon reference.
#[derive(Debug, PartialEq, Eq)]
pub struct Ability {
    pub name: String,
    pub desc: String,
    pub icon: String,
}

/// The mathematical model of an [`Ability`].
#[verifier::ext_equal]
pub ghost struct AbilityModel {
    pub name: Seq<char>,
    pub desc: Seq<char>,
    pub icon: Seq<char>,
}

impl View for Ability {
    type V = AbilityModel;

    open spec fn view(&self) -> AbilityModel {
        AbilityModel { name: self.name@, desc: self.desc@, icon: self.icon@ }
    }
}

impl DeepView for Ability {
    type V = AbilityModel;

    open spec fn deep_view(&self) -> AbilityModel {
        self.view()
    }
}

impl Clone for Ability {
    fn clone(&self) -> (r: Self)
        ensures
            r@ == self@,
    {
        Ability { name: self.name.clone(), desc: self.desc.clone(), icon: self.icon.clone() }
    }
}

/// A playable champion.  The roster never holds a champion whose `traits`
/// list is empty: such records stand for non-combat entities and are
/// discarded during ingestion.
#[derive(Debug, PartialEq, Eq)]
pub struct Champion {
    pub api_name: String,
    pub name: String,
    pub cost: u8,
    pub traits: Vec<String>,
    pub icon: String,
    pub ability: Ability,
}

/// The mathematical model of a [`Champion`].
#[verifier::ext_equal]
pub ghost struct ChampionModel {
    pub api_name: Seq<char>,
    pub name: Seq<char>,
    pub cost: u8,
    pub traits: Seq<Seq<char>>,
    pub icon: Seq<char>,
    pub ability: AbilityModel,
}

impl View for Champion {
    type V = ChampionModel;

    open spec fn view(&self) -> ChampionModel {
        ChampionModel {
            api_name: self.api_name@,
            name: self.name@,
            cost: self.cost,
            traits: self.traits.deep_view(),
            icon: self.icon@,
            ability: self.ability@,
        }
    }
}

impl DeepView for Champion {
    type V = ChampionModel;

    open spec fn deep_view(&self) -> ChampionModel {
        self.view()
    }
}

impl Clone for Champion {
    fn clone(&self) -> (r: Self)
        ensures
            r@ == self@,
    {
        let r = Champion {
            api_name: self.api_name.clone(),
            name: self.name.clone(),
            cost: self.cost,
            traits: self.traits.clone(),
            icon: self.icon.clone(),
            ability: self.ability.clone(),
        };
        proof {
            assert(r.traits.deep_view() =~= self.traits.deep_view());
            assert(r@ =~= self@);
        }
        r
    }
}

/// A raw ability record as it stands in the document.
#[derive(Debug, PartialEq, Eq, Clone)]
pub struct RawAbility {
    pub name: Option<String>,
    pub desc: Option<String>,
    pub icon: Option<String>,
}

/// The mathematical model of a [`RawAbility`].
#[verifier::ext_equal]
pub ghost struct RawAbilityModel {
    pub name: Option<Seq<char>>,
    pub desc: Option<Seq<char>>,
    pub icon: Option<Seq<char>>,
}

impl View for RawAbility {
    type V = RawAbilityModel;

    open spec fn view(&self) -> RawAbilityModel {
        RawAbilityModel {
            name: self.name.deep_view(),
            desc: self.desc.deep_view(),
            icon: self.icon.deep_view(),
        }
    }
}

impl DeepView for RawAbility {
    type V = RawAbilityModel;

    open spec fn deep_view(&self) -> RawAbilityModel {
        self.view()
    }
}

/// A raw champion record as it stands in the document.
#[derive(Debug, PartialEq, Eq, Clone)]
pub struct RawChampion {
    pub api_name: String,
    pub name: Option<String>,
    pub cost: u8,
    pub traits: Vec<String>,
    pub icon: Option<String>,
    pub ability: RawAbility,
}

/// The mathematical model of a [`RawChampion`].
#[verifier::ext_equal]
pub ghost struct RawChampionModel {
    pub api_name: Seq<char>,
    pub name: Option<Seq<char>>,
    pub cost: u8,
    pub traits: Seq<Seq<char>>,
    pub icon: Option<Seq<char>>,
    pub ability: RawAbilityModel,
}

impl View for RawChampion {
    type V = RawChampionModel;

    open spec fn view(&self) -> RawChampionModel {
        RawChampionModel {
            api_name: self.api_name@,
            name: self.name.deep_view(),
            cost: self.cost,
            traits: self.traits.deep_view(),
            icon: self.icon.deep_view(),
            ability: self.ability@,
        }
    }
}

impl DeepView for RawChampion {
    type V = RawChampionModel;

    open spec fn deep_view(&self) -> RawChampionModel {
        self.view()
    }
}

/// Normalization of a raw ability record.
pub open spec fn norm_ability(r: RawAbilityModel) -> AbilityModel {
    AbilityModel { name: norm_text(r.name), desc: norm_text(r.desc), icon: norm_text(r.icon) }
}

/// Normalization of a raw champion record: nullable text fields default
/// to the empty string, everything else is kept as it stands.
pub open spec fn norm_champion(r: RawChampionModel) -> ChampionModel {
    ChampionModel {
        api_name: r.api_name,
        name: norm_text(r.name),
        cost: r.cost,
        traits: r.traits,
        icon: norm_text(r.icon),
        ability: norm_ability(r.ability),
    }
}

impl Champion {
    /// The champion's display name, as the interface shows it.
    pub fn display_name(&self) -> (r: String)
        ensures
            r@ == self@.name,
    {
        self.name.clone()
    }

    /// Builds the normalized champion for a raw document record.
    pub fn from_raw(raw: &RawChampion) -> (r: Champion)
        ensures
            r@ == norm_champion(raw@),
    {
        let ghost m = raw@;
        let r = Champion {
            api_name: raw.api_name.clone(),
            name: norm_text_exec(&raw.name),
            cost: raw.cost,
            traits: raw.traits.clone(),
            icon: norm_text_exec(&raw.icon),
            ability: Ability {
                name: norm_text_exec(&raw.ability.name),
                desc: norm_text_exec(&raw.ability.desc),
                icon: norm_text_exec(&raw.ability.icon),
            },
        };
        proof {
            assert(r.traits.deep_view() =~= raw.traits.deep_view());
            assert(r@ =~= norm_champion(m));
        }
        r
    }
}

} // verus!
