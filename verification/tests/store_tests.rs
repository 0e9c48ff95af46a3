use tft_engine::domain::Ability;
use tft_engine::domain::Champion;
use tft_engine::domain::Item;
use tft_engine::domain::ItemsDisplay;
use tft_engine::store::BuildStateStore;
use tft_engine::store::ChampionState;
use tft_engine::store::LookupError;

fn item(api_name: &str, name: &str, composition: &[&str]) -> Item {
    Item {
        api_name: api_name.to_string(),
        name: name.to_string(),
        desc: String::new(),
        composition: composition.iter().map(|c| c.to_string()).collect(),
        associated_traits: vec![],
        incompatible_traits: vec![],
        unique: false,
        effects: String::new(),
        icon: String::new(),
    }
}

fn champion(name: &str) -> Champion {
    Champion {
        api_name: format!("TFT8_{}", name),
        name: name.to_string(),
        cost: 1,
        traits: vec!["Mage".to_string()],
        icon: String::new(),
        ability: Ability { name: String::new(), desc: String::new(), icon: String::new() },
    }
}

#[test]
fn attach_without_persisted_state_starts_empty() {
    let roster = vec![champion("Ahri"), champion("Garen")];
    let store = BuildStateStore::attach(&roster, None);
    assert_eq!(store.champs.len(), 2);
    assert!(store.champs.iter().all(|cs| cs.items.is_empty()));
    assert_eq!(store.champs[0].champ.name, "Ahri");
    assert_eq!(store.champs[1].champ.name, "Garen");
}

#[test]
fn attach_carries_over_persisted_items() {
    let roster = vec![champion("Ahri"), champion("Garen")];
    let persisted = vec![ChampionState {
        champ: champion("Ahri"),
        items: vec![item("TFT_Item_GiantSlayer", "Giant Slayer", &[])],
    }];
    let store = BuildStateStore::attach(&roster, Some(&persisted));
    assert_eq!(store.champs[0].items.len(), 1);
    assert_eq!(store.champs[0].items[0].name, "Giant Slayer");
    assert!(store.champs[1].items.is_empty());
}

#[test]
fn attach_ignores_persisted_champions_outside_the_roster() {
    let roster = vec![champion("Ahri")];
    let persisted = vec![ChampionState {
        champ: champion("Gone"),
        items: vec![item("TFT_Item_GiantSlayer", "Giant Slayer", &[])],
    }];
    let store = BuildStateStore::attach(&roster, Some(&persisted));
    assert_eq!(store.champs.len(), 1);
    assert!(store.champs[0].items.is_empty());
}

#[test]
fn attach_treats_ambiguous_persisted_names_as_absent() {
    let roster = vec![champion("Ahri")];
    let persisted = vec![
        ChampionState { champ: champion("Ahri"), items: vec![item("A", "A", &[])] },
        ChampionState { champ: champion("Ahri"), items: vec![item("B", "B", &[])] },
    ];
    let store = BuildStateStore::attach(&roster, Some(&persisted));
    assert!(store.champs[0].items.is_empty());
}

#[test]
fn assign_appends_and_allows_duplicates() {
    let roster = vec![champion("Ahri")];
    let mut store = BuildStateStore::attach(&roster, None);
    let sword = item("TFT_Item_Sword", "Sword", &[]);
    store.assign(&"Ahri".to_string(), sword.clone()).unwrap();
    store.assign(&"Ahri".to_string(), sword).unwrap();
    assert_eq!(store.champs[0].items.len(), 2);
    assert_eq!(store.champs[0].items[0].name, "Sword");
    assert_eq!(store.champs[0].items[1].name, "Sword");
}

#[test]
fn assign_to_unknown_champion_fails_and_changes_nothing() {
    let roster = vec![champion("Ahri")];
    let mut store = BuildStateStore::attach(&roster, None);
    let before = store.serialize();
    let r = store.assign(&"Nobody".to_string(), item("A", "A", &[]));
    assert_eq!(r.unwrap_err(), LookupError::UnknownChampion);
    assert_eq!(store.serialize(), before);
}

#[test]
fn unassign_removes_only_the_first_matching_entry() {
    let roster = vec![champion("Ahri")];
    let mut store = BuildStateStore::attach(&roster, None);
    store.assign(&"Ahri".to_string(), item("A", "Sword", &[])).unwrap();
    store.assign(&"Ahri".to_string(), item("B", "Bow", &[])).unwrap();
    store.assign(&"Ahri".to_string(), item("A", "Sword", &[])).unwrap();
    store.unassign(&"Ahri".to_string(), &"Sword".to_string()).unwrap();
    let names: Vec<&str> = store.champs[0].items.iter().map(|i| i.name.as_str()).collect();
    assert_eq!(names, vec!["Bow", "Sword"]);
}

#[test]
fn unassign_of_absent_item_is_a_no_op() {
    let roster = vec![champion("Ahri")];
    let mut store = BuildStateStore::attach(&roster, None);
    store.assign(&"Ahri".to_string(), item("A", "Sword", &[])).unwrap();
    let before = store.serialize();
    store.unassign(&"Ahri".to_string(), &"Never Assigned".to_string()).unwrap();
    assert_eq!(store.serialize(), before);
    assert_eq!(store.champs[0].items.len(), 1);
}

#[test]
fn unassign_from_unknown_champion_fails() {
    let roster = vec![champion("Ahri")];
    let mut store = BuildStateStore::attach(&roster, None);
    let r = store.unassign(&"Nobody".to_string(), &"Sword".to_string());
    assert_eq!(r.unwrap_err(), LookupError::UnknownChampion);
}

#[test]
fn clear_empties_the_item_list() {
    let roster = vec![champion("Ahri"), champion("Garen")];
    let mut store = BuildStateStore::attach(&roster, None);
    store.assign(&"Ahri".to_string(), item("A", "Sword", &[])).unwrap();
    store.assign(&"Garen".to_string(), item("B", "Bow", &[])).unwrap();
    store.clear(&"Ahri".to_string()).unwrap();
    assert!(store.champs[0].items.is_empty());
    assert_eq!(store.champs[1].items.len(), 1);
}

#[test]
fn serialize_then_deserialize_restores_the_store() {
    let roster = vec![champion("Ahri"), champion("Garen")];
    let mut store = BuildStateStore::attach(&roster, None);
    store.assign(&"Ahri".to_string(), item("A", "Sword", &[])).unwrap();
    store.assign(&"Garen".to_string(), item("B", "Bow", &[])).unwrap();
    store.assign(&"Garen".to_string(), item("B", "Bow", &[])).unwrap();
    let restored = BuildStateStore::deserialize(store.serialize());
    assert_eq!(restored, store);
}

#[test]
fn round_trip_of_the_empty_store() {
    let store = BuildStateStore::attach(&vec![], None);
    let restored = BuildStateStore::deserialize(store.serialize());
    assert_eq!(restored, store);
}

#[test]
fn items_display_reads_no_items_when_empty() {
    let label = ItemsDisplay(vec![]).label();
    assert_eq!(label, "no items");
}

#[test]
fn items_display_joins_names_with_commas() {
    let items = vec![item("A", "Sword", &[]), item("B", "Bow", &[]), item("C", "Rod", &[])];
    let label = ItemsDisplay(items).label();
    assert_eq!(label, "Sword, Bow, Rod");
}

#[test]
fn items_display_of_one_item_is_its_name() {
    let label = ItemsDisplay(vec![item("A", "Sword", &[])]).label();
    assert_eq!(label, "Sword");
}

#[test]
fn champion_and_item_display_names() {
    assert_eq!(champion("Ahri").display_name(), "Ahri");
    assert_eq!(item("A", "Sword", &[]).display_name(), "Sword");
}
