use tft_engine::domain::Item;
use tft_engine::inventory::ComponentInventory;
use tft_engine::store::LookupError;

fn component(api_name: &str, name: &str) -> Item {
    Item {
        api_name: api_name.to_string(),
        name: name.to_string(),
        desc: String::new(),
        composition: vec![],
        associated_traits: vec![],
        incompatible_traits: vec![],
        unique: false,
        effects: String::new(),
        icon: String::new(),
    }
}

fn sample_inventory() -> ComponentInventory {
    let components = vec![component("TFT_Item_Sword", "Sword"), component("TFT_Item_Bow", "Bow")];
    ComponentInventory::seed(&components)
}

#[test]
fn seed_starts_every_count_at_zero() {
    let inv = sample_inventory();
    assert_eq!(inv.entries.len(), 2);
    assert!(inv.entries.iter().all(|e| e.count == 0));
    assert_eq!(inv.entries[0].component.api_name, "TFT_Item_Sword");
    assert_eq!(inv.entries[1].component.api_name, "TFT_Item_Bow");
}

#[test]
fn increment_adds_one_to_the_named_component_only() {
    let mut inv = sample_inventory();
    inv.increment(&"TFT_Item_Bow".to_string()).unwrap();
    inv.increment(&"TFT_Item_Bow".to_string()).unwrap();
    assert_eq!(inv.entries[0].count, 0);
    assert_eq!(inv.entries[1].count, 2);
}

#[test]
fn decrement_subtracts_one() {
    let mut inv = sample_inventory();
    inv.increment(&"TFT_Item_Sword".to_string()).unwrap();
    inv.increment(&"TFT_Item_Sword".to_string()).unwrap();
    inv.decrement(&"TFT_Item_Sword".to_string()).unwrap();
    assert_eq!(inv.entries[0].count, 1);
}

#[test]
fn decrement_at_zero_stays_at_zero_however_often() {
    let mut inv = sample_inventory();
    for _ in 0..25 {
        inv.decrement(&"TFT_Item_Sword".to_string()).unwrap();
        assert_eq!(inv.entries[0].count, 0);
    }
}

#[test]
fn unknown_component_is_a_lookup_error_and_changes_nothing() {
    let mut inv = sample_inventory();
    inv.increment(&"TFT_Item_Sword".to_string()).unwrap();
    let r = inv.increment(&"TFT_Item_Missing".to_string());
    assert_eq!(r.unwrap_err(), LookupError::UnknownComponent);
    let r = inv.decrement(&"TFT_Item_Missing".to_string());
    assert_eq!(r.unwrap_err(), LookupError::UnknownComponent);
    assert_eq!(inv.entries[0].count, 1);
    assert_eq!(inv.entries[1].count, 0);
}

#[test]
fn count_of_reports_the_owned_count() {
    let mut inv = sample_inventory();
    inv.increment(&"TFT_Item_Bow".to_string()).unwrap();
    assert_eq!(inv.count_of(&"TFT_Item_Bow".to_string()), Some(1));
    assert_eq!(inv.count_of(&"TFT_Item_Sword".to_string()), Some(0));
    assert_eq!(inv.count_of(&"TFT_Item_Missing".to_string()), None);
}
