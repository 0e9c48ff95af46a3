use tft_engine::domain::Ability;
use tft_engine::domain::Champion;
use tft_engine::domain::Item;
use tft_engine::inventory::ComponentInventory;
use tft_engine::rank::rank;
use tft_engine::rank::score;
use tft_engine::store::ChampionState;

fn component(api_name: &str) -> Item {
    Item {
        api_name: api_name.to_string(),
        name: api_name.to_string(),
        desc: String::new(),
        composition: vec![],
        associated_traits: vec![],
        incompatible_traits: vec![],
        unique: false,
        effects: String::new(),
        icon: String::new(),
    }
}

fn completed(api_name: &str, composition: &[&str]) -> Item {
    Item {
        api_name: api_name.to_string(),
        name: api_name.to_string(),
        desc: String::new(),
        composition: composition.iter().map(|c| c.to_string()).collect(),
        associated_traits: vec![],
        incompatible_traits: vec![],
        unique: false,
        effects: String::new(),
        icon: String::new(),
    }
}

fn champion_with_items(name: &str, items: Vec<Item>) -> ChampionState {
    ChampionState {
        champ: Champion {
            api_name: format!("TFT8_{}", name),
            name: name.to_string(),
            cost: 1,
            traits: vec!["Mage".to_string()],
            icon: String::new(),
            ability: Ability { name: String::new(), desc: String::new(), icon: String::new() },
        },
        items,
    }
}

/// Inventory over components A and B with the given owned counts.
fn inventory(a: usize, b: usize) -> ComponentInventory {
    let mut inv = ComponentInventory::seed(&vec![component("A"), component("B")]);
    for _ in 0..a {
        inv.increment(&"A".to_string()).unwrap();
    }
    for _ in 0..b {
        inv.increment(&"B".to_string()).unwrap();
    }
    inv
}

#[test]
fn score_caps_each_component_at_the_lesser_of_supply_and_demand() {
    // inventory {A:2, B:1}; X consumes [A, A, B]; Y consumes [A]
    let inv = inventory(2, 1);
    let x = champion_with_items("X", vec![completed("XItem", &["A", "A", "B"])]);
    let y = champion_with_items("Y", vec![completed("YItem", &["A"])]);
    assert_eq!(score(&x, &inv), 3);
    assert_eq!(score(&y, &inv), 1);
}

#[test]
fn rank_orders_by_descending_score() {
    let inv = inventory(2, 1);
    let x = champion_with_items("X", vec![completed("XItem", &["A", "A", "B"])]);
    let y = champion_with_items("Y", vec![completed("YItem", &["A"])]);
    let ranked = rank(&vec![y, x], &inv);
    let names: Vec<&str> = ranked.iter().map(|cs| cs.champ.name.as_str()).collect();
    assert_eq!(names, vec!["X", "Y"]);
}

#[test]
fn score_of_champion_with_no_items_is_zero() {
    let inv = inventory(7, 3);
    let idle = champion_with_items("Idle", vec![]);
    assert_eq!(score(&idle, &inv), 0);
}

#[test]
fn score_counts_shared_components_across_items() {
    // two items each consuming one A: demand 2 meets supply 2
    let inv = inventory(2, 0);
    let x = champion_with_items(
        "X",
        vec![completed("One", &["A"]), completed("Two", &["A", "B"])],
    );
    // A: min(2, 2) = 2; B: min(0, 1) = 0
    assert_eq!(score(&x, &inv), 2);
}

#[test]
fn rank_with_empty_inventory_keeps_roster_order() {
    let inv = inventory(0, 0);
    let x = champion_with_items("X", vec![completed("XItem", &["A"])]);
    let y = champion_with_items("Y", vec![completed("YItem", &["A", "B"])]);
    let z = champion_with_items("Z", vec![]);
    let ranked = rank(&vec![x, y, z], &inv);
    let names: Vec<&str> = ranked.iter().map(|cs| cs.champ.name.as_str()).collect();
    assert_eq!(names, vec!["X", "Y", "Z"]);
}

#[test]
fn rank_keeps_roster_order_among_equal_scores() {
    let inv = inventory(1, 1);
    let x = champion_with_items("X", vec![completed("XItem", &["A"])]);
    let y = champion_with_items("Y", vec![completed("YItem", &["B"])]);
    let z = champion_with_items("Z", vec![completed("ZItem", &["A", "B"])]);
    // X and Y both score 1, Z scores 2: Z first, then X before Y
    let ranked = rank(&vec![x, y, z], &inv);
    let names: Vec<&str> = ranked.iter().map(|cs| cs.champ.name.as_str()).collect();
    assert_eq!(names, vec!["Z", "X", "Y"]);
}

#[test]
fn rank_returns_every_champion_exactly_once() {
    let inv = inventory(2, 1);
    let champs = vec![
        champion_with_items("X", vec![completed("XItem", &["A", "A"])]),
        champion_with_items("Y", vec![completed("YItem", &["B"])]),
        champion_with_items("Z", vec![]),
    ];
    let ranked = rank(&champs, &inv);
    assert_eq!(ranked.len(), 3);
    let mut names: Vec<&str> = ranked.iter().map(|cs| cs.champ.name.as_str()).collect();
    names.sort();
    assert_eq!(names, vec!["X", "Y", "Z"]);
}

#[test]
fn score_ignores_components_the_inventory_does_not_know() {
    let inv = inventory(3, 0);
    let x = champion_with_items("X", vec![completed("XItem", &["A", "Unknown"])]);
    assert_eq!(score(&x, &inv), 1);
}
