use tft_engine::domain::RawAbility;
use tft_engine::domain::RawChampion;
use tft_engine::domain::RawItem;
use tft_engine::ingest::ingest;
use tft_engine::ingest::IngestionError;
use tft_engine::ingest::RawDocument;
use tft_engine::ingest::RawSetEntry;

fn raw_item(api_name: &str, name: &str, composition: &[&str]) -> RawItem {
    RawItem {
        api_name: api_name.to_string(),
        name: Some(name.to_string()),
        desc: Some(String::new()),
        composition: composition.iter().map(|c| c.to_string()).collect(),
        associated_traits: vec![],
        incompatible_traits: vec![],
        unique: false,
        effects: String::new(),
        icon: None,
    }
}

fn raw_champion(api_name: &str, name: &str, traits: &[&str]) -> RawChampion {
    RawChampion {
        api_name: api_name.to_string(),
        name: Some(name.to_string()),
        cost: 1,
        traits: traits.iter().map(|t| t.to_string()).collect(),
        icon: None,
        ability: RawAbility { name: None, desc: None, icon: None },
    }
}

fn sample_document() -> RawDocument {
    RawDocument {
        set_data: Some(vec![RawSetEntry {
            champions: Some(vec![
                raw_champion("TFT8_Ahri", "Ahri", &["Mage"]),
                raw_champion("TFT8_Egg", "Egg", &[]),
                raw_champion("TFT8_Garen", "Garen", &["Knight", "Duelist"]),
            ]),
        }]),
        items: Some(vec![
            raw_item("TFT_Item_BFSword", "B.F. Sword", &[]),
            raw_item("TFT_Item_Bow", "Recurve Bow", &[]),
            raw_item("TFT_Item_GiantSlayer", "Giant Slayer", &["TFT_Item_BFSword", "TFT_Item_Bow"]),
            raw_item("TFT_Item_RapidFirecannon", "Rapid Firecannon", &["TFT_Item_Bow", "TFT_Item_Bow"]),
        ]),
    }
}

#[test]
fn ingest_keeps_only_champions_with_traits() {
    let out = ingest(&sample_document(), 0).unwrap();
    let names: Vec<&str> = out.champions.iter().map(|c| c.name.as_str()).collect();
    assert_eq!(names, vec!["Ahri", "Garen"]);
    assert!(out.champions.iter().all(|c| !c.traits.is_empty()));
}

#[test]
fn ingest_keeps_only_completed_items() {
    let out = ingest(&sample_document(), 0).unwrap();
    let names: Vec<&str> = out.items.iter().map(|i| i.api_name.as_str()).collect();
    assert_eq!(names, vec!["TFT_Item_GiantSlayer", "TFT_Item_RapidFirecannon"]);
    assert!(out.items.iter().all(|i| !i.composition.is_empty()));
}

#[test]
fn ingest_collects_components_deduplicated_in_first_occurrence_order() {
    let out = ingest(&sample_document(), 0).unwrap();
    let names: Vec<&str> = out.components.iter().map(|i| i.api_name.as_str()).collect();
    assert_eq!(names, vec!["TFT_Item_BFSword", "TFT_Item_Bow"]);
    // the resolved records come from the unfiltered catalog
    assert_eq!(out.components[0].name, "B.F. Sword");
    assert_eq!(out.components[1].name, "Recurve Bow");
}

#[test]
fn ingest_excludes_generation_tagged_identifiers() {
    let mut doc = sample_document();
    doc.items.as_mut().unwrap().push(raw_item("TFT5_Item_Old", "Old Five", &["TFT_Item_Bow"]));
    doc.items.as_mut().unwrap().push(raw_item("TFT6_Item_Old", "Old Six", &["TFT_Item_Bow"]));
    doc.items.as_mut().unwrap().push(raw_item("TFT7_Item_Old", "Old Seven", &["TFT_Item_Bow"]));
    let out = ingest(&doc, 0).unwrap();
    assert!(out.items.iter().all(|i| {
        !i.api_name.contains('5') && !i.api_name.contains('6') && !i.api_name.contains('7')
    }));
    assert_eq!(out.items.len(), 2);
}

#[test]
fn ingest_excludes_placeholder_names_and_tutorial_compositions() {
    let mut doc = sample_document();
    doc.items
        .as_mut()
        .unwrap()
        .push(raw_item("TFT_Item_Broken", "tft_item_name_broken", &["TFT_Item_Bow"]));
    doc.items
        .as_mut()
        .unwrap()
        .push(raw_item("TFT_Item_Starter", "Starter", &["TFT_Item_TutorialSword"]));
    let out = ingest(&doc, 0).unwrap();
    assert_eq!(out.items.len(), 2);
    assert!(out.items.iter().all(|i| !i.name.contains("tft_item_name")));
}

#[test]
fn ingest_normalizes_null_fields_to_defaults() {
    let mut doc = sample_document();
    doc.items.as_mut().unwrap().push(RawItem {
        api_name: "TFT_Item_Nameless".to_string(),
        name: None,
        desc: None,
        composition: vec!["TFT_Item_Bow".to_string()],
        associated_traits: vec![],
        incompatible_traits: vec![],
        unique: true,
        effects: String::new(),
        icon: None,
    });
    let out = ingest(&doc, 0).unwrap();
    let nameless = out.items.iter().find(|i| i.api_name == "TFT_Item_Nameless").unwrap();
    assert_eq!(nameless.name, "");
    assert_eq!(nameless.desc, "");
    assert_eq!(nameless.icon, "");
    assert!(nameless.unique);
}

#[test]
fn ingest_normalizes_null_champion_fields_to_defaults() {
    let mut doc = sample_document();
    doc.set_data.as_mut().unwrap()[0].champions.as_mut().unwrap().push(RawChampion {
        api_name: "TFT8_Nameless".to_string(),
        name: None,
        cost: 3,
        traits: vec!["Brawler".to_string()],
        icon: None,
        ability: RawAbility { name: None, desc: Some("Smash".to_string()), icon: None },
    });
    let out = ingest(&doc, 0).unwrap();
    let nameless = out.champions.iter().find(|c| c.api_name == "TFT8_Nameless").unwrap();
    assert_eq!(nameless.name, "");
    assert_eq!(nameless.icon, "");
    assert_eq!(nameless.ability.name, "");
    assert_eq!(nameless.ability.desc, "Smash");
    assert_eq!(nameless.cost, 3);
}

#[test]
fn ingest_reports_missing_set_data() {
    let mut doc = sample_document();
    doc.set_data = None;
    assert_eq!(ingest(&doc, 0).unwrap_err(), IngestionError::MissingSetData);
}

#[test]
fn ingest_reports_subset_index_out_of_range() {
    let doc = sample_document();
    assert_eq!(ingest(&doc, 1).unwrap_err(), IngestionError::SubsetIndexOutOfRange);
    assert_eq!(ingest(&doc, 18).unwrap_err(), IngestionError::SubsetIndexOutOfRange);
}

#[test]
fn ingest_reports_missing_champions() {
    let mut doc = sample_document();
    doc.set_data = Some(vec![RawSetEntry { champions: None }]);
    assert_eq!(ingest(&doc, 0).unwrap_err(), IngestionError::MissingChampions);
}

#[test]
fn ingest_reports_missing_items() {
    let mut doc = sample_document();
    doc.items = None;
    assert_eq!(ingest(&doc, 0).unwrap_err(), IngestionError::MissingItems);
}

#[test]
fn ingest_reports_unresolved_component() {
    let mut doc = sample_document();
    doc.items
        .as_mut()
        .unwrap()
        .push(raw_item("TFT_Item_Phantom", "Phantom", &["TFT_Item_DoesNotExist"]));
    assert_eq!(
        ingest(&doc, 0).unwrap_err(),
        IngestionError::UnresolvedComponent("TFT_Item_DoesNotExist".to_string())
    );
}

#[test]
fn ingest_of_empty_lists_yields_empty_results() {
    let doc = RawDocument {
        set_data: Some(vec![RawSetEntry { champions: Some(vec![]) }]),
        items: Some(vec![]),
    };
    let out = ingest(&doc, 0).unwrap();
    assert!(out.champions.is_empty());
    assert!(out.items.is_empty());
    assert!(out.components.is_empty());
}
