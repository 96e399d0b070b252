use satisfactory_builder::items::{ItemMap, Totals};
use satisfactory_builder::resources::Resource;

#[test]
fn new_item_map_is_empty() {
    let items = ItemMap::new();
    assert!(items.is_empty());
    assert_eq!(items.len(), 0);
    assert_eq!(items.get(Resource::IronOre), None);
    assert!(!items.contains_key(Resource::IronOre));
}

#[test]
fn insert_appends_a_new_resource() {
    let mut items = ItemMap::new();
    assert_eq!(items.insert(Resource::IronPlate, 30_000), None);
    assert_eq!(items.insert(Resource::Screws, 60_000), None);
    assert_eq!(items.len(), 2);
    assert_eq!(
        items.entries(),
        &vec![(Resource::IronPlate, 30_000), (Resource::Screws, 60_000)]
    );
    assert_eq!(items.get(Resource::Screws), Some(60_000));
    assert!(items.contains_key(Resource::IronPlate));
}

#[test]
fn insert_replaces_in_place() {
    let mut items = ItemMap::new();
    items.insert(Resource::IronPlate, 30_000);
    items.insert(Resource::Screws, 60_000);
    assert_eq!(items.insert(Resource::IronPlate, 45_000), Some(30_000));
    assert_eq!(
        items.entries(),
        &vec![(Resource::IronPlate, 45_000), (Resource::Screws, 60_000)]
    );
}

#[test]
fn from_pairs_keeps_distinct_pairs() {
    let items = ItemMap::from_pairs(vec![(Resource::Rotor, 10_000), (Resource::Stator, 10_000)]);
    assert_eq!(
        items.entries(),
        &vec![(Resource::Rotor, 10_000), (Resource::Stator, 10_000)]
    );
}

#[test]
fn from_pairs_lets_the_later_rate_win() {
    let items = ItemMap::from_pairs(vec![
        (Resource::Wire, 1),
        (Resource::Cable, 2),
        (Resource::Wire, 3),
    ]);
    assert_eq!(items.entries(), &vec![(Resource::Wire, 3), (Resource::Cable, 2)]);
}

#[test]
fn clone_keeps_the_entries() {
    let items = ItemMap::from_pairs(vec![(Resource::Rotor, 10_000), (Resource::Stator, 7)]);
    let copy = items.clone();
    assert_eq!(copy.entries(), items.entries());
}

#[test]
fn totals_start_empty() {
    let totals = Totals::new();
    assert_eq!(totals.len(), 0);
    assert_eq!(totals.get(Resource::IronOre), None);
}

#[test]
fn totals_add_up() {
    let mut totals = Totals::new();
    totals.add(Resource::IronOre, 30_000);
    totals.add(Resource::Coal, 45_000);
    totals.add(Resource::IronOre, 45_000);
    assert_eq!(totals.get(Resource::IronOre), Some(75_000));
    assert_eq!(totals.get(Resource::Coal), Some(45_000));
    assert_eq!(totals.get(Resource::Water), None);
    assert_eq!(totals.len(), 2);
    assert_eq!(
        totals.entries(),
        &vec![(Resource::IronOre, 75_000), (Resource::Coal, 45_000)]
    );
}

#[test]
fn totals_hold_more_than_one_rate_can() {
    let mut totals = Totals::new();
    totals.add(Resource::Water, u64::MAX);
    totals.add(Resource::Water, u64::MAX);
    assert_eq!(totals.get(Resource::Water), Some(2 * (u64::MAX as u128)));
}

#[test]
fn totals_merge_a_whole_map() {
    let mut totals = Totals::new();
    totals.add(Resource::IronOre, 1);
    let items = ItemMap::from_pairs(vec![(Resource::Coal, 45_000), (Resource::IronOre, 45_000)]);
    totals.merge(&items);
    assert_eq!(totals.get(Resource::IronOre), Some(45_001));
    assert_eq!(totals.get(Resource::Coal), Some(45_000));
}

#[test]
fn a_rate_of_zero_is_still_listed() {
    let mut totals = Totals::new();
    totals.add(Resource::Water, 0);
    assert_eq!(totals.get(Resource::Water), Some(0));
}
