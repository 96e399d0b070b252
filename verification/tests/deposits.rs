use satisfactory_builder::deposits::{ResourceNode, ResourceType};
use satisfactory_builder::items::RATE_SCALE;

fn per_minute(rate: u64) -> f64 {
    rate as f64 / RATE_SCALE as f64
}

#[test]
fn test_impure_node() {
    let node = ResourceNode::new(String::from("Iron Ore"), ResourceType::Impure);
    assert_eq!(per_minute(node.base_extraction()), 30.0);
}

#[test]
fn test_normal_node() {
    let node = ResourceNode::new(String::from("Iron Ore"), ResourceType::Normal);
    assert_eq!(per_minute(node.base_extraction()), 60.0);
}

#[test]
fn test_pure_node() {
    let node = ResourceNode::new(String::from("Iron Ore"), ResourceType::Pure);
    assert_eq!(per_minute(node.base_extraction()), 120.0);
}

#[test]
fn base_extraction_is_in_thousandths() {
    let node = ResourceNode::new(String::from("Coal"), ResourceType::Normal);
    assert_eq!(node.base_extraction(), 60_000);
    assert_eq!(node.name(), "Coal");
    assert_eq!(node.resource_type(), ResourceType::Normal);
}
