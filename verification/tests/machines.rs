use satisfactory_builder::items::ItemMap;
use satisfactory_builder::machines::manufacturers::{Category, Manufacturer, ProductionBuilding};
use satisfactory_builder::pipelines::{Pipeline, PipelineNode};
use satisfactory_builder::recipes::Recipe;
use satisfactory_builder::resources::Resource;

fn iron_ingot() -> Recipe {
    Recipe::new(
        "Iron Ingot",
        ItemMap::from_pairs(vec![(Resource::IronOre, 30_000)]),
        ItemMap::from_pairs(vec![(Resource::IronIngot, 30_000)]),
        Category::Smelter,
        false,
        true,
    )
}

#[test]
fn manufacturer_new_keeps_its_arguments() {
    let machine = Manufacturer::new(Category::Packager, -7);
    assert_eq!(machine.category(), Category::Packager);
    assert_eq!(machine.power_usage(), -7);
}

#[test]
fn manufacturers_draw_their_rated_power() {
    let assembler = Manufacturer::assembler();
    assert_eq!((assembler.category(), assembler.power_usage()), (Category::Assembler, 15));
    let blender = Manufacturer::blender();
    assert_eq!((blender.category(), blender.power_usage()), (Category::Blender, 75));
    let constructor = Manufacturer::constructor();
    assert_eq!((constructor.category(), constructor.power_usage()), (Category::Constructor, 4));
    let manufacturer = Manufacturer::manufacturer();
    assert_eq!((manufacturer.category(), manufacturer.power_usage()), (Category::Manufacturer, 55));
    let packager = Manufacturer::packager();
    assert_eq!((packager.category(), packager.power_usage()), (Category::Packager, 10));
    let accelerator = Manufacturer::particle_accelerator();
    assert_eq!(
        (accelerator.category(), accelerator.power_usage()),
        (Category::ParticleAccelerator, 1500)
    );
    let refinery = Manufacturer::refinery();
    assert_eq!((refinery.category(), refinery.power_usage()), (Category::Refinery, 30));
}

#[test]
fn production_building_new_keeps_its_arguments() {
    let building = ProductionBuilding::new(Category::Refinery, 31, iron_ingot(), 3);
    assert_eq!(building.category, Category::Refinery);
    assert_eq!(building.power_usage, 31);
    assert_eq!(building.recipe.name(), "Iron Ingot");
    assert_eq!(building.amount, 3);
}

#[test]
fn from_category_sets_the_rated_power() {
    let rated = [
        (Category::Assembler, 15),
        (Category::Blender, 75),
        (Category::Constructor, 4),
        (Category::Foundry, 16),
        (Category::Manufacturer, 55),
        (Category::Packager, 10),
        (Category::ParticleAccelerator, 1500),
        (Category::Refinery, 30),
        (Category::Smelter, 4),
    ];
    for (category, power) in rated {
        let building = ProductionBuilding::from_category(category, iron_ingot());
        assert_eq!(building.category, category);
        assert_eq!(building.power_usage, power);
        assert_eq!(building.amount, 0);
        assert_eq!(building.recipe.name(), "Iron Ingot");
    }
}

#[test]
fn production_building_clone_keeps_the_fields() {
    let building = ProductionBuilding::new(Category::Foundry, 16, iron_ingot(), 2);
    let copy = building.clone();
    assert_eq!(copy.category, Category::Foundry);
    assert_eq!(copy.power_usage, 16);
    assert_eq!(copy.amount, 2);
    assert_eq!(copy.recipe.input_items().entries(), building.recipe.input_items().entries());
}

#[test]
fn pipeline_node_starts_without_parent() {
    let node = PipelineNode::new(ProductionBuilding::from_category(Category::Smelter, iron_ingot()));
    assert!(node.parent().is_none());
    assert_eq!(node.building().power_usage, 4);
}

#[test]
fn new_pipeline_is_empty() {
    let pipeline = Pipeline::new();
    assert_eq!(pipeline.len(), 0);
    assert_eq!(pipeline.total_power(), 0);
    assert!(pipeline.node(0).is_none());
}

#[test]
fn pipeline_add_keeps_a_running_total() {
    let mut pipeline = Pipeline::new();
    pipeline.add(ProductionBuilding::from_category(Category::Smelter, iron_ingot()));
    assert_eq!(pipeline.total_power(), 4);
    pipeline.add(ProductionBuilding::from_category(Category::Foundry, iron_ingot()));
    assert_eq!(pipeline.total_power(), 20);
    pipeline.add(ProductionBuilding::from_category(Category::Smelter, iron_ingot()));
    assert_eq!(pipeline.total_power(), 24);
    assert_eq!(pipeline.len(), 3);
    assert_eq!(pipeline.node(1).unwrap().building().category, Category::Foundry);
    assert!(pipeline.node(3).is_none());
}

#[test]
fn pipeline_total_does_not_overflow() {
    let mut pipeline = Pipeline::new();
    pipeline.add(ProductionBuilding::new(Category::Blender, usize::MAX, iron_ingot(), 0));
    pipeline.add(ProductionBuilding::new(Category::Blender, usize::MAX, iron_ingot(), 0));
    assert_eq!(pipeline.total_power(), 2 * (usize::MAX as u128));
}

#[test]
fn pipeline_extend_appends_in_order() {
    let mut first = Pipeline::new();
    first.add(ProductionBuilding::from_category(Category::Smelter, iron_ingot()));
    let mut second = Pipeline::new();
    second.add(ProductionBuilding::from_category(Category::Assembler, iron_ingot()));
    second.add(ProductionBuilding::from_category(Category::Refinery, iron_ingot()));
    first.extend(second);
    assert_eq!(first.len(), 3);
    assert_eq!(first.total_power(), 49);
    assert_eq!(first.node(0).unwrap().building().category, Category::Smelter);
    assert_eq!(first.node(1).unwrap().building().category, Category::Assembler);
    assert_eq!(first.node(2).unwrap().building().category, Category::Refinery);
}
