use satisfactory_builder::items::ItemMap;
use satisfactory_builder::machines::manufacturers::Category;
use satisfactory_builder::recipes::{Recipe, Recipes, ResolveError};
use satisfactory_builder::resources::Resource;

#[test]
fn recipe_new_keeps_its_arguments() {
    let recipe = Recipe::new(
        "Steel Ingot",
        ItemMap::from_pairs(vec![(Resource::IronOre, 45_000), (Resource::Coal, 45_000)]),
        ItemMap::from_pairs(vec![(Resource::SteelIngot, 45_000)]),
        Category::Foundry,
        true,
        true,
    );
    assert_eq!(recipe.name(), "Steel Ingot");
    assert_eq!(
        recipe.input_items().entries(),
        &vec![(Resource::IronOre, 45_000), (Resource::Coal, 45_000)]
    );
    assert_eq!(recipe.output_items().entries(), &vec![(Resource::SteelIngot, 45_000)]);
    assert_eq!(recipe.production_building(), Category::Foundry);
    assert!(recipe.alternative());
    assert!(recipe.end());
}

#[test]
fn recipe_clone_keeps_the_fields() {
    let recipe = Recipe::new(
        "Wire",
        ItemMap::from_pairs(vec![(Resource::CopperIngot, 15_000)]),
        ItemMap::from_pairs(vec![(Resource::Wire, 30_000)]),
        Category::Constructor,
        false,
        false,
    );
    let copy = recipe.clone();
    assert_eq!(copy.name(), "Wire");
    assert_eq!(copy.input_items().entries(), recipe.input_items().entries());
    assert_eq!(copy.output_items().entries(), recipe.output_items().entries());
    assert_eq!(copy.production_building(), Category::Constructor);
    assert!(!copy.alternative());
    assert!(!copy.end());
}

#[test]
fn an_empty_catalog_resolves_nothing() {
    let recipes = Recipes::new();
    assert_eq!(
        recipes.get_component_recipes(Resource::IronIngot).err(),
        Some(ResolveError::ResourceUnresolved(Resource::IronIngot))
    );
}

#[test]
fn add_registers_under_every_output() {
    let mut recipes = Recipes::new();
    recipes.add(Recipe::new(
        "Refining",
        ItemMap::from_pairs(vec![(Resource::Oil, 30_000)]),
        ItemMap::from_pairs(vec![(Resource::Plastic, 20_000), (Resource::HeavyOilResidue, 10_000)]),
        Category::Refinery,
        false,
        true,
    ));
    for produced in [Resource::Plastic, Resource::HeavyOilResidue] {
        let found = recipes.get_component_recipes(produced).unwrap();
        assert_eq!(found.len(), 1);
        assert_eq!(found[0].name(), "Refining");
    }
    assert!(recipes.get_component_recipes(Resource::Oil).is_err());
}

#[test]
fn the_last_recipe_registered_wins() {
    let mut recipes = Recipes::new();
    recipes.add(Recipe::new(
        "First",
        ItemMap::from_pairs(vec![(Resource::Leaves, 1)]),
        ItemMap::from_pairs(vec![(Resource::Biomass, 1)]),
        Category::Constructor,
        false,
        true,
    ));
    recipes.add(Recipe::new(
        "Second",
        ItemMap::from_pairs(vec![(Resource::Wood, 1)]),
        ItemMap::from_pairs(vec![(Resource::Biomass, 2)]),
        Category::Constructor,
        false,
        true,
    ));
    let found = recipes.get_component_recipes(Resource::Biomass).unwrap();
    assert_eq!(found.len(), 1);
    assert_eq!(found[0].name(), "Second");
}

#[test]
fn the_standard_catalog_resolves_its_products() {
    let recipes = Recipes::build();
    let expected = [
        (Resource::IronIngot, "Iron Ingot"),
        (Resource::IronPlate, "Iron Plate"),
        (Resource::IronRod, "Iron Rod"),
        (Resource::Screws, "Screws"),
        (Resource::ReinforcedIronPlate, "Reinforced Iron Plate"),
        (Resource::CopperIngot, "Copper Ingot"),
        (Resource::CopperSheet, "Copper Sheet"),
        (Resource::Wire, "Wire"),
        (Resource::Cable, "Cable"),
        (Resource::Concrete, "Concrete"),
        (Resource::Biomass, "Biomass (Alien Protein)"),
        (Resource::SolidBiofuel, "Solid Biofuel"),
        (Resource::QuartzCrystal, "Silica"),
        (Resource::CateriumIngot, "Caterium Ingot"),
        (Resource::Quickwire, "Quickwire"),
        (Resource::SteelIngot, "Steel Ingot"),
        (Resource::SteelPipe, "Steel Pipe"),
        (Resource::SteelBeam, "Steel Beam"),
        (Resource::EncasedIndustrialBeam, "Encased Industrial Beam"),
        (Resource::ModularFrame, "Modular Frame"),
        (Resource::HeavyModularFrame, "Heavy Modular Frame"),
        (Resource::Rotor, "Rotor"),
        (Resource::Stator, "Stator"),
        (Resource::Motor, "Motor"),
        (Resource::TurboMotor, "Turbo Motor"),
    ];
    for (resource, name) in expected {
        let found = recipes.get_component_recipes(resource).unwrap();
        assert_eq!(found.len(), 1);
        assert_eq!(found[0].name(), name);
    }
}

#[test]
fn the_standard_catalog_has_no_recipe_for_raw_resources() {
    let recipes = Recipes::build();
    for raw in [
        Resource::IronOre,
        Resource::CopperOre,
        Resource::Limestone,
        Resource::Coal,
        Resource::Water,
        Resource::Silica,
        Resource::CoolingSystem,
    ] {
        assert_eq!(
            recipes.get_component_recipes(raw).err(),
            Some(ResolveError::ResourceUnresolved(raw))
        );
    }
}

#[test]
fn the_standard_catalog_holds_the_rates_of_the_table() {
    let recipes = Recipes::build();
    let turbo = &recipes.get_component_recipes(Resource::TurboMotor).unwrap()[0];
    assert_eq!(
        turbo.input_items().entries(),
        &vec![
            (Resource::Motor, 7_500),
            (Resource::CoolingSystem, 7_500),
            (Resource::RadioControlUnit, 3_750),
            (Resource::Rubber, 45_000),
        ]
    );
    assert_eq!(turbo.output_items().entries(), &vec![(Resource::TurboMotor, 1_875)]);
    assert_eq!(turbo.production_building(), Category::Assembler);
    assert!(!turbo.end());
    let steel = &recipes.get_component_recipes(Resource::SteelIngot).unwrap()[0];
    assert_eq!(steel.production_building(), Category::Foundry);
    assert!(steel.end());
}

#[test]
fn errors_name_their_resource_and_say_what_happened() {
    let unresolved = ResolveError::ResourceUnresolved(Resource::Water);
    assert_eq!(unresolved.resource(), Resource::Water);
    assert_eq!(unresolved.message(), "Cannot find any recipes for the component");
    let cyclic = ResolveError::CyclicRecipeGraph(Resource::Wire);
    assert_eq!(cyclic.resource(), Resource::Wire);
    assert_eq!(cyclic.message(), "The component is needed to make itself");
}
