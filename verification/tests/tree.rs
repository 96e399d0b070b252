use satisfactory_builder::items::ItemMap;
use satisfactory_builder::machines::manufacturers::Category;
use satisfactory_builder::pipelines::Pipeline;
use satisfactory_builder::recipes::tree::{resolve as resolve_standard, Ratio, RecipeNode, RecipeTree};
use satisfactory_builder::recipes::{Recipe, Recipes, ResolveError};
use satisfactory_builder::resources::Resource;

fn resolve(resource: Resource) -> (RecipeTree, Pipeline) {
    let recipes = Recipes::build();
    let mut pipeline = Pipeline::new();
    match RecipeTree::build(resource, &recipes, &mut pipeline) {
        Ok(tree) => (tree, pipeline),
        Err(error) => panic!("{:?}", error),
    }
}

fn names(tree: &RecipeTree) -> Vec<String> {
    (0..tree.len()).map(|i| String::from(tree.node(i).unwrap().recipe().name())).collect()
}

fn simple(name: &str, input: Resource, output: Resource, end: bool) -> Recipe {
    Recipe::new(
        name,
        ItemMap::from_pairs(vec![(input, 1_000)]),
        ItemMap::from_pairs(vec![(output, 1_000)]),
        Category::Constructor,
        false,
        end,
    )
}

#[test]
fn a_terminal_recipe_resolves_to_its_root_alone() {
    for resource in [Resource::IronIngot, Resource::CopperIngot, Resource::Concrete, Resource::SteelIngot] {
        let (tree, pipeline) = resolve(resource);
        assert_eq!(tree.len(), 1);
        assert_eq!(tree.root(), 0);
        let root = tree.node(tree.root()).unwrap();
        assert!(root.recipe().end());
        assert!(root.children().is_empty());
        assert_eq!(root.parent(), None);
        assert_eq!(tree.entrypoints(), &vec![0]);
        assert_eq!(pipeline.len(), 1);
    }
}

#[test]
fn every_node_has_one_child_for_each_input() {
    for resource in [
        Resource::HeavyModularFrame,
        Resource::Motor,
        Resource::ReinforcedIronPlate,
        Resource::Cable,
        Resource::SolidBiofuel,
    ] {
        let (tree, _) = resolve(resource);
        for i in 0..tree.len() {
            let node = tree.node(i).unwrap();
            if node.recipe().end() {
                assert_eq!(node.children().len(), 0);
            } else {
                assert_eq!(node.children().len(), node.recipe().input_items().len());
            }
        }
    }
}

#[test]
fn children_are_linked_to_their_parent() {
    let recipes = Recipes::build();
    let (tree, _) = resolve(Resource::HeavyModularFrame);
    assert_eq!(tree.node(0).unwrap().parent(), None);
    for i in 0..tree.len() {
        let node = tree.node(i).unwrap();
        let inputs = node.recipe().input_items().entries();
        for (k, child) in node.children().iter().enumerate() {
            assert!(*child > i);
            let below = tree.node(*child).unwrap();
            assert_eq!(below.parent(), Some(i));
            let canonical = &recipes.get_component_recipes(inputs[k].0).unwrap()[0];
            assert_eq!(below.recipe().name(), canonical.name());
        }
    }
}

#[test]
fn iron_plate_enters_at_the_iron_ingot_recipe() {
    let (tree, _) = resolve(Resource::IronPlate);
    assert_eq!(names(&tree), vec!["Iron Plate", "Iron Ingot"]);
    assert_eq!(tree.entrypoints(), &vec![1]);
    assert_eq!(tree.node(1).unwrap().recipe().name(), "Iron Ingot");
    assert_eq!(tree.input_ingredients(), vec![Resource::IronOre]);
}

#[test]
fn reinforced_iron_plate_resolves_into_two_branches() {
    let (tree, _) = resolve(Resource::ReinforcedIronPlate);
    assert_eq!(
        names(&tree),
        vec!["Reinforced Iron Plate", "Iron Plate", "Iron Ingot", "Screws", "Iron Ingot"]
    );
    let root = tree.node(0).unwrap();
    assert_eq!(root.recipe().name(), "Reinforced Iron Plate");
    assert_eq!(root.children(), &vec![1, 3]);
    let plate = tree.node(1).unwrap();
    assert_eq!(plate.recipe().name(), "Iron Plate");
    assert_eq!(plate.children(), &vec![2]);
    assert_eq!(plate.parent(), Some(0));
    let screws = tree.node(3).unwrap();
    assert_eq!(screws.recipe().name(), "Screws");
    assert_eq!(screws.children(), &vec![4]);
    assert_eq!(screws.parent(), Some(0));
    for (ingot, parent) in [(2, 1), (4, 3)] {
        let node = tree.node(ingot).unwrap();
        assert_eq!(node.recipe().name(), "Iron Ingot");
        assert!(node.children().is_empty());
        assert_eq!(node.parent(), Some(parent));
    }
    assert_eq!(tree.entrypoints(), &vec![2, 4]);
    // Iron ore enters twice, at 30 per minute each time.
    assert_eq!(tree.inputs().get(Resource::IronOre), Some(60_000));
    assert_eq!(tree.inputs().len(), 1);
    assert_eq!(tree.input_ingredients(), vec![Resource::IronOre]);
}

#[test]
fn outputs_add_up_over_every_node() {
    let (tree, _) = resolve(Resource::ReinforcedIronPlate);
    assert_eq!(tree.outputs().get(Resource::ReinforcedIronPlate), Some(5_000));
    assert_eq!(tree.outputs().get(Resource::IronPlate), Some(20_000));
    assert_eq!(tree.outputs().get(Resource::Screws), Some(40_000));
    assert_eq!(tree.outputs().get(Resource::IronIngot), Some(60_000));
    assert_eq!(tree.outputs().get(Resource::IronOre), None);
    assert_eq!(tree.outputs().len(), 4);
    for resource in [Resource::ReinforcedIronPlate, Resource::IronPlate, Resource::Screws, Resource::IronIngot] {
        let mut sum: u128 = 0;
        for i in 0..tree.len() {
            if let Some(rate) = tree.node(i).unwrap().recipe().output_items().get(resource) {
                sum += rate as u128;
            }
        }
        assert_eq!(tree.outputs().get(resource), Some(sum));
    }
}

#[test]
fn inputs_add_up_over_the_entrypoints() {
    let (tree, _) = resolve(Resource::Motor);
    // Two iron ingot smelters at 30, one foundry at 45 of ore and of coal,
    // one copper smelter at 30.
    assert_eq!(tree.inputs().get(Resource::IronOre), Some(105_000));
    assert_eq!(tree.inputs().get(Resource::Coal), Some(45_000));
    assert_eq!(tree.inputs().get(Resource::CopperOre), Some(30_000));
    assert_eq!(tree.inputs().len(), 3);
    assert_eq!(
        tree.input_ingredients(),
        vec![Resource::IronOre, Resource::Coal, Resource::CopperOre]
    );
}

#[test]
fn input_ingredients_are_input_keys_of_the_entrypoints() {
    for resource in [Resource::HeavyModularFrame, Resource::Motor, Resource::Quickwire] {
        let (tree, _) = resolve(resource);
        let ingredients = tree.input_ingredients();
        for (i, ingredient) in ingredients.iter().enumerate() {
            assert!(!ingredients[..i].contains(ingredient));
            assert!(tree.entrypoints().iter().any(|e| {
                tree.node(*e).unwrap().recipe().input_items().contains_key(*ingredient)
            }));
        }
        for e in tree.entrypoints() {
            for (needed, _) in tree.node(*e).unwrap().recipe().input_items().entries() {
                assert!(ingredients.contains(needed));
            }
        }
    }
}

#[test]
fn motor_power_counts_every_terminal_node() {
    let (tree, pipeline) = resolve(Resource::Motor);
    assert_eq!(
        names(&tree),
        vec![
            "Motor",
            "Rotor",
            "Iron Rod",
            "Iron Ingot",
            "Screws",
            "Iron Ingot",
            "Stator",
            "Steel Pipe",
            "Steel Ingot",
            "Wire",
            "Copper Ingot",
        ]
    );
    assert_eq!(tree.entrypoints(), &vec![3, 5, 8, 10]);
    assert_eq!(pipeline.len(), 4);
    // Smelter, smelter, foundry, smelter.
    assert_eq!(pipeline.total_power(), 4 + 4 + 16 + 4);
    let mut sum: u128 = 0;
    for (k, e) in tree.entrypoints().iter().enumerate() {
        let recipe = tree.node(*e).unwrap().recipe();
        let building = pipeline.node(k).unwrap().building();
        assert_eq!(building.category, recipe.production_building());
        assert_eq!(building.recipe.name(), recipe.name());
        assert_eq!(building.amount, 0);
        sum += building.power_usage as u128;
    }
    assert_eq!(pipeline.total_power(), sum);
}

#[test]
fn build_appends_to_the_buildings_already_there() {
    let recipes = Recipes::build();
    let mut pipeline = Pipeline::new();
    assert!(RecipeTree::build(Resource::IronPlate, &recipes, &mut pipeline).is_ok());
    assert!(RecipeTree::build(Resource::SteelPipe, &recipes, &mut pipeline).is_ok());
    assert_eq!(pipeline.len(), 2);
    assert_eq!(pipeline.node(0).unwrap().building().category, Category::Smelter);
    assert_eq!(pipeline.node(1).unwrap().building().category, Category::Foundry);
    assert_eq!(pipeline.total_power(), 20);
}

#[test]
fn an_unregistered_resource_does_not_resolve() {
    let recipes = Recipes::build();
    let mut pipeline = Pipeline::new();
    let built = RecipeTree::build(Resource::Water, &recipes, &mut pipeline);
    assert_eq!(built.err(), Some(ResolveError::ResourceUnresolved(Resource::Water)));
    assert_eq!(pipeline.len(), 0);
    assert_eq!(pipeline.total_power(), 0);
}

#[test]
fn a_missing_input_fails_the_whole_resolution() {
    let recipes = Recipes::build();
    let mut pipeline = Pipeline::new();
    pipeline.add(satisfactory_builder::machines::manufacturers::ProductionBuilding::from_category(
        Category::Packager,
        simple("Packing", Resource::Water, Resource::Fuel, true),
    ));
    // The motor below the turbo motor resolves, the cooling system does not.
    let built = RecipeTree::build(Resource::TurboMotor, &recipes, &mut pipeline);
    assert_eq!(built.err(), Some(ResolveError::ResourceUnresolved(Resource::CoolingSystem)));
    assert_eq!(pipeline.len(), 1);
    assert_eq!(pipeline.total_power(), 10);
}

#[test]
fn a_recipe_that_needs_itself_is_refused() {
    let mut recipes = Recipes::new();
    recipes.add(simple("Wire from cable", Resource::Cable, Resource::Wire, false));
    recipes.add(simple("Cable from wire", Resource::Wire, Resource::Cable, false));
    let mut pipeline = Pipeline::new();
    let built = RecipeTree::build(Resource::Wire, &recipes, &mut pipeline);
    assert_eq!(built.err(), Some(ResolveError::CyclicRecipeGraph(Resource::Wire)));
    assert_eq!(pipeline.len(), 0);
    let mut recipes = Recipes::new();
    recipes.add(simple("Perpetual", Resource::Fuel, Resource::Fuel, false));
    let built = RecipeTree::build(Resource::Fuel, &recipes, &mut pipeline);
    assert_eq!(built.err(), Some(ResolveError::CyclicRecipeGraph(Resource::Fuel)));
}

#[test]
fn a_terminal_recipe_may_consume_what_it_makes() {
    let mut recipes = Recipes::new();
    recipes.add(simple("Seed", Resource::Leaves, Resource::Leaves, true));
    let mut pipeline = Pipeline::new();
    let tree = RecipeTree::build(Resource::Leaves, &recipes, &mut pipeline).unwrap();
    assert_eq!(tree.len(), 1);
    assert_eq!(tree.input_ingredients(), vec![Resource::Leaves]);
}

#[test]
fn a_repeated_resource_is_resolved_again() {
    let (tree, pipeline) = resolve(Resource::ModularFrame);
    // Iron ingot stands below iron plate, below screws and below iron rod.
    let ingots = names(&tree).iter().filter(|name| *name == "Iron Ingot").count();
    assert_eq!(ingots, 3);
    assert_eq!(tree.inputs().get(Resource::IronOre), Some(90_000));
    assert_eq!(pipeline.total_power(), 12);
}

#[test]
fn a_recipe_without_inputs_that_is_not_terminal_is_no_entrypoint() {
    let mut recipes = Recipes::new();
    recipes.add(Recipe::new(
        "Gift",
        ItemMap::new(),
        ItemMap::from_pairs(vec![(Resource::Wood, 1_000)]),
        Category::Constructor,
        false,
        false,
    ));
    let mut pipeline = Pipeline::new();
    let tree = RecipeTree::build(Resource::Wood, &recipes, &mut pipeline).unwrap();
    assert_eq!(tree.len(), 1);
    assert!(tree.entrypoints().is_empty());
    assert!(tree.input_ingredients().is_empty());
    assert_eq!(pipeline.len(), 0);
    assert_eq!(tree.outputs().get(Resource::Wood), Some(1_000));
}

#[test]
fn a_node_holds_the_ratio_of_every_output_to_every_input() {
    let recipe = Recipe::new(
        "Refining",
        ItemMap::from_pairs(vec![(Resource::Oil, 30_000), (Resource::Water, 20_000)]),
        ItemMap::from_pairs(vec![(Resource::Plastic, 20_000), (Resource::HeavyOilResidue, 10_000)]),
        Category::Refinery,
        false,
        true,
    );
    let node = RecipeNode::new(recipe);
    let ratio = |input, input_rate, output, output_rate| Ratio { input, output, output_rate, input_rate };
    assert_eq!(
        node.calculations(),
        &vec![
            ratio(Resource::Oil, 30_000, Resource::Plastic, 20_000),
            ratio(Resource::Oil, 30_000, Resource::HeavyOilResidue, 10_000),
            ratio(Resource::Water, 20_000, Resource::Plastic, 20_000),
            ratio(Resource::Water, 20_000, Resource::HeavyOilResidue, 10_000),
        ]
    );
    assert_eq!(node.parent(), None);
    assert!(node.children().is_empty());
}

#[test]
fn the_nodes_of_a_tree_hold_their_ratios() {
    let (tree, _) = resolve(Resource::ReinforcedIronPlate);
    assert_eq!(
        tree.node(0).unwrap().calculations(),
        &vec![
            Ratio {
                input: Resource::IronPlate,
                output: Resource::ReinforcedIronPlate,
                output_rate: 5_000,
                input_rate: 30_000,
            },
            Ratio {
                input: Resource::Screws,
                output: Resource::ReinforcedIronPlate,
                output_rate: 5_000,
                input_rate: 60_000,
            },
        ]
    );
}

#[test]
fn add_parent_records_the_parent() {
    let mut node = RecipeNode::new(simple("Wire", Resource::CopperIngot, Resource::Wire, false));
    let id = node.uuid();
    node.add_parent(7);
    assert_eq!(node.parent(), Some(7));
    assert_eq!(node.uuid(), id);
    assert_eq!(node.recipe().name(), "Wire");
}

#[test]
fn with_uuid_keeps_the_identifier() {
    let node = RecipeNode::with_uuid(simple("Wire", Resource::CopperIngot, Resource::Wire, false), 42);
    assert_eq!(node.uuid(), 42);
}

#[test]
fn a_fresh_identifier_is_a_random_version_four_uuid() {
    let first = RecipeNode::new(simple("Wire", Resource::CopperIngot, Resource::Wire, false));
    let second = RecipeNode::new(simple("Wire", Resource::CopperIngot, Resource::Wire, false));
    for node in [&first, &second] {
        let uuid = uuid::Uuid::from_u128(node.uuid());
        assert_eq!(uuid.get_version_num(), 4);
        assert_eq!(node.uuid() & 0x0000_0000_0000_f000_c000_0000_0000_0000, 0x0000_0000_0000_4000_8000_0000_0000_0000);
    }
    assert_ne!(first.uuid(), second.uuid());
}

#[test]
fn the_nodes_of_a_tree_have_identifiers_of_their_own() {
    let (tree, _) = resolve(Resource::Motor);
    for i in 0..tree.len() {
        let id = tree.node(i).unwrap().uuid();
        assert_eq!(uuid::Uuid::from_u128(id).get_version_num(), 4);
        for j in 0..i {
            assert_ne!(id, tree.node(j).unwrap().uuid());
        }
    }
    assert!(tree.node(tree.len()).is_none());
}

#[test]
fn resolve_gives_the_tree_and_its_pipeline() {
    let (tree, pipeline) = resolve_standard(Resource::ReinforcedIronPlate).unwrap();
    assert_eq!(tree.len(), 5);
    assert_eq!(tree.entrypoints(), &vec![2, 4]);
    assert_eq!(pipeline.len(), 2);
    assert_eq!(pipeline.total_power(), 8);
    assert_eq!(tree.inputs().get(Resource::IronOre), Some(60_000));
}

#[test]
fn resolve_fails_as_build_does() {
    assert_eq!(
        resolve_standard(Resource::IronOre).err(),
        Some(ResolveError::ResourceUnresolved(Resource::IronOre))
    );
    assert_eq!(
        resolve_standard(Resource::TurboMotor).err(),
        Some(ResolveError::ResourceUnresolved(Resource::CoolingSystem))
    );
}

#[test]
fn a_quotient_is_in_thousandths_rounded_down() {
    let ratio = |output_rate, input_rate| Ratio {
        input: Resource::IronPlate,
        output: Resource::ReinforcedIronPlate,
        output_rate,
        input_rate,
    };
    assert_eq!(ratio(5_000, 30_000).quotient(), Some(166));
    assert_eq!(ratio(40_000, 10_000).quotient(), Some(4_000));
    assert_eq!(ratio(30_000, 30_000).quotient(), Some(1_000));
    assert_eq!(ratio(0, 7).quotient(), Some(0));
    assert_eq!(ratio(7, 0).quotient(), None);
    assert_eq!(ratio(u64::MAX, 1).quotient(), Some(u64::MAX as u128 * 1_000));
}
