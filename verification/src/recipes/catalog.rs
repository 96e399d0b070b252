//! The standard catalog: the recipes of the game, as a fixed table.
//!
//! Rates are in thousandths of an item per minute.

use vstd::prelude::*;
use crate::items::ItemMap;
use crate::machines::manufacturers::Category;
use crate::recipes::{registered, Recipe, RecipeModel, Recipes};
use crate::resources::Resource;

verus! {

/// A standard recipe, as plain values.
pub open spec fn standard(
    name: Seq<char>,
    inputs: Seq<(Resource, u64)>,
    outputs: Seq<(Resource, u64)>,
    building: Category,
    end: bool,
) -> RecipeModel {
    RecipeModel { name, inputs, outputs, building, alternative: false, end }
}

/// The recipe "Iron Ingot".
pub open spec fn iron_ingot() -> RecipeModel {
    standard(
        "Iron Ingot"@,
        seq![(Resource::IronOre, 30_000u64)],
        seq![(Resource::IronIngot, 30_000u64)],
        Category::Smelter,
        true,
    )
}

/// The recipe "Iron Plate".
pub open spec fn iron_plate() -> RecipeModel {
    standard(
        "Iron Plate"@,
        seq![(Resource::IronIngot, 30_000u64)],
        seq![(Resource::IronPlate, 20_000u64)],
        Category::Constructor,
        false,
    )
}

/// The recipe "Iron Rod".
pub open spec fn iron_rod() -> RecipeModel {
    standard(
        "Iron Rod"@,
        seq![(Resource::IronIngot, 15_000u64)],
        seq![(Resource::IronRod, 15_000u64)],
        Category::Constructor,
        false,
    )
}

/// The recipe "Screws".
pub open spec fn screws() -> RecipeModel {
    standard(
        "Screws"@,
        seq![(Resource::IronIngot, 10_000u64)],
        seq![(Resource::Screws, 40_000u64)],
        Category::Constructor,
        false,
    )
}

/// The recipe "Reinforced Iron Plate".
pub open spec fn reinforced_iron_plate() -> RecipeModel {
    standard(
        "Reinforced Iron Plate"@,
        seq![(Resource::IronPlate, 30_000u64), (Resource::Screws, 60_000u64)],
        seq![(Resource::ReinforcedIronPlate, 5_000u64)],
        Category::Assembler,
        false,
    )
}

/// The recipe "Copper Ingot".
pub open spec fn copper_ingot() -> RecipeModel {
    standard(
        "Copper Ingot"@,
        seq![(Resource::CopperOre, 30_000u64)],
        seq![(Resource::CopperIngot, 30_000u64)],
        Category::Smelter,
        true,
    )
}

/// The recipe "Copper Sheet".
pub open spec fn copper_sheet() -> RecipeModel {
    standard(
        "Copper Sheet"@,
        seq![(Resource::CopperIngot, 20_000u64)],
        seq![(Resource::CopperSheet, 10_000u64)],
        Category::Constructor,
        false,
    )
}

/// The recipe "Wire".
pub open spec fn wire() -> RecipeModel {
    standard(
        "Wire"@,
        seq![(Resource::CopperIngot, 15_000u64)],
        seq![(Resource::Wire, 30_000u64)],
        Category::Constructor,
        false,
    )
}

/// The recipe "Cable".
pub open spec fn cable() -> RecipeModel {
    standard(
        "Cable"@,
        seq![(Resource::Wire, 60_000u64)],
        seq![(Resource::Cable, 30_000u64)],
        Category::Constructor,
        false,
    )
}

/// The recipe "Concrete".
pub open spec fn concrete() -> RecipeModel {
    standard(
        "Concrete"@,
        seq![(Resource::Limestone, 45_000u64)],
        seq![(Resource::Concrete, 15_000u64)],
        Category::Constructor,
        true,
    )
}

/// The recipe "Biomass (Leaves)".
pub open spec fn biomass_from_leaves() -> RecipeModel {
    standard(
        "Biomass (Leaves)"@,
        seq![(Resource::Leaves, 120_000u64)],
        seq![(Resource::Biomass, 60_000u64)],
        Category::Constructor,
        true,
    )
}

/// The recipe "Biomass (Wood)".
pub open spec fn biomass_from_wood() -> RecipeModel {
    standard(
        "Biomass (Wood)"@,
        seq![(Resource::Wood, 60_000u64)],
        seq![(Resource::Biomass, 300_000u64)],
        Category::Constructor,
        true,
    )
}

/// The recipe "Biomass (Alien Protein)".
pub open spec fn biomass_from_alien_protein() -> RecipeModel {
    standard(
        "Biomass (Alien Protein)"@,
        seq![(Resource::AlienProtein, 15_000u64)],
        seq![(Resource::Biomass, 1_500_000u64)],
        Category::Constructor,
        true,
    )
}

/// The recipe "Solid Biofuel".
pub open spec fn solid_biofuel() -> RecipeModel {
    standard(
        "Solid Biofuel"@,
        seq![(Resource::Biomass, 120_000u64)],
        seq![(Resource::SolidBiofuel, 60_000u64)],
        Category::Constructor,
        false,
    )
}

/// The recipe "Quartz Crystal".
pub open spec fn quartz_crystal() -> RecipeModel {
    standard(
        "Quartz Crystal"@,
        seq![(Resource::QuartzOre, 37_500u64)],
        seq![(Resource::QuartzCrystal, 22_500u64)],
        Category::Constructor,
        true,
    )
}

/// The recipe "Silica".
pub open spec fn silica() -> RecipeModel {
    standard(
        "Silica"@,
        seq![(Resource::QuartzOre, 22_500u64)],
        seq![(Resource::QuartzCrystal, 37_500u64)],
        Category::Constructor,
        true,
    )
}

/// The recipe "Caterium Ingot".
pub open spec fn caterium_ingot() -> RecipeModel {
    standard(
        "Caterium Ingot"@,
        seq![(Resource::CateriumOre, 45_000u64)],
        seq![(Resource::CateriumIngot, 15_000u64)],
        Category::Smelter,
        true,
    )
}

/// The recipe "Quickwire".
pub open spec fn quickwire() -> RecipeModel {
    standard(
        "Quickwire"@,
        seq![(Resource::CateriumIngot, 12_000u64)],
        seq![(Resource::Quickwire, 60_000u64)],
        Category::Constructor,
        false,
    )
}

/// The recipe "Steel Ingot".
pub open spec fn steel_ingot() -> RecipeModel {
    standard(
        "Steel Ingot"@,
        seq![(Resource::IronOre, 45_000u64), (Resource::Coal, 45_000u64)],
        seq![(Resource::SteelIngot, 45_000u64)],
        Category::Foundry,
        true,
    )
}

/// The recipe "Steel Pipe".
pub open spec fn steel_pipe() -> RecipeModel {
    standard(
        "Steel Pipe"@,
        seq![(Resource::SteelIngot, 30_000u64)],
        seq![(Resource::SteelPipe, 20_000u64)],
        Category::Constructor,
        false,
    )
}

/// The recipe "Steel Beam".
pub open spec fn steel_beam() -> RecipeModel {
    standard(
        "Steel Beam"@,
        seq![(Resource::SteelIngot, 60_000u64)],
        seq![(Resource::SteelBeam, 15_000u64)],
        Category::Constructor,
        false,
    )
}

/// The recipe "Encased Industrial Beam".
pub open spec fn encased_industrial_beam() -> RecipeModel {
    standard(
        "Encased Industrial Beam"@,
        seq![(Resource::SteelBeam, 24_000u64), (Resource::Concrete, 30_000u64)],
        seq![(Resource::EncasedIndustrialBeam, 6_000u64)],
        Category::Assembler,
        false,
    )
}

/// The recipe "Modular Frame".
pub open spec fn modular_frame() -> RecipeModel {
    standard(
        "Modular Frame"@,
        seq![(Resource::ReinforcedIronPlate, 3_000u64), (Resource::IronRod, 12_000u64)],
        seq![(Resource::ModularFrame, 2_000u64)],
        Category::Assembler,
        false,
    )
}

/// The recipe "Heavy Modular Frame".
pub open spec fn heavy_modular_frame() -> RecipeModel {
    standard(
        "Heavy Modular Frame"@,
        seq![
            (Resource::ModularFrame, 10_000u64),
            (Resource::EncasedIndustrialBeam, 10_000u64),
            (Resource::SteelPipe, 30_000u64),
            (Resource::Screws, 200_000u64),
        ],
        seq![(Resource::HeavyModularFrame, 2_000u64)],
        Category::Manufacturer,
        false,
    )
}

/// The recipe "Rotor".
pub open spec fn rotor() -> RecipeModel {
    standard(
        "Rotor"@,
        seq![(Resource::IronRod, 20_000u64), (Resource::Screws, 100_000u64)],
        seq![(Resource::Rotor, 4_000u64)],
        Category::Assembler,
        false,
    )
}

/// The recipe "Stator".
pub open spec fn stator() -> RecipeModel {
    standard(
        "Stator"@,
        seq![(Resource::SteelPipe, 15_000u64), (Resource::Wire, 40_000u64)],
        seq![(Resource::Stator, 5_000u64)],
        Category::Assembler,
        false,
    )
}

/// The recipe "Motor".
pub open spec fn motor() -> RecipeModel {
    standard(
        "Motor"@,
        seq![(Resource::Rotor, 10_000u64), (Resource::Stator, 10_000u64)],
        seq![(Resource::Motor, 5_000u64)],
        Category::Assembler,
        false,
    )
}

/// The recipe "Turbo Motor".
pub open spec fn turbo_motor() -> RecipeModel {
    standard(
        "Turbo Motor"@,
        seq![
            (Resource::Motor, 7_500u64),
            (Resource::CoolingSystem, 7_500u64),
            (Resource::RadioControlUnit, 3_750u64),
            (Resource::Rubber, 45_000u64),
        ],
        seq![(Resource::TurboMotor, 1_875u64)],
        Category::Assembler,
        false,
    )
}

/// `catalog` after the iron recipes have been registered, in the order of the
/// table.
pub open spec fn with_iron(catalog: Map<Resource, Seq<RecipeModel>>) -> Map<
    Resource,
    Seq<RecipeModel>,
> {
    let catalog = registered(catalog, iron_ingot());
    let catalog = registered(catalog, iron_plate());
    let catalog = registered(catalog, iron_rod());
    let catalog = registered(catalog, screws());
    registered(catalog, reinforced_iron_plate())
}

/// `catalog` after the copper recipes have been registered, in the order of the
/// table.
pub open spec fn with_copper(catalog: Map<Resource, Seq<RecipeModel>>) -> Map<
    Resource,
    Seq<RecipeModel>,
> {
    let catalog = registered(catalog, copper_ingot());
    let catalog = registered(catalog, copper_sheet());
    let catalog = registered(catalog, wire());
    registered(catalog, cable())
}

/// `catalog` after the concrete recipes have been registered, in the order of the
/// table.
pub open spec fn with_concrete(catalog: Map<Resource, Seq<RecipeModel>>) -> Map<
    Resource,
    Seq<RecipeModel>,
> {
    registered(catalog, concrete())
}

/// `catalog` after the biofuel recipes have been registered, in the order of the
/// table.
pub open spec fn with_biofuel(catalog: Map<Resource, Seq<RecipeModel>>) -> Map<
    Resource,
    Seq<RecipeModel>,
> {
    let catalog = registered(catalog, biomass_from_leaves());
    let catalog = registered(catalog, biomass_from_wood());
    let catalog = registered(catalog, biomass_from_alien_protein());
    registered(catalog, solid_biofuel())
}

/// `catalog` after the quartz recipes have been registered, in the order of the
/// table.
pub open spec fn with_quartz(catalog: Map<Resource, Seq<RecipeModel>>) -> Map<
    Resource,
    Seq<RecipeModel>,
> {
    let catalog = registered(catalog, quartz_crystal());
    registered(catalog, silica())
}

/// `catalog` after the caterium recipes have been registered, in the order of the
/// table.
pub open spec fn with_caterium(catalog: Map<Resource, Seq<RecipeModel>>) -> Map<
    Resource,
    Seq<RecipeModel>,
> {
    let catalog = registered(catalog, caterium_ingot());
    registered(catalog, quickwire())
}

/// `catalog` after the steel recipes have been registered, in the order of the
/// table.
pub open spec fn with_steel(catalog: Map<Resource, Seq<RecipeModel>>) -> Map<
    Resource,
    Seq<RecipeModel>,
> {
    let catalog = registered(catalog, steel_ingot());
    let catalog = registered(catalog, steel_pipe());
    let catalog = registered(catalog, steel_beam());
    registered(catalog, encased_industrial_beam())
}

/// `catalog` after the frame recipes have been registered, in the order of the
/// table.
pub open spec fn with_frames(catalog: Map<Resource, Seq<RecipeModel>>) -> Map<
    Resource,
    Seq<RecipeModel>,
> {
    let catalog = registered(catalog, modular_frame());
    registered(catalog, heavy_modular_frame())
}

/// `catalog` after the motor recipes have been registered, in the order of the
/// table.
pub open spec fn with_motors(catalog: Map<Resource, Seq<RecipeModel>>) -> Map<
    Resource,
    Seq<RecipeModel>,
> {
    let catalog = registered(catalog, rotor());
    let catalog = registered(catalog, stator());
    let catalog = registered(catalog, motor());
    registered(catalog, turbo_motor())
}

/// The standard catalog: every group of recipes registered in turn. Where
/// two recipes produce one resource, the one registered last resolves it.
pub open spec fn standard_catalog() -> Map<Resource, Seq<RecipeModel>> {
    let catalog = Map::<Resource, Seq<RecipeModel>>::empty();
    let catalog = with_iron(catalog);
    let catalog = with_copper(catalog);
    let catalog = with_concrete(catalog);
    let catalog = with_biofuel(catalog);
    let catalog = with_quartz(catalog);
    let catalog = with_caterium(catalog);
    let catalog = with_steel(catalog);
    let catalog = with_frames(catalog);
    with_motors(catalog)
}

/// A map with one rate.
fn one(a: (Resource, u64)) -> (items: ItemMap)
    ensures
        items@ == seq![a],
{
    let pairs = vec![a];
    assert(pairs@ =~= seq![a]);
    ItemMap::from_pairs(pairs)
}

/// A map with the rates of two resources.
fn two(a: (Resource, u64), b: (Resource, u64)) -> (items: ItemMap)
    requires
        a.0 != b.0,
    ensures
        items@ == seq![a, b],
{
    let pairs = vec![a, b];
    assert(pairs@ =~= seq![a, b]);
    ItemMap::from_pairs(pairs)
}

/// A map with the rates of four resources.
fn four(a: (Resource, u64), b: (Resource, u64), c: (Resource, u64), d: (Resource, u64)) -> (items:
    ItemMap)
    requires
        a.0 != b.0,
        a.0 != c.0,
        a.0 != d.0,
        b.0 != c.0,
        b.0 != d.0,
        c.0 != d.0,
    ensures
        items@ == seq![a, b, c, d],
{
    let pairs = vec![a, b, c, d];
    assert(pairs@ =~= seq![a, b, c, d]);
    ItemMap::from_pairs(pairs)
}

impl Recipes {
    /// The standard catalog.
    pub fn build() -> (recipes: Recipes)
        ensures
            recipes@ == standard_catalog(),
    {
        let mut s = Recipes::new();
        Recipes::build_iron(&mut s);
        Recipes::build_copper(&mut s);
        Recipes::build_concrete(&mut s);
        Recipes::build_biofuel(&mut s);
        Recipes::build_quartz(&mut s);
        Recipes::build_caterium(&mut s);
        Recipes::build_steel(&mut s);
        Recipes::build_frames(&mut s);
        Recipes::build_motors(&mut s);
        s
    }

    /// Registers the iron recipes.
    fn build_iron(recipes: &mut Recipes)
        ensures
            final(recipes)@ == with_iron(old(recipes)@),
    {
        recipes.add(
            Recipe::new(
                "Iron Ingot",
                one((Resource::IronOre, 30_000)),
                one((Resource::IronIngot, 30_000)),
                Category::Smelter,
                false,
                true,
            ),
        );
        recipes.add(
            Recipe::new(
                "Iron Plate",
                one((Resource::IronIngot, 30_000)),
                one((Resource::IronPlate, 20_000)),
                Category::Constructor,
                false,
                false,
            ),
        );
        recipes.add(
            Recipe::new(
                "Iron Rod",
                one((Resource::IronIngot, 15_000)),
                one((Resource::IronRod, 15_000)),
                Category::Constructor,
                false,
                false,
            ),
        );
        recipes.add(
            Recipe::new(
                "Screws",
                one((Resource::IronIngot, 10_000)),
                one((Resource::Screws, 40_000)),
                Category::Constructor,
                false,
                false,
            ),
        );
        recipes.add(
            Recipe::new(
                "Reinforced Iron Plate",
                two((Resource::IronPlate, 30_000), (Resource::Screws, 60_000)),
                one((Resource::ReinforcedIronPlate, 5_000)),
                Category::Assembler,
                false,
                false,
            ),
        );
    }

    /// Registers the copper recipes.
    fn build_copper(recipes: &mut Recipes)
        ensures
            final(recipes)@ == with_copper(old(recipes)@),
    {
        recipes.add(
            Recipe::new(
                "Copper Ingot",
                one((Resource::CopperOre, 30_000)),
                one((Resource::CopperIngot, 30_000)),
                Category::Smelter,
                false,
                true,
            ),
        );
        recipes.add(
            Recipe::new(
                "Copper Sheet",
                one((Resource::CopperIngot, 20_000)),
                one((Resource::CopperSheet, 10_000)),
                Category::Constructor,
                false,
                false,
            ),
        );
        recipes.add(
            Recipe::new(
                "Wire",
                one((Resource::CopperIngot, 15_000)),
                one((Resource::Wire, 30_000)),
                Category::Constructor,
                false,
                false,
            ),
        );
        recipes.add(
            Recipe::new(
                "Cable",
                one((Resource::Wire, 60_000)),
                one((Resource::Cable, 30_000)),
                Category::Constructor,
                false,
                false,
            ),
        );
    }

    /// Registers the concrete recipes.
    fn build_concrete(recipes: &mut Recipes)
        ensures
            final(recipes)@ == with_concrete(old(recipes)@),
    {
        recipes.add(
            Recipe::new(
                "Concrete",
                one((Resource::Limestone, 45_000)),
                one((Resource::Concrete, 15_000)),
                Category::Constructor,
                false,
                true,
            ),
        );
    }

    /// Registers the biofuel recipes.
    fn build_biofuel(recipes: &mut Recipes)
        ensures
            final(recipes)@ == with_biofuel(old(recipes)@),
    {
        recipes.add(
            Recipe::new(
                "Biomass (Leaves)",
                one((Resource::Leaves, 120_000)),
                one((Resource::Biomass, 60_000)),
                Category::Constructor,
                false,
                true,
            ),
        );
        recipes.add(
            Recipe::new(
                "Biomass (Wood)",
                one((Resource::Wood, 60_000)),
                one((Resource::Biomass, 300_000)),
                Category::Constructor,
                false,
                true,
            ),
        );
        recipes.add(
            Recipe::new(
                "Biomass (Alien Protein)",
                one((Resource::AlienProtein, 15_000)),
                one((Resource::Biomass, 1_500_000)),
                Category::Constructor,
                false,
                true,
            ),
        );
        recipes.add(
            Recipe::new(
                "Solid Biofuel",
                one((Resource::Biomass, 120_000)),
                one((Resource::SolidBiofuel, 60_000)),
                Category::Constructor,
                false,
                false,
            ),
        );
    }

    /// Registers the quartz recipes.
    fn build_quartz(recipes: &mut Recipes)
        ensures
            final(recipes)@ == with_quartz(old(recipes)@),
    {
        recipes.add(
            Recipe::new(
                "Quartz Crystal",
                one((Resource::QuartzOre, 37_500)),
                one((Resource::QuartzCrystal, 22_500)),
                Category::Constructor,
                false,
                true,
            ),
        );
        recipes.add(
            Recipe::new(
                "Silica",
                one((Resource::QuartzOre, 22_500)),
                one((Resource::QuartzCrystal, 37_500)),
                Category::Constructor,
                false,
                true,
            ),
        );
    }

    /// Registers the caterium recipes.
    fn build_caterium(recipes: &mut Recipes)
        ensures
            final(recipes)@ == with_caterium(old(recipes)@),
    {
        recipes.add(
            Recipe::new(
                "Caterium Ingot",
                one((Resource::CateriumOre, 45_000)),
                one((Resource::CateriumIngot, 15_000)),
                Category::Smelter,
                false,
                true,
            ),
        );
        recipes.add(
            Recipe::new(
                "Quickwire",
                one((Resource::CateriumIngot, 12_000)),
                one((Resource::Quickwire, 60_000)),
                Category::Constructor,
                false,
                false,
            ),
        );
    }

    /// Registers the steel recipes.
    fn build_steel(recipes: &mut Recipes)
        ensures
            final(recipes)@ == with_steel(old(recipes)@),
    {
        recipes.add(
            Recipe::new(
                "Steel Ingot",
                two((Resource::IronOre, 45_000), (Resource::Coal, 45_000)),
                one((Resource::SteelIngot, 45_000)),
                Category::Foundry,
                false,
                true,
            ),
        );
        recipes.add(
            Recipe::new(
                "Steel Pipe",
                one((Resource::SteelIngot, 30_000)),
                one((Resource::SteelPipe, 20_000)),
                Category::Constructor,
                false,
                false,
            ),
        );
        recipes.add(
            Recipe::new(
                "Steel Beam",
                one((Resource::SteelIngot, 60_000)),
                one((Resource::SteelBeam, 15_000)),
                Category::Constructor,
                false,
                false,
            ),
        );
        recipes.add(
            Recipe::new(
                "Encased Industrial Beam",
                two((Resource::SteelBeam, 24_000), (Resource::Concrete, 30_000)),
                one((Resource::EncasedIndustrialBeam, 6_000)),
                Category::Assembler,
                false,
                false,
            ),
        );
    }

    /// Registers the frame recipes.
    fn build_frames(recipes: &mut Recipes)
        ensures
            final(recipes)@ == with_frames(old(recipes)@),
    {
        recipes.add(
            Recipe::new(
                "Modular Frame",
                two((Resource::ReinforcedIronPlate, 3_000), (Resource::IronRod, 12_000)),
                one((Resource::ModularFrame, 2_000)),
                Category::Assembler,
                false,
                false,
            ),
        );
        recipes.add(
            Recipe::new(
                "Heavy Modular Frame",
                four(
                    (Resource::ModularFrame, 10_000),
                    (Resource::EncasedIndustrialBeam, 10_000),
                    (Resource::SteelPipe, 30_000),
                    (Resource::Screws, 200_000),
                ),
                one((Resource::HeavyModularFrame, 2_000)),
                Category::Manufacturer,
                false,
                false,
            ),
        );
    }

    /// Registers the motor recipes.
    fn build_motors(recipes: &mut Recipes)
        ensures
            final(recipes)@ == with_motors(old(recipes)@),
    {
        recipes.add(
            Recipe::new(
                "Rotor",
                two((Resource::IronRod, 20_000), (Resource::Screws, 100_000)),
                one((Resource::Rotor, 4_000)),
                Category::Assembler,
                false,
                false,
            ),
        );
        recipes.add(
            Recipe::new(
                "Stator",
                two((Resource::SteelPipe, 15_000), (Resource::Wire, 40_000)),
                one((Resource::Stator, 5_000)),
                Category::Assembler,
                false,
                false,
            ),
        );
        recipes.add(
            Recipe::new(
                "Motor",
                two((Resource::Rotor, 10_000), (Resource::Stator, 10_000)),
                one((Resource::Motor, 5_000)),
                Category::Assembler,
                false,
                false,
            ),
        );
        recipes.add(
            Recipe::new(
                "Turbo Motor",
                four(
                    (Resource::Motor, 7_500),
                    (Resource::CoolingSystem, 7_500),
                    (Resource::RadioControlUnit, 3_750),
                    (Resource::Rubber, 45_000),
                ),
                one((Resource::TurboMotor, 1_875)),
                Category::Assembler,
                false,
                false,
            ),
        );
    }
}

} // verus!
