//! Production buildings: their categories, their power draw, and the
//! buildings that a resolved tree asks for.

use vstd::prelude::*;
use crate::recipes::{Recipe, RecipeModel};

verus! {

/// The kinds of production building.
#[derive(Debug, Clone, Copy, PartialEq, Eq, Hash, Structural)]
pub enum Category {
    Assembler,
    Blender,
    Constructor,
    Foundry,
    Manufacturer,
    Packager,
    ParticleAccelerator,
    Refinery,
    Smelter,
}

/// The power, in megawatts, that one building of a category draws at its
/// rated clock speed.
pub open spec fn rated_power(category: Category) -> nat {
    match category {
        Category::Assembler => 15,
        Category::Blender => 75,
        Category::Constructor => 4,
        Category::Foundry => 16,
        Category::Manufacturer => 55,
        Category::Packager => 10,
        Category::ParticleAccelerator => 1500,
        Category::Refinery => 30,
        Category::Smelter => 4,
    }
}

/// A crafting machine described by its category and the power it draws.
#[derive(Debug)]
pub struct Manufacturer {
    category: Category,
    power_usage: i16,
}

impl Manufacturer {
    /// The machine's category.
    pub closed spec fn spec_category(&self) -> Category {
        self.category
    }

    /// The power the machine draws, in megawatts.
    pub closed spec fn spec_power_usage(&self) -> i16 {
        self.power_usage
    }

    /// A machine of the given category and power draw.
    pub fn new(category: Category, power_usage: i16) -> (machine: Manufacturer)
        ensures
            machine.category() == category,
            machine.power_usage() == power_usage,
    {
        Manufacturer { category, power_usage }
    }

    /// An assembler at its rated power.
    pub fn assembler() -> (machine: Manufacturer)
        ensures
            machine.category() == Category::Assembler,
            machine.power_usage() == 15,
            machine.power_usage() == rated_power(Category::Assembler),
    {
        Manufacturer { category: Category::Assembler, power_usage: 15 }
    }

    /// A blender at its rated power.
    pub fn blender() -> (machine: Manufacturer)
        ensures
            machine.category() == Category::Blender,
            machine.power_usage() == 75,
            machine.power_usage() == rated_power(Category::Blender),
    {
        Manufacturer { category: Category::Blender, power_usage: 75 }
    }

    /// A constructor at its rated power.
    pub fn constructor() -> (machine: Manufacturer)
        ensures
            machine.category() == Category::Constructor,
            machine.power_usage() == 4,
            machine.power_usage() == rated_power(Category::Constructor),
    {
        Manufacturer { category: Category::Constructor, power_usage: 4 }
    }

    /// A manufacturer at its rated power.
    pub fn manufacturer() -> (machine: Manufacturer)
        ensures
            machine.category() == Category::Manufacturer,
            machine.power_usage() == 55,
            machine.power_usage() == rated_power(Category::Manufacturer),
    {
        Manufacturer { category: Category::Manufacturer, power_usage: 55 }
    }

    /// A packager at its rated power.
    pub fn packager() -> (machine: Manufacturer)
        ensures
            machine.category() == Category::Packager,
            machine.power_usage() == 10,
            machine.power_usage() == rated_power(Category::Packager),
    {
        Manufacturer { category: Category::Packager, power_usage: 10 }
    }

    /// A particle accelerator at its rated power.
    pub fn particle_accelerator() -> (machine: Manufacturer)
        ensures
            machine.category() == Category::ParticleAccelerator,
            machine.power_usage() == 1500,
            machine.power_usage() == rated_power(Category::ParticleAccelerator),
    {
        Manufacturer { category: Category::ParticleAccelerator, power_usage: 1500 }
    }

    /// A refinery at its rated power.
    pub fn refinery() -> (machine: Manufacturer)
        ensures
            machine.category() == Category::Refinery,
            machine.power_usage() == 30,
            machine.power_usage() == rated_power(Category::Refinery),
    {
        Manufacturer { category: Category::Refinery, power_usage: 30 }
    }

    /// The machine's category.
    #[verifier::when_used_as_spec(spec_category)]
    pub fn category(&self) -> (category: Category)
        ensures
            category == self.spec_category(),
    {
        self.category
    }

    /// The power the machine draws, in megawatts.
    #[verifier::when_used_as_spec(spec_power_usage)]
    pub fn power_usage(&self) -> (power: i16)
        ensures
            power == self.spec_power_usage(),
    {
        self.power_usage
    }
}

/// What a production building is, as plain values.
pub struct BuildingModel {
    pub category: Category,
    pub power_usage: nat,
    pub recipe: RecipeModel,
    pub amount: nat,
}

/// The building that `ProductionBuilding::from_category` makes for a recipe.
pub open spec fn building_for(category: Category, recipe: RecipeModel) -> BuildingModel {
    BuildingModel { category, power_usage: rated_power(category), recipe, amount: 0 }
}

/// A production building set to run one recipe.
#[derive(Debug)]
pub struct ProductionBuilding {
    pub category: Category,
    pub power_usage: usize,
    pub recipe: Recipe,
    pub amount: usize,
}

impl View for ProductionBuilding {
    type V = BuildingModel;

    open spec fn view(&self) -> BuildingModel {
        BuildingModel {
            category: self.category,
            power_usage: self.power_usage as nat,
            recipe: self.recipe@,
            amount: self.amount as nat,
        }
    }
}

impl ProductionBuilding {
    /// A building with every field given.
    pub fn new(category: Category, power_usage: usize, recipe: Recipe, amount: usize) -> (building:
        ProductionBuilding)
        ensures
            building@ == (BuildingModel {
                category,
                power_usage: power_usage as nat,
                recipe: recipe@,
                amount: amount as nat,
            }),
    {
        ProductionBuilding { category, power_usage, recipe, amount }
    }

    /// A building of `category` at its rated power, running `recipe`, with no
    /// machines counted yet.
    pub fn from_category(category: Category, recipe: Recipe) -> (building: ProductionBuilding)
        ensures
            building@ == building_for(category, recipe@),
    {
        match category {
            Category::Assembler => ProductionBuilding {
                category,
                power_usage: 15,
                recipe,
                amount: 0,
            },
            Category::Blender => ProductionBuilding {
                category,
                power_usage: 75,
                recipe,
                amount: 0,
            },
            Category::Constructor => ProductionBuilding {
                category,
                power_usage: 4,
                recipe,
                amount: 0,
            },
            Category::Foundry => ProductionBuilding {
                category,
                power_usage: 16,
                recipe,
                amount: 0,
            },
            Category::Manufacturer => ProductionBuilding {
                category,
                power_usage: 55,
                recipe,
                amount: 0,
            },
            Category::Packager => ProductionBuilding {
                category,
                power_usage: 10,
                recipe,
                amount: 0,
            },
            Category::ParticleAccelerator => ProductionBuilding {
                category,
                power_usage: 1500,
                recipe,
                amount: 0,
            },
            Category::Refinery => ProductionBuilding {
                category,
                power_usage: 30,
                recipe,
                amount: 0,
            },
            Category::Smelter => ProductionBuilding {
                category,
                power_usage: 4,
                recipe,
                amount: 0,
            },
        }
    }
}

impl Clone for ProductionBuilding {
    fn clone(&self) -> (copy: ProductionBuilding)
        ensures
            copy@ == self@,
    {
        ProductionBuilding {
            category: self.category,
            power_usage: self.power_usage,
            recipe: self.recipe.clone(),
            amount: self.amount,
        }
    }
}

} // verus!
