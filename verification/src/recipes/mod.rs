//! Recipes and the catalog that resolves a resource to the recipe that makes
//! it.

pub mod catalog;
pub mod laws;
pub mod resolution;
pub mod tree;

use vstd::prelude::*;
use crate::items::{
    distinct_keys, has_key, key_index, keys, lemma_with_entry_distinct, lookup, position, put,
    with_entry, ItemMap,
};
use crate::machines::manufacturers::Category;
use crate::resources::Resource;

verus! {

/// What a recipe is, as plain values.
pub struct RecipeModel {
    pub name: Seq<char>,
    pub inputs: Seq<(Resource, u64)>,
    pub outputs: Seq<(Resource, u64)>,
    pub building: Category,
    pub alternative: bool,
    pub end: bool,
}

/// A named transformation of input resources into output resources, at fixed
/// rates, in one kind of production building.
#[derive(Debug)]
pub struct Recipe {
    name: String,
    input_items: ItemMap,
    output_items: ItemMap,
    production_building: Category,
    alternative: bool,
    end: bool,
}

impl View for Recipe {
    type V = RecipeModel;

    closed spec fn view(&self) -> RecipeModel {
        RecipeModel {
            name: self.name@,
            inputs: self.input_items@,
            outputs: self.output_items@,
            building: self.production_building,
            alternative: self.alternative,
            end: self.end,
        }
    }
}

impl Recipe {
    /// A recipe of the given name, rates, building and flags.
    pub fn new(
        name: &str,
        input_items: ItemMap,
        output_items: ItemMap,
        production_building: Category,
        alternative: bool,
        end: bool,
    ) -> (recipe: Recipe)
        ensures
            recipe@ == (RecipeModel {
                name: name@,
                inputs: input_items@,
                outputs: output_items@,
                building: production_building,
                alternative,
                end,
            }),
    {
        Recipe {
            name: name.to_owned(),
            input_items,
            output_items,
            production_building,
            alternative,
            end,
        }
    }

    /// The recipe's name.
    pub fn name(&self) -> (name: &str)
        ensures
            name@ == self@.name,
    {
        self.name.as_str()
    }

    /// Whether this is an alternative to the standard recipe.
    pub fn alternative(&self) -> (alternative: bool)
        ensures
            alternative == self@.alternative,
    {
        self.alternative
    }

    /// The rates at which the recipe consumes its inputs.
    pub fn input_items(&self) -> (items: &ItemMap)
        ensures
            items@ == self@.inputs,
    {
        &self.input_items
    }

    /// The rates at which the recipe produces its outputs.
    pub fn output_items(&self) -> (items: &ItemMap)
        ensures
            items@ == self@.outputs,
    {
        &self.output_items
    }

    /// The kind of building that runs the recipe.
    pub fn production_building(&self) -> (category: Category)
        ensures
            category == self@.building,
    {
        self.production_building
    }

    /// Whether the inputs are raw resources, so that nothing further has to
    /// be resolved.
    pub fn end(&self) -> (end: bool)
        ensures
            end == self@.end,
    {
        self.end
    }
}

impl Clone for Recipe {
    fn clone(&self) -> (copy: Recipe)
        ensures
            copy@ == self@,
    {
        Recipe {
            name: self.name.clone(),
            input_items: self.input_items.clone(),
            output_items: self.output_items.clone(),
            production_building: self.production_building,
            alternative: self.alternative,
            end: self.end,
        }
    }
}

/// Why a resource could not be resolved into a tree.
#[derive(Debug, Clone, Copy, PartialEq, Eq, Structural)]
pub enum ResolveError {
    /// The catalog has no recipe for this resource.
    ResourceUnresolved(Resource),
    /// This resource is needed to make itself.
    CyclicRecipeGraph(Resource),
}

impl ResolveError {
    /// The resource at which resolution stopped.
    pub fn resource(&self) -> (resource: Resource)
        ensures
            resource == match *self {
                ResolveError::ResourceUnresolved(r) => r,
                ResolveError::CyclicRecipeGraph(r) => r,
            },
    {
        match *self {
            ResolveError::ResourceUnresolved(r) => r,
            ResolveError::CyclicRecipeGraph(r) => r,
        }
    }

    /// A sentence that says what went wrong.
    pub fn message(&self) -> (text: &'static str)
        ensures
            text@ == match *self {
                ResolveError::ResourceUnresolved(_) => "Cannot find any recipes for the component"@,
                ResolveError::CyclicRecipeGraph(_) => "The component is needed to make itself"@,
            },
    {
        match *self {
            ResolveError::ResourceUnresolved(_) => "Cannot find any recipes for the component",
            ResolveError::CyclicRecipeGraph(_) => "The component is needed to make itself",
        }
    }
}

/// The recipes of a list, as plain values.
pub open spec fn models(list: Seq<Recipe>) -> Seq<RecipeModel> {
    list.map_values(|recipe: Recipe| recipe@)
}

/// `catalog` after `recipe` has been registered under each resource of
/// `outputs`: there it is now the only candidate, elsewhere nothing changes.
pub open spec fn registered_under(
    catalog: Map<Resource, Seq<RecipeModel>>,
    recipe: RecipeModel,
    outputs: Seq<(Resource, u64)>,
) -> Map<Resource, Seq<RecipeModel>> {
    Map::new(
        |r: Resource| catalog.dom().contains(r) || has_key(outputs, r),
        |r: Resource|
            if has_key(outputs, r) {
                seq![recipe]
            } else {
                catalog[r]
            },
    )
}

/// `catalog` after `recipe` has been registered: it is the only candidate for
/// every resource it produces, whatever was registered there before.
pub open spec fn registered(catalog: Map<Resource, Seq<RecipeModel>>, recipe: RecipeModel) -> Map<
    Resource,
    Seq<RecipeModel>,
> {
    registered_under(catalog, recipe, recipe.outputs)
}

/// The recipe that resolution uses for `resource`: the first candidate.
pub open spec fn canonical(catalog: Map<Resource, Seq<RecipeModel>>, resource: Resource)
    -> RecipeModel {
    catalog[resource][0]
}

/// The map from each listed resource to its candidates.
pub closed spec fn catalog_of(s: Seq<(Resource, Vec<Recipe>)>) -> Map<Resource, Seq<RecipeModel>> {
    Map::new(|r: Resource| has_key(s, r), |r: Resource| models(s[key_index(s, r)].1@))
}

/// Giving a resource its candidates changes the catalog at that resource
/// alone.
proof fn lemma_catalog_with_entry(
    s: Seq<(Resource, Vec<Recipe>)>,
    resource: Resource,
    list: Vec<Recipe>,
)
    requires
        distinct_keys(s),
    ensures
        catalog_of(with_entry(s, resource, list)) == catalog_of(s).insert(resource, models(list@)),
{
    lemma_with_entry_distinct(s, resource, list);
    let t = with_entry(s, resource, list);
    let target = catalog_of(s).insert(resource, models(list@));
    assert forall|r: Resource| catalog_of(t).dom().contains(r) == target.dom().contains(r) by {
        if r != resource {
            assert(lookup(t, r) == lookup(s, r));
        }
    }
    assert forall|r: Resource| catalog_of(t).dom().contains(r) implies catalog_of(t)[r]
        == target[r] by {
        if r != resource {
            assert(lookup(t, r) == lookup(s, r));
        }
    }
    assert(catalog_of(t) =~= target);
}

/// The lookup from each resource to the recipes that produce it.
#[derive(Debug)]
pub struct Recipes {
    lookup: Vec<(Resource, Vec<Recipe>)>,
}

impl View for Recipes {
    type V = Map<Resource, Seq<RecipeModel>>;

    closed spec fn view(&self) -> Map<Resource, Seq<RecipeModel>> {
        catalog_of(self.lookup@)
    }
}

impl Recipes {
    #[verifier::type_invariant]
    spec fn well_formed(self) -> bool {
        &&& distinct_keys(self.lookup@)
        &&& forall|i: int| 0 <= i < self.lookup@.len() ==> (#[trigger] self.lookup@[i]).1@.len() > 0
    }

    /// A catalog with no recipes.
    pub fn new() -> (recipes: Recipes)
        ensures
            recipes@ == Map::<Resource, Seq<RecipeModel>>::empty(),
    {
        let recipes = Recipes { lookup: Vec::new() };
        assert(recipes@ =~= Map::<Resource, Seq<RecipeModel>>::empty());
        recipes
    }

    /// Registers `recipe` under every resource it produces. Whatever was
    /// registered for such a resource before is replaced: the last recipe
    /// registered for a resource is the one that resolves it.
    pub fn add(&mut self, recipe: Recipe)
        ensures
            final(self)@ == registered(old(self)@, recipe@),
    {
        proof {
            use_type_invariant(&*self);
        }
        let mut lookup: Vec<(Resource, Vec<Recipe>)> = Vec::new();
        core::mem::swap(&mut self.lookup, &mut lookup);
        let outputs = recipe.output_items().entries();
        let ghost before = catalog_of(lookup@);
        let mut j: usize = 0;
        assert(catalog_of(lookup@) =~= registered_under(before, recipe@, outputs@.take(0)));
        while j < outputs.len()
            invariant
                j <= outputs.len(),
                outputs@ == recipe@.outputs,
                distinct_keys(lookup@),
                forall|i: int| 0 <= i < lookup@.len() ==> (#[trigger] lookup@[i]).1@.len() > 0,
                catalog_of(lookup@) == registered_under(before, recipe@, outputs@.take(j as int)),
            decreases outputs.len() - j,
        {
            let key = outputs[j].0;
            let mut list: Vec<Recipe> = Vec::new();
            list.push(recipe.clone());
            proof {
                lemma_catalog_with_entry(lookup@, key, list);
                lemma_with_entry_distinct(lookup@, key, list);
                assert(models(list@) =~= seq![recipe@]);
                let done = outputs@.take(j as int);
                let next = outputs@.take(j as int + 1);
                assert forall|r: Resource| has_key(next, r) == (has_key(done, r) || r == key) by {
                    if has_key(next, r) {
                        let i = key_index(next, r);
                        if i < j {
                            assert(done[i].0 == r);
                        }
                    }
                    if has_key(done, r) {
                        let i = key_index(done, r);
                        assert(next[i].0 == r);
                    }
                    if r == key {
                        assert(next[j as int].0 == r);
                    }
                }
                assert(registered_under(before, recipe@, next) =~= registered_under(
                    before,
                    recipe@,
                    done,
                ).insert(key, seq![recipe@]));
            }
            let ghost previous = lookup@;
            put(&mut lookup, key, list);
            proof {
                assert forall|i: int|
                    0 <= i < lookup@.len() implies (#[trigger] lookup@[i]).1@.len()
                    > 0 by {
                    if has_key(previous, key) {
                        if i != key_index(previous, key) {
                            assert(lookup@[i] == previous[i]);
                        }
                    } else if i < previous.len() {
                        assert(lookup@[i] == previous[i]);
                    }
                }
            }
            j += 1;
        }
        assert(outputs@.take(j as int) =~= outputs@);
        self.lookup = lookup;
    }

    /// The recipes registered for `recipe_name`, the one that resolution uses
    /// first; `ResourceUnresolved` when there is none.
    pub fn get_component_recipes(&self, recipe_name: Resource) -> (found: Result<
        &Vec<Recipe>,
        ResolveError,
    >)
        ensures
            match found {
                Ok(list) => self@.dom().contains(recipe_name) && models(list@) == self@[recipe_name]
                    && list@.len() > 0,
                Err(error) => !self@.dom().contains(recipe_name) && error
                    == ResolveError::ResourceUnresolved(recipe_name),
            },
    {
        proof {
            use_type_invariant(self);
        }
        match position(&self.lookup, recipe_name) {
            Some(i) => Ok(&self.lookup[i].1),
            None => Err(ResolveError::ResourceUnresolved(recipe_name)),
        }
    }

    /// A catalog lists finitely many resources.
    pub proof fn lemma_finite(&self)
        ensures
            self@.dom().finite(),
    {
        let listed = keys(self.lookup@);
        vstd::seq_lib::seq_to_set_is_finite(listed);
        assert forall|r: Resource| self@.dom().contains(r) == listed.to_set().contains(r) by {
            if has_key(self.lookup@, r) {
                let i = key_index(self.lookup@, r);
                assert(listed[i] == r);
            }
            if listed.to_set().contains(r) {
                let i = choose|i: int| 0 <= i < listed.len() && listed[i] == r;
                assert(self.lookup@[i].0 == r);
            }
        }
        assert(self@.dom() =~= listed.to_set());
    }
}

} // verus!
