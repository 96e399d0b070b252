//! What resolving a resource means: the tree that it yields, as a list of
//! nodes, and the totals, entrypoints and buildings that belong to a list of
//! nodes.

use vstd::prelude::*;
use crate::items::{amount_of, has_key, lemma_amount_of_absent, merged};
use crate::machines::manufacturers::{building_for, BuildingModel};
use crate::recipes::tree::Ratio;
use crate::recipes::{canonical, RecipeModel, ResolveError};
use crate::resources::Resource;

verus! {

/// What a node of a tree is, as plain values. A node is named by its index
/// in the tree's list of nodes.
pub struct NodeModel {
    pub recipe: RecipeModel,
    pub calculations: Seq<Ratio>,
    pub parent: Option<nat>,
    pub children: Seq<nat>,
}

/// The ratios of one input to every output, in the order of the outputs.
pub open spec fn ratio_row(input: (Resource, u64), outputs: Seq<(Resource, u64)>) -> Seq<Ratio> {
    Seq::new(
        outputs.len(),
        |j: int|
            Ratio {
                input: input.0,
                output: outputs[j].0,
                output_rate: outputs[j].1,
                input_rate: input.1,
            },
    )
}

/// The ratios of every input to every output: one row for each input, in the
/// order of the inputs.
pub open spec fn ratio_table(inputs: Seq<(Resource, u64)>, outputs: Seq<(Resource, u64)>) -> Seq<
    Ratio,
>
    decreases inputs.len(),
{
    if inputs.len() == 0 {
        Seq::empty()
    } else {
        ratio_table(inputs.drop_last(), outputs) + ratio_row(inputs.last(), outputs)
    }
}

/// The node that stands for `recipe` below `parent`, with the given children.
pub open spec fn node_for(recipe: RecipeModel, parent: Option<nat>, children: Seq<nat>)
    -> NodeModel {
    NodeModel {
        recipe,
        calculations: ratio_table(recipe.inputs, recipe.outputs),
        parent,
        children,
    }
}

/// The node at position `i` of `nodes`, a list that starts at index `base`,
/// is tied to the nodes below it: it has the ratios of its recipe; a terminal
/// node has no children and any other has one child for each input of its
/// recipe; and every child lies further on in the list and names the node as
/// its parent.
pub open spec fn tied(nodes: Seq<NodeModel>, base: nat, i: int) -> bool {
    let node = nodes[i];
    &&& node.calculations == ratio_table(node.recipe.inputs, node.recipe.outputs)
    &&& node.children.len() == if node.recipe.end {
        0
    } else {
        node.recipe.inputs.len()
    }
    &&& forall|k: int|
        0 <= k < node.children.len() ==> {
            let child = #[trigger] node.children[k];
            &&& base + i < child < base + nodes.len()
            &&& nodes[child - base].parent == Some((base + i) as nat)
        }
}

/// The recipes of a list of nodes, in order.
pub open spec fn recipes_of(nodes: Seq<NodeModel>) -> Seq<RecipeModel> {
    nodes.map_values(|node: NodeModel| node.recipe)
}

/// The nodes that resolving `resource` adds to a list that already holds
/// `base` nodes, below the node `parent`, while the resources of `visiting`
/// are being resolved further up.
///
/// The first node stands for the canonical recipe of `resource`. Unless that
/// recipe is terminal, the nodes for its inputs follow, input by input, each
/// with everything below it. Resolution fails at the first resource, in that
/// order, that has no recipe or that is needed to make itself.
pub open spec fn subtree(
    catalog: Map<Resource, Seq<RecipeModel>>,
    resource: Resource,
    visiting: Set<Resource>,
    base: nat,
    parent: Option<nat>,
) -> Result<Seq<NodeModel>, ResolveError>
    decreases catalog.dom().difference(visiting).len(), 0nat, 0nat,
    when catalog.dom().finite()
{
    if !catalog.dom().contains(resource) {
        Err(ResolveError::ResourceUnresolved(resource))
    } else if visiting.contains(resource) {
        Err(ResolveError::CyclicRecipeGraph(resource))
    } else {
        let recipe = canonical(catalog, resource);
        if recipe.end {
            Ok(seq![node_for(recipe, parent, Seq::empty())])
        } else {
            proof {
                lemma_visit_decreases(catalog.dom(), visiting, resource);
            }
            match forest(
                catalog,
                recipe.inputs,
                recipe.inputs.len(),
                visiting.insert(resource),
                base + 1,
                base,
            ) {
                Ok((below, roots)) => Ok(seq![node_for(recipe, parent, roots)] + below),
                Err(error) => Err(error),
            }
        }
    }
}

/// The nodes for the first `count` of `inputs`, added to a list that already
/// holds `base` nodes, below the node `parent`; and the indices at which the
/// `count` subtrees start.
pub open spec fn forest(
    catalog: Map<Resource, Seq<RecipeModel>>,
    inputs: Seq<(Resource, u64)>,
    count: nat,
    visiting: Set<Resource>,
    base: nat,
    parent: nat,
) -> Result<(Seq<NodeModel>, Seq<nat>), ResolveError>
    decreases catalog.dom().difference(visiting).len(), 1nat, count,
    when catalog.dom().finite()
{
    if count == 0 || count > inputs.len() {
        Ok((Seq::empty(), Seq::empty()))
    } else {
        match forest(catalog, inputs, (count - 1) as nat, visiting, base, parent) {
            Err(error) => Err(error),
            Ok((nodes, roots)) => match subtree(
                catalog,
                inputs[count - 1].0,
                visiting,
                base + nodes.len(),
                Some(parent),
            ) {
                Err(error) => Err(error),
                Ok(next) => Ok((nodes + next, roots.push(base + nodes.len()))),
            },
        }
    }
}

/// The tree that makes `resource` from the recipes of `catalog`, as the list
/// of its nodes: the root first, every node before the nodes below it. It is
/// defined for a catalog of finitely many resources, as every `Recipes` is.
pub open spec fn resolution(catalog: Map<Resource, Seq<RecipeModel>>, resource: Resource) -> Result<
    Seq<NodeModel>,
    ResolveError,
> {
    subtree(catalog, resource, Set::empty(), 0, None)
}

/// Visiting one more resource of a finite catalog leaves fewer to visit.
pub proof fn lemma_visit_decreases(
    known: Set<Resource>,
    visiting: Set<Resource>,
    resource: Resource,
)
    requires
        known.finite(),
        known.contains(resource),
        !visiting.contains(resource),
    ensures
        known.difference(visiting.insert(resource)).len() < known.difference(visiting).len(),
{
    let left = known.difference(visiting);
    assert(left.finite());
    assert(left.contains(resource));
    assert(known.difference(visiting.insert(resource)) =~= left.remove(resource));
}

/// An error in the first inputs of a recipe is the error of all its inputs.
pub proof fn lemma_forest_error(
    catalog: Map<Resource, Seq<RecipeModel>>,
    inputs: Seq<(Resource, u64)>,
    failed: nat,
    count: nat,
    visiting: Set<Resource>,
    base: nat,
    parent: nat,
)
    requires
        catalog.dom().finite(),
        failed <= count <= inputs.len(),
        forest(catalog, inputs, failed, visiting, base, parent) is Err,
    ensures
        forest(catalog, inputs, count, visiting, base, parent) == forest(
            catalog,
            inputs,
            failed,
            visiting,
            base,
            parent,
        ),
    decreases count - failed,
{
    if failed < count {
        lemma_forest_error(catalog, inputs, failed, (count - 1) as nat, visiting, base, parent);
    }
}

/// The sum of the rates at which the recipes of a list produce `resource`,
/// each occurrence of a recipe counted.
pub open spec fn output_sum(recipes: Seq<RecipeModel>, resource: Resource) -> nat
    decreases recipes.len(),
{
    if recipes.len() == 0 {
        0
    } else {
        output_sum(recipes.drop_last(), resource) + amount_of(recipes.last().outputs, resource)
    }
}

/// The sum of the rates at which the terminal recipes of a list consume
/// `resource`, each occurrence of a recipe counted.
pub open spec fn input_sum(recipes: Seq<RecipeModel>, resource: Resource) -> nat
    decreases recipes.len(),
{
    if recipes.len() == 0 {
        0
    } else {
        input_sum(recipes.drop_last(), resource) + if recipes.last().end {
            amount_of(recipes.last().inputs, resource)
        } else {
            0
        }
    }
}

/// Some recipe of the list produces `resource`.
pub open spec fn produced(recipes: Seq<RecipeModel>, resource: Resource) -> bool {
    exists|i: int| 0 <= i < recipes.len() && has_key(#[trigger] recipes[i].outputs, resource)
}

/// Some terminal recipe of the list consumes `resource`.
pub open spec fn supplied(recipes: Seq<RecipeModel>, resource: Resource) -> bool {
    exists|i: int|
        0 <= i < recipes.len() && recipes[i].end && has_key(
            #[trigger] recipes[i].inputs,
            resource,
        )
}

/// For every resource that some recipe of the list produces, the sum of what
/// is produced of it.
pub open spec fn output_totals(recipes: Seq<RecipeModel>) -> Map<Resource, nat> {
    Map::new(|r: Resource| produced(recipes, r), |r: Resource| output_sum(recipes, r))
}

/// For every resource that some terminal recipe of the list consumes, the
/// sum of what is consumed of it.
pub open spec fn input_totals(recipes: Seq<RecipeModel>) -> Map<Resource, nat> {
    Map::new(|r: Resource| supplied(recipes, r), |r: Resource| input_sum(recipes, r))
}

/// The indices of the terminal recipes of a list, in rising order.
pub open spec fn entrypoints_of(recipes: Seq<RecipeModel>) -> Seq<nat>
    decreases recipes.len(),
{
    if recipes.len() == 0 {
        Seq::empty()
    } else if recipes.last().end {
        entrypoints_of(recipes.drop_last()).push((recipes.len() - 1) as nat)
    } else {
        entrypoints_of(recipes.drop_last())
    }
}

/// One building for each terminal recipe of a list, in the order of the
/// list: of the recipe's category, at rated power, running the recipe.
pub open spec fn entry_buildings(recipes: Seq<RecipeModel>) -> Seq<BuildingModel>
    decreases recipes.len(),
{
    if recipes.len() == 0 {
        Seq::empty()
    } else if recipes.last().end {
        entry_buildings(recipes.drop_last()).push(
            building_for(recipes.last().building, recipes.last()),
        )
    } else {
        entry_buildings(recipes.drop_last())
    }
}

/// Some of the first `count` entrypoints consumes `resource`.
pub open spec fn needed_by(
    recipes: Seq<RecipeModel>,
    entrypoints: Seq<nat>,
    count: int,
    resource: Resource,
) -> bool {
    exists|j: int|
        0 <= j < count && has_key(#[trigger] recipes[entrypoints[j] as int].inputs, resource)
}

/// What one more recipe adds to the totals.
pub proof fn lemma_totals_push(recipes: Seq<RecipeModel>, recipe: RecipeModel)
    ensures
        output_totals(recipes.push(recipe)) == merged(output_totals(recipes), recipe.outputs),
        recipe.end ==> input_totals(recipes.push(recipe)) == merged(
            input_totals(recipes),
            recipe.inputs,
        ),
        !recipe.end ==> input_totals(recipes.push(recipe)) == input_totals(recipes),
{
    let more = recipes.push(recipe);
    assert(more.drop_last() =~= recipes);
    assert(more.last() == recipe);
    let n = recipes.len() as int;
    assert forall|r: Resource| produced(more, r) == (produced(recipes, r) || has_key(
        recipe.outputs,
        r,
    )) by {
        if produced(more, r) {
            let i = choose|i: int|
                0 <= i < more.len() && has_key(#[trigger] more[i].outputs, r);
            if i < n {
                assert(has_key(recipes[i].outputs, r));
            }
        }
        if produced(recipes, r) {
            let i = choose|i: int|
                0 <= i < recipes.len() && has_key(#[trigger] recipes[i].outputs, r);
            assert(has_key(more[i].outputs, r));
        }
        if has_key(recipe.outputs, r) {
            assert(has_key(more[n].outputs, r));
        }
    }
    assert forall|r: Resource| supplied(more, r) == (supplied(recipes, r) || (recipe.end
        && has_key(recipe.inputs, r))) by {
        if supplied(more, r) {
            let i = choose|i: int|
                0 <= i < more.len() && more[i].end && has_key(#[trigger] more[i].inputs, r);
            if i < n {
                assert(recipes[i].end && has_key(recipes[i].inputs, r));
            }
        }
        if supplied(recipes, r) {
            let i = choose|i: int|
                0 <= i < recipes.len() && recipes[i].end && has_key(
                    #[trigger] recipes[i].inputs,
                    r,
                );
            assert(more[i].end && has_key(more[i].inputs, r));
        }
        if recipe.end && has_key(recipe.inputs, r) {
            assert(more[n].end && has_key(more[n].inputs, r));
        }
    }
    assert forall|r: Resource| !produced(recipes, r) implies output_sum(recipes, r) == 0 by {
        lemma_unproduced(recipes, r);
    }
    assert forall|r: Resource| !supplied(recipes, r) implies input_sum(recipes, r) == 0 by {
        lemma_unsupplied(recipes, r);
    }
    assert(output_totals(more) =~= merged(output_totals(recipes), recipe.outputs));
    if recipe.end {
        assert(input_totals(more) =~= merged(input_totals(recipes), recipe.inputs));
    } else {
        assert(input_totals(more) =~= input_totals(recipes));
    }
}

/// What no recipe produces adds up to nothing.
pub proof fn lemma_unproduced(recipes: Seq<RecipeModel>, resource: Resource)
    requires
        !produced(recipes, resource),
    ensures
        output_sum(recipes, resource) == 0,
    decreases recipes.len(),
{
    if recipes.len() > 0 {
        let n = recipes.len() - 1;
        assert(!has_key(recipes[n].outputs, resource));
        lemma_amount_of_absent(recipes[n].outputs, resource);
        assert forall|i: int| 0 <= i < n implies !has_key(
            #[trigger] recipes.drop_last()[i].outputs,
            resource,
        ) by {
            assert(!has_key(recipes[i].outputs, resource));
        }
        lemma_unproduced(recipes.drop_last(), resource);
    }
}

/// What no terminal recipe consumes adds up to nothing.
pub proof fn lemma_unsupplied(recipes: Seq<RecipeModel>, resource: Resource)
    requires
        !supplied(recipes, resource),
    ensures
        input_sum(recipes, resource) == 0,
    decreases recipes.len(),
{
    if recipes.len() > 0 {
        let n = recipes.len() - 1;
        if recipes[n].end {
            assert(!has_key(recipes[n].inputs, resource));
            lemma_amount_of_absent(recipes[n].inputs, resource);
        }
        assert forall|i: int| 0 <= i < n && recipes.drop_last()[i].end implies !has_key(
            #[trigger] recipes.drop_last()[i].inputs,
            resource,
        ) by {
            assert(!(recipes[i].end && has_key(recipes[i].inputs, resource)));
        }
        lemma_unsupplied(recipes.drop_last(), resource);
    }
}

/// The entrypoints of a list of recipes are the indices of its terminal
/// recipes: each of them, once, in rising order.
pub proof fn lemma_entrypoints(recipes: Seq<RecipeModel>)
    ensures
        forall|j: int|
            0 <= j < entrypoints_of(recipes).len() ==> (#[trigger] entrypoints_of(recipes)[j])
                < recipes.len() && recipes[entrypoints_of(recipes)[j] as int].end,
        forall|i: int|
            0 <= i < recipes.len() && (#[trigger] recipes[i]).end ==> entrypoints_of(
                recipes,
            ).contains(i as nat),
        forall|j: int, k: int|
            0 <= j < k < entrypoints_of(recipes).len() ==> entrypoints_of(recipes)[j]
                < entrypoints_of(recipes)[k],
    decreases recipes.len(),
{
    if recipes.len() > 0 {
        let front = recipes.drop_last();
        let n = front.len() as int;
        lemma_entrypoints(front);
        let entries = entrypoints_of(recipes);
        let before = entrypoints_of(front);
        assert forall|i: int|
            0 <= i < recipes.len() && (#[trigger] recipes[i]).end implies entries.contains(
            i as nat,
        ) by {
            if i < n {
                assert(front[i].end);
                let j = choose|j: int| 0 <= j < before.len() && before[j] == i as nat;
                assert(entries[j] == i as nat);
            } else {
                assert(entries[entries.len() - 1] == i as nat);
            }
        }
    }
}

} // verus!
