//! What holds of every resolved tree.

use vstd::prelude::*;
use crate::items::{has_key, total_of};
use crate::machines::manufacturers::{rated_power, BuildingModel};
use crate::pipelines::{lemma_power_sum_add, power_sum};
use crate::recipes::resolution::{
    entry_buildings, entrypoints_of, forest, input_sum, input_totals, lemma_unproduced,
    lemma_unsupplied, lemma_visit_decreases, node_for, output_sum, output_totals, ratio_table,
    recipes_of, resolution, subtree, supplied, tied, NodeModel,
};
use crate::recipes::{canonical, RecipeModel, ResolveError};
use crate::resources::Resource;

verus! {

/// The node at position `i` of `nodes`, a list that starts at index `base`,
/// is linked to the nodes below it: it has the ratios of its recipe; a
/// terminal node has no children and any other has one child for each input
/// of its recipe; and the child for an input lies further on in the list,
/// names the node as its parent, and stands for the canonical recipe of that
/// input.
pub open spec fn linked(
    catalog: Map<Resource, Seq<RecipeModel>>,
    nodes: Seq<NodeModel>,
    base: nat,
    i: int,
) -> bool {
    let node = nodes[i];
    &&& node.calculations == ratio_table(node.recipe.inputs, node.recipe.outputs)
    &&& node.children.len() == if node.recipe.end {
        0
    } else {
        node.recipe.inputs.len()
    }
    &&& forall|k: int|
        0 <= k < node.children.len() ==> {
            let child = #[trigger] node.children[k];
            &&& base + i < child < base + nodes.len()
            &&& nodes[child - base].parent == Some((base + i) as nat)
            &&& nodes[child - base].recipe == canonical(catalog, node.recipe.inputs[k].0)
        }
}

/// A subtree starts with the node for its resource, and all its nodes are
/// linked.
pub proof fn lemma_subtree_linked(
    catalog: Map<Resource, Seq<RecipeModel>>,
    resource: Resource,
    visiting: Set<Resource>,
    base: nat,
    parent: Option<nat>,
)
    requires
        catalog.dom().finite(),
        subtree(catalog, resource, visiting, base, parent) is Ok,
    ensures
        ({
            let nodes = subtree(catalog, resource, visiting, base, parent)->Ok_0;
            &&& nodes.len() >= 1
            &&& nodes[0].parent == parent
            &&& nodes[0].recipe == canonical(catalog, resource)
            &&& forall|i: int| 0 <= i < nodes.len() ==> linked(catalog, nodes, base, i)
        }),
    decreases catalog.dom().difference(visiting).len(), 0nat, 0nat,
{
    let nodes = subtree(catalog, resource, visiting, base, parent)->Ok_0;
    let recipe = canonical(catalog, resource);
    if !recipe.end {
        lemma_visit_decreases(catalog.dom(), visiting, resource);
        let inner = visiting.insert(resource);
        lemma_forest_linked(catalog, recipe.inputs, recipe.inputs.len(), inner, base + 1, base);
        let (below, roots) = forest(
            catalog,
            recipe.inputs,
            recipe.inputs.len(),
            inner,
            base + 1,
            base,
        )->Ok_0;
        assert(nodes == seq![node_for(recipe, parent, roots)] + below);
        assert forall|i: int| 0 <= i < nodes.len() implies linked(catalog, nodes, base, i) by {
            if i == 0 {
                assert forall|k: int| 0 <= k < nodes[0].children.len() implies {
                    let child = #[trigger] nodes[0].children[k];
                    &&& base + 0 < child < base + nodes.len()
                    &&& nodes[child - base].parent == Some((base + 0) as nat)
                    &&& nodes[child - base].recipe == canonical(
                        catalog,
                        nodes[0].recipe.inputs[k].0,
                    )
                } by {
                    let child = roots[k];
                    assert(nodes[child - base] == below[child - (base + 1)]);
                }
            } else {
                assert(linked(catalog, below, base + 1, i - 1));
                assert(nodes[i] == below[i - 1]);
                assert forall|k: int| 0 <= k < nodes[i].children.len() implies {
                    let child = #[trigger] nodes[i].children[k];
                    &&& base + i < child < base + nodes.len()
                    &&& nodes[child - base].parent == Some((base + i) as nat)
                    &&& nodes[child - base].recipe == canonical(
                        catalog,
                        nodes[i].recipe.inputs[k].0,
                    )
                } by {
                    let child = below[i - 1].children[k];
                    assert(nodes[child - base] == below[child - (base + 1)]);
                }
            }
        }
    } else {
        assert(nodes == seq![node_for(recipe, parent, Seq::empty())]);
        assert(linked(catalog, nodes, base, 0));
    }
}

/// The subtrees for the first inputs of a recipe start at the indices that
/// are given for them, with the canonical recipe of their input and the
/// parent they were resolved for, and all their nodes are linked.
pub proof fn lemma_forest_linked(
    catalog: Map<Resource, Seq<RecipeModel>>,
    inputs: Seq<(Resource, u64)>,
    count: nat,
    visiting: Set<Resource>,
    base: nat,
    parent: nat,
)
    requires
        catalog.dom().finite(),
        count <= inputs.len(),
        forest(catalog, inputs, count, visiting, base, parent) is Ok,
    ensures
        ({
            let (nodes, roots) = forest(catalog, inputs, count, visiting, base, parent)->Ok_0;
            &&& roots.len() == count
            &&& forall|i: int| 0 <= i < nodes.len() ==> linked(catalog, nodes, base, i)
            &&& forall|k: int|
                0 <= k < count ==> {
                    let root = #[trigger] roots[k];
                    &&& base <= root < base + nodes.len()
                    &&& nodes[root - base].parent == Some(parent)
                    &&& nodes[root - base].recipe == canonical(catalog, inputs[k].0)
                }
        }),
    decreases catalog.dom().difference(visiting).len(), 1nat, count,
{
    if count > 0 {
        let fewer = (count - 1) as nat;
        lemma_forest_linked(catalog, inputs, fewer, visiting, base, parent);
        let (first, first_roots) = forest(catalog, inputs, fewer, visiting, base, parent)->Ok_0;
        let start = base + first.len();
        lemma_subtree_linked(catalog, inputs[count - 1].0, visiting, start, Some(parent));
        let next = subtree(catalog, inputs[count - 1].0, visiting, start, Some(parent))->Ok_0;
        let (nodes, roots) = forest(catalog, inputs, count, visiting, base, parent)->Ok_0;
        assert(nodes == first + next);
        assert(roots == first_roots.push(start));
        assert forall|i: int| 0 <= i < nodes.len() implies linked(catalog, nodes, base, i) by {
            if i < first.len() {
                assert(linked(catalog, first, base, i));
                assert(nodes[i] == first[i]);
                assert forall|k: int| 0 <= k < nodes[i].children.len() implies {
                    let child = #[trigger] nodes[i].children[k];
                    &&& base + i < child < base + nodes.len()
                    &&& nodes[child - base].parent == Some((base + i) as nat)
                    &&& nodes[child - base].recipe == canonical(
                        catalog,
                        nodes[i].recipe.inputs[k].0,
                    )
                } by {
                    let child = first[i].children[k];
                    assert(nodes[child - base] == first[child - base]);
                }
            } else {
                let at = i - first.len();
                assert(linked(catalog, next, start, at));
                assert(nodes[i] == next[at]);
                assert forall|k: int| 0 <= k < nodes[i].children.len() implies {
                    let child = #[trigger] nodes[i].children[k];
                    &&& base + i < child < base + nodes.len()
                    &&& nodes[child - base].parent == Some((base + i) as nat)
                    &&& nodes[child - base].recipe == canonical(
                        catalog,
                        nodes[i].recipe.inputs[k].0,
                    )
                } by {
                    let child = next[at].children[k];
                    assert(nodes[child - base] == next[child - start]);
                }
            }
        }
        assert forall|k: int| 0 <= k < count implies {
            let root = #[trigger] roots[k];
            &&& base <= root < base + nodes.len()
            &&& nodes[root - base].parent == Some(parent)
            &&& nodes[root - base].recipe == canonical(catalog, inputs[k].0)
        } by {
            if k < fewer {
                let root = first_roots[k];
                assert(roots[k] == root);
                assert(nodes[root - base] == first[root - base]);
            } else {
                assert(roots[k] == start);
                assert(nodes[start - base] == next[0]);
            }
        }
    }
}

/// A linked node is tied.
pub proof fn lemma_linked_tied(
    catalog: Map<Resource, Seq<RecipeModel>>,
    nodes: Seq<NodeModel>,
    base: nat,
    i: int,
)
    requires
        linked(catalog, nodes, base, i),
    ensures
        tied(nodes, base, i),
{
}

/// A resource whose recipe is terminal resolves to a single node: the root
/// has no children and is the one entrypoint.
pub proof fn law_terminal_root(catalog: Map<Resource, Seq<RecipeModel>>, resource: Resource)
    requires
        catalog.dom().finite(),
        catalog.dom().contains(resource),
        canonical(catalog, resource).end,
    ensures
        resolution(catalog, resource) == Ok::<Seq<NodeModel>, ResolveError>(
            seq![node_for(canonical(catalog, resource), None, Seq::empty())],
        ),
        resolution(catalog, resource)->Ok_0[0].children.len() == 0,
        entrypoints_of(recipes_of(resolution(catalog, resource)->Ok_0)) == seq![0nat],
{
    let nodes = resolution(catalog, resource)->Ok_0;
    let recipes = recipes_of(nodes);
    assert(recipes.drop_last() =~= Seq::<RecipeModel>::empty());
    assert(entrypoints_of(recipes.drop_last()) =~= Seq::<nat>::empty());
    assert(entrypoints_of(recipes) =~= seq![0nat]);
}

/// In a resolved tree the root stands for the canonical recipe of the
/// target and has no parent, and every node is linked: a node whose recipe is
/// not terminal has exactly one child for each input of its recipe.
pub proof fn law_children(catalog: Map<Resource, Seq<RecipeModel>>, resource: Resource)
    requires
        catalog.dom().finite(),
        resolution(catalog, resource) is Ok,
    ensures
        ({
            let nodes = resolution(catalog, resource)->Ok_0;
            &&& nodes.len() >= 1
            &&& nodes[0].parent is None
            &&& nodes[0].recipe == canonical(catalog, resource)
            &&& forall|i: int| 0 <= i < nodes.len() ==> linked(catalog, nodes, 0, i)
            &&& forall|i: int|
                0 <= i < nodes.len() && !(#[trigger] nodes[i]).recipe.end
                    ==> nodes[i].children.len()
                    == nodes[i].recipe.inputs.len()
        }),
{
    lemma_subtree_linked(catalog, resource, Set::empty(), 0, None);
    let nodes = resolution(catalog, resource)->Ok_0;
    assert forall|i: int|
        0 <= i < nodes.len() && !(#[trigger] nodes[i]).recipe.end implies nodes[i].children.len()
        == nodes[i].recipe.inputs.len() by {
        assert(linked(catalog, nodes, 0, i));
    }
}

/// A resource without a recipe does not resolve.
pub proof fn law_unregistered(catalog: Map<Resource, Seq<RecipeModel>>, resource: Resource)
    requires
        catalog.dom().finite(),
        !catalog.dom().contains(resource),
    ensures
        resolution(catalog, resource) == Err::<Seq<NodeModel>, ResolveError>(
            ResolveError::ResourceUnresolved(resource),
        ),
{
}

/// What the error of a failed resolution says of its resource.
pub open spec fn explains(catalog: Map<Resource, Seq<RecipeModel>>, error: ResolveError) -> bool {
    match error {
        ResolveError::ResourceUnresolved(missing) => !catalog.dom().contains(missing),
        ResolveError::CyclicRecipeGraph(repeated) => catalog.dom().contains(repeated)
            && !canonical(catalog, repeated).end,
    }
}

/// A subtree fails at a resource without recipe, or at one that is being
/// resolved further up.
pub proof fn lemma_subtree_error(
    catalog: Map<Resource, Seq<RecipeModel>>,
    resource: Resource,
    visiting: Set<Resource>,
    base: nat,
    parent: Option<nat>,
)
    requires
        catalog.dom().finite(),
        subtree(catalog, resource, visiting, base, parent) is Err,
    ensures
        match subtree(catalog, resource, visiting, base, parent)->Err_0 {
            ResolveError::ResourceUnresolved(missing) => !catalog.dom().contains(missing),
            ResolveError::CyclicRecipeGraph(repeated) => catalog.dom().contains(repeated) && (
            visiting.contains(repeated) || !canonical(catalog, repeated).end),
        },
    decreases catalog.dom().difference(visiting).len(), 0nat, 0nat,
{
    if catalog.dom().contains(resource) && !visiting.contains(resource) {
        let recipe = canonical(catalog, resource);
        lemma_visit_decreases(catalog.dom(), visiting, resource);
        lemma_forest_error_kind(
            catalog,
            recipe.inputs,
            recipe.inputs.len(),
            visiting.insert(resource),
            base + 1,
            base,
        );
    }
}

/// The subtrees for the first inputs of a recipe fail as a subtree does.
pub proof fn lemma_forest_error_kind(
    catalog: Map<Resource, Seq<RecipeModel>>,
    inputs: Seq<(Resource, u64)>,
    count: nat,
    visiting: Set<Resource>,
    base: nat,
    parent: nat,
)
    requires
        catalog.dom().finite(),
        forest(catalog, inputs, count, visiting, base, parent) is Err,
    ensures
        match forest(catalog, inputs, count, visiting, base, parent)->Err_0 {
            ResolveError::ResourceUnresolved(missing) => !catalog.dom().contains(missing),
            ResolveError::CyclicRecipeGraph(repeated) => catalog.dom().contains(repeated) && (
            visiting.contains(repeated) || !canonical(catalog, repeated).end),
        },
    decreases catalog.dom().difference(visiting).len(), 1nat, count,
{
    if count > 0 && count <= inputs.len() {
        let fewer = (count - 1) as nat;
        let first = forest(catalog, inputs, fewer, visiting, base, parent);
        if first is Err {
            lemma_forest_error_kind(catalog, inputs, fewer, visiting, base, parent);
        } else {
            let start = base + first->Ok_0.0.len();
            lemma_subtree_error(catalog, inputs[count - 1].0, visiting, start, Some(parent));
        }
    }
}

/// A resolution fails only for a reason: at a resource that has no recipe,
/// or at a resource whose recipe is not terminal and needs the resource
/// itself, directly or through its inputs.
pub proof fn law_errors(catalog: Map<Resource, Seq<RecipeModel>>, resource: Resource)
    requires
        catalog.dom().finite(),
        resolution(catalog, resource) is Err,
    ensures
        explains(catalog, resolution(catalog, resource)->Err_0),
{
    lemma_subtree_error(catalog, resource, Set::empty(), 0, None);
}

/// The output total of a resource is the sum of the rates at which the
/// recipes of the tree produce it, a recipe counted as often as it occurs;
/// a resource that none produces has no total.
pub proof fn law_output_totals(recipes: Seq<RecipeModel>, resource: Resource)
    ensures
        total_of(output_totals(recipes), resource) == output_sum(recipes, resource),
        output_totals(recipes).dom().contains(resource) <==> exists|i: int|
            0 <= i < recipes.len() && has_key(#[trigger] recipes[i].outputs, resource),
{
    if !output_totals(recipes).dom().contains(resource) {
        lemma_unproduced(recipes, resource);
    }
}

/// The input total of a resource is the sum of the rates at which the
/// terminal recipes of the tree consume it, a recipe counted as often as it
/// occurs; a resource that none consumes has no total.
pub proof fn law_input_totals(recipes: Seq<RecipeModel>, resource: Resource)
    ensures
        total_of(input_totals(recipes), resource) == input_sum(recipes, resource),
        input_totals(recipes).dom().contains(resource) <==> supplied(recipes, resource),
{
    if !input_totals(recipes).dom().contains(resource) {
        lemma_unsupplied(recipes, resource);
    }
}

/// The rated power of the buildings of the terminal recipes of a list, a
/// recipe counted as often as it occurs.
pub open spec fn terminal_power(recipes: Seq<RecipeModel>) -> nat
    decreases recipes.len(),
{
    if recipes.len() == 0 {
        0
    } else {
        terminal_power(recipes.drop_last()) + if recipes.last().end {
            rated_power(recipes.last().building)
        } else {
            0
        }
    }
}

/// A pipeline that has taken the buildings of a tree draws as much more power
/// as the buildings of the tree's terminal recipes are rated for, each
/// occurrence counted.
pub proof fn law_pipeline_power(before: Seq<BuildingModel>, recipes: Seq<RecipeModel>)
    ensures
        power_sum(before + entry_buildings(recipes)) == power_sum(before) + terminal_power(recipes),
        entry_buildings(recipes).len() == entrypoints_of(recipes).len(),
{
    lemma_power_sum_add(before, entry_buildings(recipes));
    lemma_entry_power(recipes);
}

proof fn lemma_entry_power(recipes: Seq<RecipeModel>)
    ensures
        power_sum(entry_buildings(recipes)) == terminal_power(recipes),
        entry_buildings(recipes).len() == entrypoints_of(recipes).len(),
    decreases recipes.len(),
{
    if recipes.len() > 0 {
        lemma_entry_power(recipes.drop_last());
        if recipes.last().end {
            let front = entry_buildings(recipes.drop_last());
            assert(entry_buildings(recipes).drop_last() =~= front);
        }
    }
}

} // verus!
