//! The tree of crafting steps that makes one resource, as it is built and
//! read.

use vstd::prelude::*;
use crate::items::{has_key, key_index, listed_rate, total_of, Totals};
use crate::machines::manufacturers::{BuildingModel, ProductionBuilding};
use crate::pipelines::Pipeline;
use crate::recipes::catalog::standard_catalog;
use crate::recipes::laws::{lemma_linked_tied, lemma_subtree_linked};
use crate::recipes::resolution::{
    entry_buildings, entrypoints_of, forest, input_sum, input_totals, lemma_entrypoints,
    lemma_forest_error, lemma_totals_push, lemma_visit_decreases, needed_by, node_for, output_sum,
    output_totals, ratio_row, ratio_table, recipes_of, resolution, subtree, supplied, tied,
    NodeModel,
};
use crate::recipes::{canonical, models, Recipe, RecipeModel, Recipes, ResolveError};
use crate::resources::Resource;

verus! {

/// How much of one output a recipe makes for each unit of one input: the
/// ratio is `output_rate / input_rate`.
#[derive(Debug, Clone, Copy, PartialEq, Eq, Structural)]
pub struct Ratio {
    pub input: Resource,
    pub output: Resource,
    pub output_rate: u64,
    pub input_rate: u64,
}

impl Ratio {
    /// The ratio in thousandths, rounded down: how many thousandths of the
    /// output one unit of the input makes. There is none where the input
    /// rate is zero.
    pub fn quotient(&self) -> (thousandths: Option<u128>)
        ensures
            thousandths == if self.input_rate == 0 {
                None
            } else {
                Some((self.output_rate * 1000 / self.input_rate as int) as u128)
            },
    {
        if self.input_rate == 0 {
            None
        } else {
            let scaled: u128 = self.output_rate as u128 * 1000;
            Some(scaled / self.input_rate as u128)
        }
    }
}

/// One resolved crafting step.
#[derive(Debug)]
pub struct RecipeNode {
    uuid: u128,
    recipe: Recipe,
    calculations: Vec<Ratio>,
    parent: Option<usize>,
    children: Vec<usize>,
}

/// Indices as numbers.
pub open spec fn indices(list: Seq<usize>) -> Seq<nat> {
    list.map_values(|index: usize| index as nat)
}

/// An optional index as a number.
pub open spec fn index_of(index: Option<usize>) -> Option<nat> {
    match index {
        Some(i) => Some(i as nat),
        None => None,
    }
}

impl View for RecipeNode {
    type V = NodeModel;

    closed spec fn view(&self) -> NodeModel {
        NodeModel {
            recipe: self.recipe@,
            calculations: self.calculations@,
            parent: index_of(self.parent),
            children: indices(self.children@),
        }
    }
}

/// The nodes of a list, as plain values.
pub open spec fn node_models(nodes: Seq<RecipeNode>) -> Seq<NodeModel> {
    nodes.map_values(|node: RecipeNode| node@)
}

/// Whether `id` has the version and variant bits of a random (version 4)
/// UUID: the four version bits are `0100` and the two variant bits are `10`.
pub open spec fn is_version_four(id: u128) -> bool {
    id & 0x0000_0000_0000_f000_c000_0000_0000_0000u128
        == 0x0000_0000_0000_4000_8000_0000_0000_0000u128
}

/// Every node of the list has the identifier of a random UUID.
pub open spec fn freshly_named(nodes: Seq<RecipeNode>) -> bool {
    forall|i: int| 0 <= i < nodes.len() ==> is_version_four((#[trigger] nodes[i]).id())
}

/// A random version-4 identifier from `uuid::Uuid::new_v4`, as the 128-bit
/// number that `Uuid::as_u128` gives for it. `new_v4` draws 128 random bits
/// and then fixes the four version bits to `0100` and the two variant bits to
/// `10`; nothing else is claimed of the value. `new_v4` panics where the
/// operating system cannot supply random bytes.
#[verifier::external_body]
fn fresh_uuid() -> (id: u128)
    ensures
        is_version_four(id),
{
    uuid::Uuid::new_v4().as_u128()
}

impl RecipeNode {
    /// The node's identifier.
    pub closed spec fn id(&self) -> u128 {
        self.uuid
    }

    /// A node for `recipe` with the identifier `uuid`, without parent or
    /// children, and with the ratio of every output to every input.
    pub fn with_uuid(recipe: Recipe, uuid: u128) -> (node: RecipeNode)
        ensures
            node@ == node_for(recipe@, None, Seq::empty()),
            node.id() == uuid,
    {
        let inputs = recipe.input_items().entries();
        let outputs = recipe.output_items().entries();
        let mut calculations: Vec<Ratio> = Vec::new();
        let mut i: usize = 0;
        assert(inputs@.take(0) =~= Seq::<(Resource, u64)>::empty());
        while i < inputs.len()
            invariant
                i <= inputs.len(),
                calculations@ == ratio_table(inputs@.take(i as int), outputs@),
            decreases inputs.len() - i,
        {
            let ghost done = calculations@;
            let mut j: usize = 0;
            while j < outputs.len()
                invariant
                    i < inputs.len(),
                    j <= outputs.len(),
                    calculations@ == done + ratio_row(inputs@[i as int], outputs@).take(j as int),
                decreases outputs.len() - j,
            {
                calculations.push(
                    Ratio {
                        input: inputs[i].0,
                        output: outputs[j].0,
                        output_rate: outputs[j].1,
                        input_rate: inputs[i].1,
                    },
                );
                assert(ratio_row(inputs@[i as int], outputs@).take(j as int + 1) =~= ratio_row(
                    inputs@[i as int],
                    outputs@,
                ).take(j as int).push(ratio_row(inputs@[i as int], outputs@)[j as int]));
                j += 1;
            }
            proof {
                let next = inputs@.take(i as int + 1);
                assert(next.drop_last() =~= inputs@.take(i as int));
                assert(next.last() == inputs@[i as int]);
                assert(ratio_row(inputs@[i as int], outputs@).take(j as int) =~= ratio_row(
                    inputs@[i as int],
                    outputs@,
                ));
            }
            i += 1;
        }
        assert(inputs@.take(i as int) =~= inputs@);
        let node = RecipeNode {
            uuid,
            recipe,
            calculations,
            parent: None,
            children: Vec::new(),
        };
        assert(indices(node.children@) =~= Seq::<nat>::empty());
        node
    }

    /// A node for `recipe` with a fresh random identifier, without parent or
    /// children, and with the ratio of every output to every input.
    pub fn new(recipe: Recipe) -> (node: RecipeNode)
        ensures
            node@ == node_for(recipe@, None, Seq::empty()),
            is_version_four(node.id()),
    {
        let uuid = fresh_uuid();
        RecipeNode::with_uuid(recipe, uuid)
    }

    /// Records the node at index `parent` as this node's parent.
    pub fn add_parent(&mut self, parent: usize)
        ensures
            final(self)@ == (NodeModel { parent: Some(parent as nat), ..old(self)@ }),
            final(self).id() == old(self).id(),
    {
        self.parent = Some(parent);
    }

    /// The node's identifier.
    pub fn uuid(&self) -> (id: u128)
        ensures
            id == self.id(),
    {
        self.uuid
    }

    /// The recipe of this step.
    pub fn recipe(&self) -> (recipe: &Recipe)
        ensures
            recipe@ == self@.recipe,
    {
        &self.recipe
    }

    /// The ratio of every output to every input of the recipe.
    pub fn calculations(&self) -> (ratios: &Vec<Ratio>)
        ensures
            ratios@ == self@.calculations,
    {
        &self.calculations
    }

    /// The index of the node that needs this step, if it is not the root.
    pub fn parent(&self) -> (parent: Option<usize>)
        ensures
            index_of(parent) == self@.parent,
    {
        self.parent
    }

    /// The indices of the nodes that make this step's inputs, one for each
    /// input, in the order of the inputs.
    pub fn children(&self) -> (children: &Vec<usize>)
        ensures
            indices(children@) == self@.children,
    {
        &self.children
    }
}

/// The resolved tree for one target resource: its nodes, the root first and
/// every node before the nodes below it, the totals over the whole tree, and
/// the nodes at which raw resources enter.
#[derive(Debug)]
pub struct RecipeTree {
    nodes: Vec<RecipeNode>,
    root: usize,
    inputs: Totals,
    outputs: Totals,
    entrypoints: Vec<usize>,
}

/// The totals, entrypoints and buildings are those of the recipes, and the
/// totals leave room for one more recipe.
spec fn aggregated(
    recipes: Seq<RecipeModel>,
    inputs: Map<Resource, nat>,
    outputs: Map<Resource, nat>,
    entrypoints: Seq<nat>,
    buildings: Seq<BuildingModel>,
) -> bool {
    &&& inputs == input_totals(recipes)
    &&& outputs == output_totals(recipes)
    &&& entrypoints == entrypoints_of(recipes)
    &&& buildings == entry_buildings(recipes)
    &&& forall|r: Resource| #[trigger] output_sum(recipes, r) <= recipes.len() * u64::MAX
    &&& forall|r: Resource| #[trigger] input_sum(recipes, r) <= recipes.len() * u64::MAX
}

/// Whether `resource` is in `list`.
fn listed(list: &Vec<Resource>, resource: Resource) -> (found: bool)
    ensures
        found == list@.contains(resource),
        found == list@.to_set().contains(resource),
{
    let mut i: usize = 0;
    while i < list.len()
        invariant
            i <= list.len(),
            forall|j: int| 0 <= j < i ==> list@[j] != resource,
        decreases list.len() - i,
    {
        if list[i] == resource {
            assert(list@.contains(resource));
            return true;
        }
        i += 1;
    }
    assert(!list@.contains(resource));
    false
}

/// Appends `node` to `nodes` and adds what its recipe contributes: its
/// outputs to the output totals and, where the recipe is terminal, its inputs
/// to the input totals, a building to the pipeline and its index to the
/// entrypoints.
fn register(
    node: RecipeNode,
    nodes: &mut Vec<RecipeNode>,
    inputs: &mut Totals,
    outputs: &mut Totals,
    pipeline: &mut Pipeline,
    entrypoints: &mut Vec<usize>,
) -> (index: usize)
    requires
        aggregated(
            recipes_of(node_models(old(nodes)@)),
            old(inputs)@,
            old(outputs)@,
            indices(old(entrypoints)@),
            old(pipeline)@,
        ),
    ensures
        index == old(nodes)@.len(),
        final(nodes)@ == old(nodes)@.push(node),
        aggregated(
            recipes_of(node_models(final(nodes)@)),
            final(inputs)@,
            final(outputs)@,
            indices(final(entrypoints)@),
            final(pipeline)@,
        ),
{
    let index = nodes.len();
    let ghost before = recipes_of(node_models(nodes@));
    let ghost model = node@.recipe;
    nodes.push(node);
    let count = nodes.len();
    let recipe = &nodes[index].recipe;
    proof {
        let after = recipes_of(node_models(nodes@));
        assert(after =~= before.push(model));
        assert(after.drop_last() =~= before);
        lemma_totals_push(before, model);
        assert(count * u64::MAX <= u128::MAX) by (nonlinear_arith)
            requires
                count <= usize::MAX,
                usize::MAX <= 0xffff_ffff_ffff_ffff,
        ;
    }
    proof {
        assert forall|r: Resource|
            total_of(outputs@, r) + #[trigger] listed_rate(model.outputs, r) <= u128::MAX by {
            assert(output_sum(before, r) <= before.len() * u64::MAX);
        }
        assert forall|r: Resource|
            total_of(inputs@, r) + #[trigger] listed_rate(model.inputs, r) <= u128::MAX by {
            assert(input_sum(before, r) <= before.len() * u64::MAX);
        }
    }
    outputs.merge(recipe.output_items());
    if recipe.end() {
        inputs.merge(recipe.input_items());
        let building = ProductionBuilding::from_category(
            recipe.production_building(),
            recipe.clone(),
        );
        pipeline.add(building);
        entrypoints.push(index);
        assert(indices(entrypoints@) =~= indices(old(entrypoints)@).push(index as nat));
    }
    proof {
        let after = recipes_of(node_models(nodes@));
        assert(after.drop_last() == before);
        assert(after.last() == model);
        assert(recipe@ == model);
        assert(outputs@ == output_totals(after));
        assert(inputs@ == input_totals(after));
        assert(indices(entrypoints@) == entrypoints_of(after));
        assert(pipeline@ == entry_buildings(after));
        assert forall|r: Resource| #[trigger] output_sum(after, r) <= after.len() * u64::MAX by {
            assert(output_sum(before, r) <= before.len() * u64::MAX);
        }
        assert forall|r: Resource| #[trigger] input_sum(after, r) <= after.len() * u64::MAX by {
            assert(input_sum(before, r) <= before.len() * u64::MAX);
        }
    }
    index
}

impl RecipeTree {
    #[verifier::type_invariant]
    spec fn well_formed(self) -> bool {
        &&& self.nodes@.len() > 0
        &&& self.root == 0
        &&& node_models(self.nodes@)[0].parent is None
        &&& freshly_named(self.nodes@)
        &&& forall|i: int|
            0 <= i < self.nodes@.len() ==> #[trigger] tied(node_models(self.nodes@), 0, i)
        &&& self.inputs@ == input_totals(recipes_of(node_models(self.nodes@)))
        &&& self.outputs@ == output_totals(recipes_of(node_models(self.nodes@)))
        &&& indices(self.entrypoints@) == entrypoints_of(recipes_of(node_models(self.nodes@)))
    }

    /// The nodes of the tree, as plain values.
    pub closed spec fn nodes(&self) -> Seq<NodeModel> {
        node_models(self.nodes@)
    }

    /// The recipes of the nodes, in the order of the nodes.
    pub open spec fn recipes(&self) -> Seq<RecipeModel> {
        recipes_of(self.nodes())
    }

    /// Resolves `resource` with the recipes of `recipes` into its tree, and
    /// appends to `pipeline` one building for each terminal node, in the
    /// order of the nodes.
    ///
    /// Fails, and leaves `pipeline` as it was, where a resource that is
    /// needed has no recipe or is needed to make itself.
    pub fn build(resource: Resource, recipes: &Recipes, pipeline: &mut Pipeline) -> (built: Result<
        RecipeTree,
        ResolveError,
    >)
        ensures
            match built {
                Ok(tree) => {
                    &&& resolution(recipes@, resource) == Ok::<Seq<NodeModel>, ResolveError>(
                        tree.nodes(),
                    )
                    &&& final(pipeline)@ == old(pipeline)@ + entry_buildings(tree.recipes())
                },
                Err(error) => {
                    &&& resolution(recipes@, resource) == Err::<Seq<NodeModel>, ResolveError>(
                        error,
                    )
                    &&& final(pipeline)@ == old(pipeline)@
                },
            },
    {
        let mut nodes: Vec<RecipeNode> = Vec::new();
        let mut inputs = Totals::new();
        let mut outputs = Totals::new();
        let mut entrypoints: Vec<usize> = Vec::new();
        let mut staged = Pipeline::new();
        let mut path: Vec<Resource> = Vec::new();
        proof {
            let none = recipes_of(node_models(nodes@));
            assert(input_totals(none) =~= Map::<Resource, nat>::empty());
            assert(output_totals(none) =~= Map::<Resource, nat>::empty());
            assert(indices(entrypoints@) =~= entrypoints_of(none));
            assert(path@.to_set() =~= Set::<Resource>::empty());
        }
        match RecipeTree::create_node(
            resource,
            recipes,
            None,
            &mut path,
            &mut nodes,
            &mut inputs,
            &mut outputs,
            &mut staged,
            &mut entrypoints,
        ) {
            Err(error) => Err(error),
            Ok(root) => {
                pipeline.extend(staged);
                proof {
                    recipes.lemma_finite();
                    assert(node_models(nodes@) =~= resolution(recipes@, resource)->Ok_0);
                    lemma_subtree_linked(recipes@, resource, Set::empty(), 0, None);
                    assert forall|i: int| 0 <= i < nodes@.len() implies #[trigger] tied(
                        node_models(nodes@),
                        0,
                        i,
                    ) by {
                        lemma_linked_tied(recipes@, node_models(nodes@), 0, i);
                    }
                }
                Ok(RecipeTree { nodes, root, inputs, outputs, entrypoints })
            },
        }
    }

    /// Resolves `resource` and everything below it, appending the nodes to
    /// `nodes` and adding their contributions to the totals, the pipeline and
    /// the entrypoints. `path` holds the resources that are being resolved
    /// further up; `parent` is the index of the node that needs `resource`.
    /// Returns the index of the node that stands for `resource`.
    fn create_node(
        resource: Resource,
        recipes: &Recipes,
        parent: Option<usize>,
        path: &mut Vec<Resource>,
        nodes: &mut Vec<RecipeNode>,
        inputs: &mut Totals,
        outputs: &mut Totals,
        pipeline: &mut Pipeline,
        entrypoints: &mut Vec<usize>,
    ) -> (created: Result<usize, ResolveError>)
        requires
            freshly_named(old(nodes)@),
            aggregated(
                recipes_of(node_models(old(nodes)@)),
                old(inputs)@,
                old(outputs)@,
                indices(old(entrypoints)@),
                old(pipeline)@,
            ),
        ensures
            match created {
                Ok(index) => {
                    &&& index == old(nodes)@.len()
                    &&& final(path)@ == old(path)@
                    &&& freshly_named(final(nodes)@)
                    &&& subtree(
                        recipes@,
                        resource,
                        old(path)@.to_set(),
                        old(nodes)@.len(),
                        index_of(parent),
                    ) is Ok
                    &&& node_models(final(nodes)@) == node_models(old(nodes)@) + subtree(
                        recipes@,
                        resource,
                        old(path)@.to_set(),
                        old(nodes)@.len(),
                        index_of(parent),
                    )->Ok_0
                    &&& aggregated(
                        recipes_of(node_models(final(nodes)@)),
                        final(inputs)@,
                        final(outputs)@,
                        indices(final(entrypoints)@),
                        final(pipeline)@,
                    )
                },
                Err(error) => subtree(
                    recipes@,
                    resource,
                    old(path)@.to_set(),
                    old(nodes)@.len(),
                    index_of(parent),
                ) == Err::<Seq<NodeModel>, ResolveError>(error),
            },
        decreases recipes@.dom().difference(old(path)@.to_set()).len(),
    {
        proof {
            recipes.lemma_finite();
        }
        let ghost catalog = recipes@;
        let ghost visiting = path@.to_set();
        let ghost base: int = nodes@.len() as int;
        let ghost earlier = node_models(nodes@);
        let candidates = match recipes.get_component_recipes(resource) {
            Ok(list) => list,
            Err(error) => {
                return Err(error);
            },
        };
        if listed(path, resource) {
            return Err(ResolveError::CyclicRecipeGraph(resource));
        }
        let recipe = candidates[0].clone();
        let end = recipe.end();
        assert(recipe@ == canonical(catalog, resource)) by {
            assert(models(candidates@)[0] == candidates@[0]@);
        }
        let mut node = RecipeNode::new(recipe);
        match parent {
            Some(p) => {
                node.add_parent(p);
            },
            None => {},
        }
        let ghost leaf = node@;
        assert(leaf == node_for(canonical(catalog, resource), index_of(parent), Seq::empty()));
        let index = register(node, nodes, inputs, outputs, pipeline, entrypoints);
        assert(node_models(nodes@) =~= earlier.push(leaf));
        if end {
            assert(earlier.push(leaf) =~= earlier + seq![leaf]);
            return Ok(index);
        }
        path.push(resource);
        proof {
            assert forall|r: Resource| path@.to_set().contains(r) == visiting.insert(
                resource,
            ).contains(r) by {
                let n = old(path)@.len() as int;
                if path@.contains(r) {
                    let i = choose|i: int| 0 <= i < path@.len() && path@[i] == r;
                    if i < n {
                        assert(old(path)@[i] == r);
                    }
                }
                if old(path)@.contains(r) {
                    let i = choose|i: int| 0 <= i < old(path)@.len() && old(path)@[i] == r;
                    assert(path@[i] == r);
                }
                if r == resource {
                    assert(path@[n] == r);
                }
            }
            assert(path@.to_set() =~= visiting.insert(resource));
            lemma_visit_decreases(catalog.dom(), visiting, resource);
        }
        let mut children: Vec<usize> = Vec::new();
        let mut k: usize = 0;
        let count = nodes[index].recipe.input_items().len();
        assert(node_models(nodes@).take(base + 1) =~= earlier.push(leaf));
        assert(node_models(nodes@).subrange(base + 1, nodes@.len() as int) =~= Seq::<
            NodeModel,
        >::empty());
        assert(indices(children@) =~= Seq::<nat>::empty());
        while k < count
            invariant
                k <= count,
                count == leaf.recipe.inputs.len(),
                catalog == recipes@,
                catalog.dom().finite(),
                catalog.dom().contains(resource),
                !visiting.contains(resource),
                leaf.recipe == canonical(catalog, resource),
                !leaf.recipe.end,
                index == base,
                base == old(nodes)@.len(),
                base == earlier.len(),
                base < nodes@.len(),
                path@ == old(path)@.push(resource),
                path@.to_set() == visiting.insert(resource),
                visiting == old(path)@.to_set(),
                catalog.dom().difference(path@.to_set()).len() < catalog.dom().difference(
                    visiting,
                ).len(),
                node_models(nodes@).take(base + 1) == earlier.push(leaf),
                freshly_named(nodes@),
                forest(
                    catalog,
                    leaf.recipe.inputs,
                    k as nat,
                    path@.to_set(),
                    (base + 1) as nat,
                    base as nat,
                ) == Ok::<(Seq<NodeModel>, Seq<nat>), ResolveError>(
                    (
                        node_models(nodes@).subrange(base + 1, nodes@.len() as int),
                        indices(children@),
                    ),
                ),
                aggregated(
                    recipes_of(node_models(nodes@)),
                    inputs@,
                    outputs@,
                    indices(entrypoints@),
                    pipeline@,
                ),
            decreases count - k,
        {
            let ghost so_far = node_models(nodes@);
            let ghost below = so_far.subrange(base + 1, nodes@.len() as int);
            let ghost roots = indices(children@);
            assert(nodes@[base]@ == leaf) by {
                assert(node_models(nodes@).take(base + 1)[base] == leaf);
            }
            let needed = nodes[index].recipe.input_items().entries()[k].0;
            assert(needed == leaf.recipe.inputs[k as int].0);
            assert(base + 1 + below.len() == nodes@.len());
            match RecipeTree::create_node(
                needed,
                recipes,
                Some(index),
                path,
                nodes,
                inputs,
                outputs,
                pipeline,
                entrypoints,
            ) {
                Err(error) => {
                    proof {
                        assert(forest(
                            catalog,
                            leaf.recipe.inputs,
                            (k + 1) as nat,
                            visiting.insert(resource),
                            (base + 1) as nat,
                            base as nat,
                        ) == Err::<(Seq<NodeModel>, Seq<nat>), ResolveError>(error));
                        lemma_forest_error(
                            catalog,
                            leaf.recipe.inputs,
                            (k + 1) as nat,
                            count as nat,
                            visiting.insert(resource),
                            (base + 1) as nat,
                            base as nat,
                        );
                    }
                    return Err(error);
                },
                Ok(child) => {
                    children.push(child);
                    proof {
                        let next = subtree(
                            catalog,
                            needed,
                            visiting.insert(resource),
                            (base + 1 + below.len()) as nat,
                            Some(base as nat),
                        )->Ok_0;
                        assert(node_models(nodes@) == so_far + next);
                        assert(node_models(nodes@).subrange(base + 1, nodes@.len() as int) =~= below
                            + next);
                        assert(indices(children@) =~= roots.push((base + 1 + below.len()) as nat));
                        assert(node_models(nodes@).take(base + 1) =~= so_far.take(base + 1));
                    }
                },
            }
            k += 1;
        }
        path.pop();
        assert(path@ =~= old(path)@);
        let ghost below = node_models(nodes@).subrange(base + 1, nodes@.len() as int);
        let ghost before_link = nodes@;
        nodes[index].children = children;
        proof {
            assert forall|i: int| 0 <= i < nodes@.len() implies is_version_four(
                (#[trigger] nodes@[i]).id(),
            ) by {
                assert(is_version_four(before_link[i].id()));
                if i != base {
                    assert(nodes@[i] == before_link[i]);
                }
            }
            let linked = node_for(
                canonical(catalog, resource),
                index_of(parent),
                indices(children@),
            );
            assert(nodes@[base as int]@ == linked);
            assert(node_models(nodes@) =~= earlier + (seq![linked] + below)) by {
                assert(node_models(before_link).take(base + 1) == earlier.push(leaf));
                assert forall|i: int| 0 <= i < nodes@.len() implies node_models(nodes@)[i]
                    == (earlier + (seq![linked] + below))[i] by {
                    if i < base {
                        assert(node_models(before_link).take(base + 1)[i] == earlier[i]);
                    } else if i > base {
                        assert(nodes@[i] == before_link[i]);
                    }
                }
            }
            assert(recipes_of(node_models(nodes@)) =~= recipes_of(node_models(before_link))) by {
                assert(node_models(before_link).take(base + 1)[base as int] == leaf);
                assert forall|i: int| 0 <= i < nodes@.len() implies nodes@[i]@.recipe
                    == before_link[i]@.recipe by {
                    if i != base {
                        assert(nodes@[i] == before_link[i]);
                    }
                }
            }
        }
        Ok(index)
    }
}

impl RecipeTree {
    /// The index of the root node, which has no parent.
    pub fn root(&self) -> (root: usize)
        ensures
            root == 0,
            root < self.nodes().len(),
            self.nodes()[0].parent is None,
    {
        proof {
            use_type_invariant(self);
        }
        self.root
    }

    /// The number of nodes.
    pub fn len(&self) -> (n: usize)
        ensures
            n == self.nodes().len(),
            n > 0,
    {
        proof {
            use_type_invariant(self);
        }
        self.nodes.len()
    }

    /// The node at `index`, if there is one. Every node of a tree is tied to
    /// the nodes below it: a node whose recipe is not terminal has one child
    /// for each input of its recipe, and its children name it as their
    /// parent. Every node has the identifier of a random UUID.
    pub fn node(&self, index: usize) -> (node: Option<&RecipeNode>)
        ensures
            node is Some == (index < self.nodes().len()),
            node matches Some(n) ==> n@ == self.nodes()[index as int] && tied(
                self.nodes(),
                0,
                index as int,
            ) && is_version_four(n.id()),
    {
        proof {
            use_type_invariant(self);
        }
        if index < self.nodes.len() {
            Some(&self.nodes[index])
        } else {
            None
        }
    }

    /// For every resource that a terminal node consumes, the sum of the
    /// rates at which the terminal nodes consume it.
    pub fn inputs(&self) -> (totals: &Totals)
        ensures
            totals@ == input_totals(self.recipes()),
    {
        proof {
            use_type_invariant(self);
        }
        &self.inputs
    }

    /// For every resource that a node produces, the sum of the rates at
    /// which the nodes produce it.
    pub fn outputs(&self) -> (totals: &Totals)
        ensures
            totals@ == output_totals(self.recipes()),
    {
        proof {
            use_type_invariant(self);
        }
        &self.outputs
    }

    /// The indices of the terminal nodes, in rising order.
    pub fn entrypoints(&self) -> (entrypoints: &Vec<usize>)
        ensures
            indices(entrypoints@) == entrypoints_of(self.recipes()),
    {
        proof {
            use_type_invariant(self);
        }
        &self.entrypoints
    }

    /// The resources that have to be supplied from outside: those that some
    /// terminal node consumes, each once.
    pub fn input_ingredients(&self) -> (ingredients: Vec<Resource>)
        ensures
            ingredients@.no_duplicates(),
            forall|r: Resource| ingredients@.contains(r) <==> supplied(self.recipes(), r),
    {
        proof {
            use_type_invariant(self);
            lemma_entrypoints(self.recipes());
        }
        let ghost recipes = self.recipes();
        let ghost entrypoints = indices(self.entrypoints@);
        let mut results: Vec<Resource> = Vec::new();
        let mut e: usize = 0;
        while e < self.entrypoints.len()
            invariant
                e <= self.entrypoints.len(),
                recipes == recipes_of(node_models(self.nodes@)),
                entrypoints == indices(self.entrypoints@),
                forall|j: int|
                    0 <= j < entrypoints.len() ==> (#[trigger] entrypoints[j]) < recipes.len(),
                results@.no_duplicates(),
                forall|r: Resource|
                    #[trigger] results@.contains(r) <==> needed_by(
                        recipes,
                        entrypoints,
                        e as int,
                        r,
                    ),
            decreases self.entrypoints.len() - e,
        {
            let index = self.entrypoints[e];
            assert(entrypoints[e as int] == index);
            let entries = self.nodes[index].recipe.input_items().entries();
            assert(entries@ == recipes[index as int].inputs);
            let mut k: usize = 0;
            while k < entries.len()
                invariant
                    k <= entries.len(),
                    e < entrypoints.len(),
                    entrypoints[e as int] < recipes.len(),
                    entries@ == recipes[entrypoints[e as int] as int].inputs,
                    results@.no_duplicates(),
                    forall|r: Resource|
                        #[trigger] results@.contains(r) <==> (needed_by(
                            recipes,
                            entrypoints,
                            e as int,
                            r,
                        ) || has_key(entries@.take(k as int), r)),
                decreases entries.len() - k,
            {
                let resource = entries[k].0;
                let ghost found = results@;
                if !listed(&results, resource) {
                    results.push(resource);
                }
                proof {
                    let done = entries@.take(k as int);
                    let next = entries@.take(k as int + 1);
                    assert forall|r: Resource| has_key(next, r) == (has_key(done, r) || r
                        == resource) by {
                        if has_key(next, r) {
                            let i = key_index(next, r);
                            if i < k {
                                assert(done[i].0 == r);
                            }
                        }
                        if has_key(done, r) {
                            let i = key_index(done, r);
                            assert(next[i].0 == r);
                        }
                        if r == resource {
                            assert(next[k as int].0 == r);
                        }
                    }
                    assert forall|r: Resource| results@.contains(r) == (found.contains(r) || r
                        == resource) by {
                        if found.contains(resource) {
                            assert(results@ == found);
                        } else {
                            assert(results@ == found.push(resource));
                            if results@.contains(r) {
                                let i = choose|i: int| 0 <= i < results@.len() && results@[i] == r;
                                if i < found.len() {
                                    assert(found[i] == r);
                                }
                            }
                            if found.contains(r) {
                                let i = choose|i: int| 0 <= i < found.len() && found[i] == r;
                                assert(results@[i] == r);
                            }
                            if r == resource {
                                assert(results@[found.len() as int] == r);
                            }
                        }
                    }
                    assert forall|r: Resource|
                        #[trigger] results@.contains(r) <==> (needed_by(
                            recipes,
                            entrypoints,
                            e as int,
                            r,
                        ) || has_key(next, r)) by {
                        assert(found.contains(r) <==> (needed_by(recipes, entrypoints, e as int, r)
                            || has_key(done, r)));
                        assert(results@.contains(r) == (found.contains(r) || r == resource));
                        assert(has_key(next, r) == (has_key(done, r) || r == resource));
                    }
                }
                k += 1;
            }
            proof {
                assert(entries@.take(k as int) =~= entries@);
                assert forall|r: Resource|
                    needed_by(recipes, entrypoints, e as int + 1, r) == (needed_by(
                        recipes,
                        entrypoints,
                        e as int,
                        r,
                    ) || has_key(entries@, r)) by {
                    if needed_by(recipes, entrypoints, e as int + 1, r) {
                        let j = choose|j: int|
                            0 <= j < e as int + 1 && has_key(
                                #[trigger] recipes[entrypoints[j] as int].inputs,
                                r,
                            );
                        if j < e {
                            assert(has_key(recipes[entrypoints[j] as int].inputs, r));
                        }
                    }
                    if needed_by(recipes, entrypoints, e as int, r) {
                        let j = choose|j: int|
                            0 <= j < e as int && has_key(
                                #[trigger] recipes[entrypoints[j] as int].inputs,
                                r,
                            );
                        assert(has_key(recipes[entrypoints[j] as int].inputs, r));
                    }
                    if has_key(entries@, r) {
                        assert(has_key(recipes[entrypoints[e as int] as int].inputs, r));
                    }
                }
            }
            e += 1;
        }
        proof {
            assert forall|r: Resource| results@.contains(r) <==> supplied(recipes, r) by {
                let all = entrypoints.len() as int;
                if needed_by(recipes, entrypoints, all, r) {
                    let j = choose|j: int|
                        0 <= j < all && has_key(
                            #[trigger] recipes[entrypoints[j] as int].inputs,
                            r,
                        );
                    let i = entrypoints[j] as int;
                    assert(recipes[i].end && has_key(recipes[i].inputs, r));
                }
                if supplied(recipes, r) {
                    let i = choose|i: int|
                        0 <= i < recipes.len() && recipes[i].end && has_key(
                            #[trigger] recipes[i].inputs,
                            r,
                        );
                    assert(entrypoints.contains(i as nat));
                    let j = choose|j: int| 0 <= j < entrypoints.len() && entrypoints[j] == i as nat;
                    assert(has_key(recipes[entrypoints[j] as int].inputs, r));
                }
            }
        }
        results
    }
}

/// Resolves `resource` with the standard catalog into its tree and the
/// pipeline of the buildings that the tree needs: one for each terminal node,
/// in the order of the nodes.
pub fn resolve(resource: Resource) -> (resolved: Result<(RecipeTree, Pipeline), ResolveError>)
    ensures
        match resolved {
            Ok((tree, pipeline)) => {
                &&& resolution(standard_catalog(), resource) == Ok::<Seq<NodeModel>, ResolveError>(
                    tree.nodes(),
                )
                &&& pipeline@ == entry_buildings(tree.recipes())
            },
            Err(error) => resolution(standard_catalog(), resource) == Err::<
                Seq<NodeModel>,
                ResolveError,
            >(error),
        },
{
    let recipes = Recipes::build();
    let mut pipeline = Pipeline::new();
    match RecipeTree::build(resource, &recipes, &mut pipeline) {
        Ok(tree) => {
            assert(pipeline@ =~= entry_buildings(tree.recipes()));
            Ok((tree, pipeline))
        },
        Err(error) => Err(error),
    }
}

} // verus!
