//! The production pipeline: the flat list of buildings that a resolved tree
//! needs, with the power they draw together.

use vstd::prelude::*;
use std::rc::Rc;
use crate::machines::manufacturers::{BuildingModel, ProductionBuilding};

verus! {

/// The power that the buildings of `s` draw together.
pub open spec fn power_sum(s: Seq<BuildingModel>) -> nat
    decreases s.len(),
{
    if s.len() == 0 {
        0
    } else {
        power_sum(s.drop_last()) + s.last().power_usage
    }
}

/// Appending a building adds its power.
pub proof fn lemma_power_sum_push(s: Seq<BuildingModel>, building: BuildingModel)
    ensures
        power_sum(s.push(building)) == power_sum(s) + building.power_usage,
{
    assert(s.push(building).drop_last() =~= s);
}

/// The power of two lists in a row is the sum of their powers.
pub proof fn lemma_power_sum_add(a: Seq<BuildingModel>, b: Seq<BuildingModel>)
    ensures
        power_sum(a + b) == power_sum(a) + power_sum(b),
    decreases b.len(),
{
    if b.len() == 0 {
        assert(a + b =~= a);
    } else {
        lemma_power_sum_add(a, b.drop_last());
        assert((a + b).drop_last() =~= a + b.drop_last());
    }
}

/// One building of a pipeline.
#[derive(Debug)]
pub struct PipelineNode {
    building: ProductionBuilding,
    parent: Option<Rc<PipelineNode>>,
}

impl View for PipelineNode {
    type V = BuildingModel;

    closed spec fn view(&self) -> BuildingModel {
        self.building@
    }
}

impl PipelineNode {
    /// The node that this one feeds, if any.
    pub closed spec fn fed(&self) -> Option<PipelineNode> {
        match self.parent {
            Some(node) => Some(*node),
            None => None,
        }
    }

    /// A node for `building` that feeds no other node.
    pub fn new(building: ProductionBuilding) -> (node: PipelineNode)
        ensures
            node@ == building@,
            node.fed() is None,
    {
        PipelineNode { building, parent: None }
    }

    /// The building.
    pub fn building(&self) -> (building: &ProductionBuilding)
        ensures
            building@ == self@,
    {
        &self.building
    }

    /// The node that this one feeds, if any.
    pub fn parent(&self) -> (parent: Option<&PipelineNode>)
        ensures
            match parent {
                Some(node) => self.fed() == Some(*node),
                None => self.fed() is None,
            },
    {
        match &self.parent {
            Some(node) => Some(&**node),
            None => None,
        }
    }
}

/// The buildings of a list of nodes.
pub closed spec fn buildings_of(nodes: Seq<Rc<PipelineNode>>) -> Seq<BuildingModel> {
    nodes.map_values(|node: Rc<PipelineNode>| node@)
}

/// The buildings of a production chain, in the order in which they were
/// added, and the power they draw together.
#[derive(Debug)]
pub struct Pipeline {
    root: Vec<Rc<PipelineNode>>,
    total_power: u128,
}

impl View for Pipeline {
    type V = Seq<BuildingModel>;

    closed spec fn view(&self) -> Seq<BuildingModel> {
        buildings_of(self.root@)
    }
}

impl Pipeline {
    #[verifier::type_invariant]
    spec fn well_formed(self) -> bool {
        &&& self.total_power == power_sum(buildings_of(self.root@))
        &&& self.total_power <= self.root@.len() * usize::MAX
    }

    /// A pipeline without buildings.
    pub fn new() -> (pipeline: Pipeline)
        ensures
            pipeline@ == Seq::<BuildingModel>::empty(),
    {
        let pipeline = Pipeline { root: Vec::new(), total_power: 0 };
        assert(pipeline@ =~= Seq::<BuildingModel>::empty());
        pipeline
    }

    /// Appends `building` and adds its power to the total.
    pub fn add(&mut self, building: ProductionBuilding)
        ensures
            final(self)@ == old(self)@.push(building@),
    {
        let mut taken = Pipeline::new();
        core::mem::swap(self, &mut taken);
        proof {
            use_type_invariant(&taken);
        }
        let Pipeline { root, total_power } = taken;
        let mut root = root;
        let power = building.power_usage;
        let count = root.len();
        let ghost before = root@;
        assert(total_power + power <= u128::MAX) by {
            assert(before.len() * usize::MAX <= usize::MAX * usize::MAX) by (nonlinear_arith)
                requires
                    before.len() <= usize::MAX,
            ;
            assert(usize::MAX * usize::MAX + usize::MAX <= u128::MAX) by (nonlinear_arith)
                requires
                    usize::MAX <= 0xffff_ffff_ffff_ffff,
            ;
        }
        let total = total_power + power as u128;
        let node = Rc::new(PipelineNode::new(building));
        root.push(node);
        proof {
            assert(buildings_of(root@) =~= buildings_of(before).push(building@));
            lemma_power_sum_push(buildings_of(before), building@);
            assert(total <= root@.len() * usize::MAX) by (nonlinear_arith)
                requires
                    total == total_power + power,
                    total_power <= before.len() * usize::MAX,
                    power <= usize::MAX,
                    root@.len() == before.len() + 1,
            ;
        }
        *self = Pipeline { root, total_power: total };
    }

    /// Appends the buildings of `other`, in their order, and adds their power
    /// to the total.
    pub fn extend(&mut self, other: Pipeline)
        ensures
            final(self)@ == old(self)@ + other@,
    {
        let mut taken = Pipeline::new();
        core::mem::swap(self, &mut taken);
        proof {
            use_type_invariant(&taken);
            use_type_invariant(&other);
        }
        let Pipeline { root, total_power } = taken;
        let Pipeline { root: more, total_power: more_power } = other;
        let mut root = root;
        let mut more = more;
        let ghost first = root@;
        let ghost second = more@;
        root.append(&mut more);
        let count = root.len();
        proof {
            assert(buildings_of(root@) =~= buildings_of(first) + buildings_of(second));
            lemma_power_sum_add(buildings_of(first), buildings_of(second));
            assert(total_power + more_power <= root@.len() * usize::MAX) by (nonlinear_arith)
                requires
                    total_power <= first.len() * usize::MAX,
                    more_power <= second.len() * usize::MAX,
                    root@.len() == first.len() + second.len(),
            ;
            assert(root@.len() * usize::MAX <= u128::MAX) by (nonlinear_arith)
                requires
                    root@.len() <= usize::MAX,
                    usize::MAX <= 0xffff_ffff_ffff_ffff,
            ;
        }
        let total = total_power + more_power;
        *self = Pipeline { root, total_power: total };
    }

    /// The power that the buildings draw together, in megawatts.
    pub fn total_power(&self) -> (power: u128)
        ensures
            power == power_sum(self@),
    {
        proof {
            use_type_invariant(self);
        }
        self.total_power
    }

    /// The number of buildings.
    pub fn len(&self) -> (n: usize)
        ensures
            n == self@.len(),
    {
        self.root.len()
    }

    /// The `index`-th building added, if there are that many.
    pub fn node(&self, index: usize) -> (node: Option<&PipelineNode>)
        ensures
            node is Some == (index < self@.len()),
            node matches Some(n) ==> n@ == self@[index as int],
    {
        if index < self.root.len() {
            Some(&*self.root[index])
        } else {
            None
        }
    }
}

} // verus!
