//! Resource nodes: the deposits from which raw resources are extracted.

use vstd::prelude::*;

verus! {

/// How pure a deposit is.
#[derive(Debug, Clone, Copy, PartialEq, Eq, Hash, Structural)]
pub enum ResourceType {
    Impure,
    Normal,
    Pure,
}

/// The rate at which a deposit of a purity yields at the first extractor
/// tier and rated clock speed, in thousandths of an item per minute: 30, 60
/// or 120 items per minute.
pub open spec fn base_rate(purity: ResourceType) -> u64 {
    match purity {
        ResourceType::Impure => 30_000,
        ResourceType::Normal => 60_000,
        ResourceType::Pure => 120_000,
    }
}

/// A deposit of a raw resource.
#[derive(Debug)]
pub struct ResourceNode {
    name: String,
    resource_type: ResourceType,
}

impl ResourceNode {
    /// The name of the resource.
    pub closed spec fn spec_name(&self) -> Seq<char> {
        self.name@
    }

    /// The purity of the deposit.
    pub closed spec fn spec_resource_type(&self) -> ResourceType {
        self.resource_type
    }

    /// A deposit of the named resource and the given purity.
    pub fn new(name: String, resource_type: ResourceType) -> (node: ResourceNode)
        ensures
            node.spec_name() == name@,
            node.resource_type() == resource_type,
    {
        ResourceNode { name, resource_type }
    }

    /// The name of the resource.
    pub fn name(&self) -> (name: &str)
        ensures
            name@ == self.spec_name(),
    {
        self.name.as_str()
    }

    /// The purity of the deposit.
    #[verifier::when_used_as_spec(spec_resource_type)]
    pub fn resource_type(&self) -> (purity: ResourceType)
        ensures
            purity == self.spec_resource_type(),
    {
        self.resource_type
    }

    /// The rate at which the deposit yields at the first extractor tier and
    /// rated clock speed, in thousandths of an item per minute.
    pub fn base_extraction(&self) -> (rate: u64)
        ensures
            rate == base_rate(self.resource_type()),
    {
        match self.resource_type {
            ResourceType::Impure => 30_000,
            ResourceType::Normal => 60_000,
            ResourceType::Pure => 120_000,
        }
    }
}

} // verus!
