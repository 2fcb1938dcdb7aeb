use vstd::prelude::*;
use crate::fact::PulsedFact;
use crate::model::{Model, Node, OutletId};

verus! {

/// A graph whose wires carry pulsed facts.
pub type PulsedModel = Model<PulsedFact>;

/// A node of a graph whose wires carry pulsed facts.
pub type PulsedNode = Node<PulsedFact>;

/// The outlet that the first pair with the key `outlet` maps it to.
pub open spec fn mapped(mapping: Seq<(OutletId, OutletId)>, outlet: OutletId) -> Option<OutletId>
    decreases mapping.len(),
{
    if mapping.len() == 0 {
        None
    } else if mapping[0].0 == outlet {
        Some(mapping[0].1)
    } else {
        mapped(mapping.drop_first(), outlet)
    }
}

/// Looks an outlet of the source graph up among the pairs of an outlet of
/// the source graph and the outlet of the target graph that stands for it.
pub fn lookup(mapping: &Vec<(OutletId, OutletId)>, outlet: OutletId) -> (r: Option<OutletId>)
    ensures
        r == mapped(mapping@, outlet),
{
    let mut i: usize = 0;
    assert(mapping@.skip(0) =~= mapping@);
    while i < mapping.len()
        invariant
            i <= mapping.len(),
            mapped(mapping@, outlet) == mapped(mapping@.skip(i as int), outlet),
        decreases mapping.len() - i,
    {
        let (from, to) = mapping[i];
        assert(mapping@.skip(i as int)[0] == mapping@[i as int]);
        assert(mapping@.skip(i as int).drop_first() =~= mapping@.skip(i + 1));
        if from.node == outlet.node && from.slot == outlet.slot {
            return Some(to);
        }
        i += 1;
    }
    assert(mapping@.skip(mapping@.len() as int).len() == 0);
    None
}

} // verus!
