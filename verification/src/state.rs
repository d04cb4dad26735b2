//! The state of an anyon system: its anyons and its fusion schedule.

use vstd::prelude::*;
use vstd::string::*;
use crate::anyon::{Anyon, AnyonView};
use crate::error::Error;
use crate::fusion::FusionPair;

verus! {

/// One entry of the fusion schedule: a time step, counted from 1, and the
/// pair that fuses at it.
pub type FusionNode = (u32, FusionPair);

/// What a state is, as plain values.
pub struct StateView {
    pub anyons: Seq<AnyonView>,
    pub fusion_ops: Seq<FusionNode>,
}

/// Whether `node` may follow the schedule `ops` in a system of `anyons`
/// anyons: its time is at least 1 and not before the last entry's, both its
/// indices name an anyon, and no entry of the same time step shares an index
/// with it.
pub open spec fn may_follow(ops: Seq<FusionNode>, anyons: nat, node: FusionNode) -> bool {
    &&& node.0 >= 1
    &&& ops.len() > 0 ==> ops.last().0 <= node.0
    &&& node.1.anyon_1 < anyons
    &&& node.1.anyon_2 < anyons
    &&& forall|i: int|
        0 <= i < ops.len() && ops[i].0 == node.0 ==> !(#[trigger] ops[i]).1.overlaps(node.1)
}

/// Whether `ops` is a fusion schedule of a system of `anyons` anyons: every
/// entry may follow the entries before it.
pub open spec fn valid_schedule(ops: Seq<FusionNode>, anyons: nat) -> bool {
    forall|i: int| 0 <= i < ops.len() ==> may_follow(#[trigger] ops.take(i), anyons, ops[i])
}

impl StateView {
    /// The invariant of a state: its schedule is valid for its anyons.
    pub open spec fn wf(self) -> bool {
        valid_schedule(self.fusion_ops, self.anyons.len())
    }
}

/// The overall state of an anyon system: the anyons, in their current order,
/// and the time-stamped fusions scheduled on them.
#[derive(Debug, PartialEq)]
pub struct State {
    anyons: Vec<Anyon>,
    fusion_ops: Vec<FusionNode>,
}

impl View for State {
    type V = StateView;

    closed spec fn view(&self) -> StateView {
        StateView { anyons: self.anyons@.map_values(|a: Anyon| a@), fusion_ops: self.fusion_ops@ }
    }
}

impl Clone for State {
    fn clone(&self) -> (copy: State)
        ensures
            copy@ == self@,
    {
        let mut anyons: Vec<Anyon> = Vec::new();
        let mut i: usize = 0;
        while i < self.anyons.len()
            invariant
                i <= self.anyons.len(),
                anyons@.len() == i,
                forall|k: int| 0 <= k < i ==> anyons@[k]@ == self.anyons@[k]@,
            decreases self.anyons.len() - i,
        {
            anyons.push(self.anyons[i].clone());
            i += 1;
        }
        let mut fusion_ops: Vec<FusionNode> = Vec::new();
        let mut j: usize = 0;
        while j < self.fusion_ops.len()
            invariant
                j <= self.fusion_ops.len(),
                fusion_ops@ == self.fusion_ops@.take(j as int),
            decreases self.fusion_ops.len() - j,
        {
            fusion_ops.push(self.fusion_ops[j]);
            j += 1;
        }
        let copy = State { anyons, fusion_ops };
        assert(copy@.anyons =~= self@.anyons);
        assert(copy@.fusion_ops =~= self@.fusion_ops);
        copy
    }
}

impl State {
    /// The invariant of a state.
    pub open spec fn wf(&self) -> bool {
        self@.wf()
    }

    /// A state without anyons and without fusions.
    pub fn new() -> (state: State)
        ensures
            state.wf(),
            state@.anyons.len() == 0,
            state@.fusion_ops.len() == 0,
    {
        State { anyons: Vec::new(), fusion_ops: Vec::new() }
    }

    /// The anyons, in their current order.
    pub fn anyons(&self) -> (anyons: Vec<Anyon>)
        ensures
            anyons@.map_values(|a: Anyon| a@) == self@.anyons,
    {
        let copy = self.clone();
        copy.anyons
    }

    /// The fusion schedule.
    pub fn fusion_ops(&self) -> (ops: Vec<FusionNode>)
        ensures
            ops@ == self@.fusion_ops,
    {
        let copy = self.clone();
        copy.fusion_ops
    }

    /// How many anyons the state holds.
    pub fn anyon_count(&self) -> (count: usize)
        ensures
            count == self@.anyons.len(),
    {
        self.anyons.len()
    }

    /// Adds an anyon behind the others. Always succeeds.
    pub fn add_anyon(&mut self, anyon: Anyon) -> (added: bool)
        requires
            old(self).wf(),
        ensures
            added,
            final(self).wf(),
            final(self)@.anyons == old(self)@.anyons.push(anyon@),
            final(self)@.fusion_ops == old(self)@.fusion_ops,
    {
        self.anyons.push(anyon);
        proof {
            assert(self@.anyons =~= old(self)@.anyons.push(anyon@));
        }
        true
    }

    /// Schedules a fusion behind those already scheduled. The entry is
    /// refused, and the state left as it was, unless it may follow the
    /// schedule.
    pub fn add_fusion_op(&mut self, node: FusionNode) -> (outcome: Result<(), Error>)
        requires
            old(self).wf(),
        ensures
            final(self).wf(),
            final(self)@.anyons == old(self)@.anyons,
            may_follow(old(self)@.fusion_ops, old(self)@.anyons.len(), node) ==> outcome is Ok
                && final(self)@.fusion_ops == old(self)@.fusion_ops.push(node),
            !may_follow(old(self)@.fusion_ops, old(self)@.anyons.len(), node) ==> (outcome matches Err(
                Error::ConstructionError(_),
            )) && final(self)@.fusion_ops == old(self)@.fusion_ops,
    {
        let (time, pair) = node;
        let count = self.fusion_ops.len();
        if time < 1 {
            return Err(
                Error::ConstructionError(String::from_str("Fusion times are counted from 1")),
            );
        }
        if count > 0 && self.fusion_ops[count - 1].0 > time {
            return Err(
                Error::ConstructionError(
                    String::from_str("Fusion times must not decrease along the schedule"),
                ),
            );
        }
        if pair.anyon_1 >= self.anyons.len() || pair.anyon_2 >= self.anyons.len() {
            return Err(
                Error::ConstructionError(
                    String::from_str("Fusion pair names an anyon that is not there"),
                ),
            );
        }
        let mut i: usize = 0;
        while i < count
            invariant
                i <= count,
                count == self.fusion_ops@.len(),
                node == (time, pair),
                *self == *old(self),
                self.wf(),
                forall|k: int|
                    0 <= k < i && self.fusion_ops@[k].0 == time ==> !(
                    #[trigger] self.fusion_ops@[k]).1.overlaps(pair),
            decreases count - i,
        {
            let earlier = self.fusion_ops[i];
            if earlier.0 == time && (earlier.1.anyon_1 == pair.anyon_1 || earlier.1.anyon_2
                == pair.anyon_1 || earlier.1.anyon_1 == pair.anyon_2 || earlier.1.anyon_2
                == pair.anyon_2) {
                return Err(
                    Error::ConstructionError(
                        String::from_str("An anyon fuses at most once in a time step"),
                    ),
                );
            }
            i += 1;
        }
        self.fusion_ops.push(node);
        proof {
            let ops = old(self)@.fusion_ops;
            let grown = self@.fusion_ops;
            assert(grown =~= ops.push(node));
            assert forall|k: int| 0 <= k < grown.len() implies may_follow(
                #[trigger] grown.take(k),
                self@.anyons.len(),
                grown[k],
            ) by {
                if k < ops.len() {
                    assert(grown.take(k) =~= ops.take(k));
                } else {
                    assert(grown.take(k) =~= ops);
                }
            }
        }
        Ok(())
    }

    /// Exchanges the anyons at two positions. Refused, with the state left
    /// as it was, when a position lies beyond the last anyon.
    pub fn swap_anyons(&mut self, index_a: usize, index_b: usize) -> (outcome: Result<(), Error>)
        requires
            old(self).wf(),
        ensures
            final(self).wf(),
            final(self)@.fusion_ops == old(self)@.fusion_ops,
            final(self)@.anyons == swapped(old(self)@.anyons, index_a as int, index_b as int),
            outcome is Ok <==> index_a < old(self)@.anyons.len() && index_b < old(self)@.anyons.len(),
            outcome is Err ==> outcome matches Err(Error::BraidingError(_)),
    {
        if index_a >= self.anyons.len() || index_b >= self.anyons.len() {
            return Err(Error::BraidingError(String::from_str("Anyon index out of range")));
        }
        let first = self.anyons[index_a].clone();
        let second = self.anyons[index_b].clone();
        self.anyons[index_a] = second;
        self.anyons[index_b] = first;
        proof {
            assert(self@.anyons =~= swapped(old(self)@.anyons, index_a as int, index_b as int));
        }
        Ok(())
    }
}

/// The sequence with the items at `i` and `j` exchanged; the sequence itself
/// where one of the two lies outside it.
pub open spec fn swapped<T>(items: Seq<T>, i: int, j: int) -> Seq<T> {
    if 0 <= i < items.len() && 0 <= j < items.len() {
        items.update(i, items[j]).update(j, items[i])
    } else {
        items
    }
}

} // verus!
