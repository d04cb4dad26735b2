//! Fusion bases: the check that an ordering of fusions forms a legal binary
//! fusion tree.

use vstd::prelude::*;
use std::collections::HashSet;
use crate::state::FusionNode;

verus! {

/// Whether one of the first `upto` fusions of `ops` fuses `anyon`.
pub open spec fn fused_before(ops: Seq<FusionNode>, upto: int, anyon: usize) -> bool {
    exists|i: int| 0 <= i < upto && (#[trigger] ops[i]).1.touches(anyon)
}

/// Whether fusion `i` of `ops` is legal in a tree over `anyons` anyons: it
/// fuses a lower index with a higher one, both of them anyons that no
/// earlier fusion has fused, and every anyon between the two has been fused
/// earlier.
pub open spec fn legal_fusion(ops: Seq<FusionNode>, i: int, anyons: usize) -> bool {
    let pair = ops[i].1;
    &&& pair.anyon_1 < pair.anyon_2 < anyons
    &&& !fused_before(ops, i, pair.anyon_1)
    &&& !fused_before(ops, i, pair.anyon_2)
    &&& forall|between: usize|
        pair.anyon_1 < between < pair.anyon_2 ==> #[trigger] fused_before(ops, i, between)
}

/// Whether `ops` is a basis of `anyons` anyons: one fusion fewer than there
/// are anyons, each of them legal.
pub open spec fn valid_basis(ops: Seq<FusionNode>, anyons: usize) -> bool {
    &&& ops.len() == anyons - 1
    &&& forall|i: int| 0 <= i < ops.len() ==> #[trigger] legal_fusion(ops, i, anyons)
}

/// A list with another number of fusions than one fewer than there are
/// anyons is no basis.
pub proof fn lemma_wrong_count_is_invalid(ops: Seq<FusionNode>, anyons: usize)
    requires
        ops.len() != anyons - 1,
    ensures
        !valid_basis(ops, anyons),
{
}

/// A list that fuses across an anyon which no earlier fusion has fused is no
/// basis.
pub proof fn lemma_skipped_anyon_is_invalid(
    ops: Seq<FusionNode>,
    anyons: usize,
    i: int,
    between: usize,
)
    requires
        0 <= i < ops.len(),
        ops[i].1.anyon_1 < between < ops[i].1.anyon_2,
        !fused_before(ops, i, between),
    ensures
        !valid_basis(ops, anyons),
{
    assert(!legal_fusion(ops, i, anyons));
}

/// A list that fuses one anyon twice is no basis.
pub proof fn lemma_refused_anyon_is_invalid(
    ops: Seq<FusionNode>,
    anyons: usize,
    i: int,
    j: int,
    anyon: usize,
)
    requires
        0 <= i < j < ops.len(),
        ops[i].1.touches(anyon),
        ops[j].1.touches(anyon),
    ensures
        !valid_basis(ops, anyons),
{
    assert(fused_before(ops, j, anyon));
    assert(!legal_fusion(ops, j, anyons));
}

/// A basis: an ordering of fusions, given as time-stamped pairs. Different
/// orderings of the same anyons are different bases.
#[derive(Debug, PartialEq)]
pub struct Basis {
    ops: Vec<FusionNode>,
}

impl Clone for Basis {
    fn clone(&self) -> (copy: Basis)
        ensures
            copy@ == self@,
    {
        let mut ops: Vec<FusionNode> = Vec::new();
        let mut i: usize = 0;
        while i < self.ops.len()
            invariant
                i <= self.ops.len(),
                ops@ == self.ops@.take(i as int),
            decreases self.ops.len() - i,
        {
            ops.push(self.ops[i]);
            i += 1;
        }
        proof {
            assert(self.ops@.take(self.ops@.len() as int) =~= self.ops@);
        }
        Basis { ops }
    }
}

impl View for Basis {
    type V = Seq<FusionNode>;

    closed spec fn view(&self) -> Seq<FusionNode> {
        self.ops@
    }
}

impl Basis {
    pub fn new(ops: Vec<FusionNode>) -> (basis: Basis)
        ensures
            basis@ == ops@,
    {
        Basis { ops }
    }

    /// Checks the basis against a system of `anyons` anyons. The check stops
    /// at the first fusion that breaks a rule.
    pub fn verify_basis(&self, anyons: usize) -> (valid: bool)
        ensures
            valid == valid_basis(self@, anyons),
    {
        if anyons == 0 || self.ops.len() != anyons - 1 {
            return false;
        }
        let mut fused_anyons: HashSet<usize> = HashSet::new();
        let mut i: usize = 0;
        while i < self.ops.len()
            invariant
                i <= self.ops.len(),
                self.ops@.len() == anyons - 1,
                forall|k: int| 0 <= k < i ==> #[trigger] legal_fusion(self.ops@, k, anyons),
                forall|anyon: usize|
                    fused_anyons@.contains(anyon) <==> fused_before(self.ops@, i as int, anyon),
            decreases self.ops.len() - i,
        {
            let anyon_1 = self.ops[i].1.anyon_1;
            let anyon_2 = self.ops[i].1.anyon_2;
            if !(anyon_1 < anyon_2 && anyon_2 < anyons) {
                assert(!legal_fusion(self.ops@, i as int, anyons));
                return false;
            }
            if fused_anyons.contains(&anyon_1) || fused_anyons.contains(&anyon_2) {
                assert(!legal_fusion(self.ops@, i as int, anyons));
                return false;
            }
            let mut between: usize = anyon_1 + 1;
            while between < anyon_2
                invariant
                    anyon_1 < between <= anyon_2,
                    i < self.ops@.len(),
                    anyon_1 == self.ops@[i as int].1.anyon_1,
                    anyon_2 == self.ops@[i as int].1.anyon_2,
                    forall|anyon: usize|
                        fused_anyons@.contains(anyon) <==> fused_before(self.ops@, i as int, anyon),
                    forall|anyon: usize|
                        anyon_1 < anyon < between ==> #[trigger] fused_before(
                            self.ops@,
                            i as int,
                            anyon,
                        ),
                decreases anyon_2 - between,
            {
                if !fused_anyons.contains(&between) {
                    assert(!legal_fusion(self.ops@, i as int, anyons));
                    return false;
                }
                between += 1;
            }
            assert(legal_fusion(self.ops@, i as int, anyons));
            fused_anyons.insert(anyon_1);
            fused_anyons.insert(anyon_2);
            proof {
                assert forall|anyon: usize|
                    fused_anyons@.contains(anyon) <==> fused_before(
                        self.ops@,
                        i + 1,
                        anyon,
                    ) by {
                    if fused_before(self.ops@, i + 1, anyon) {
                        let k = choose|k: int|
                            0 <= k < i + 1 && (#[trigger] self.ops@[k]).1.touches(anyon);
                        if k < i {
                            assert(fused_before(self.ops@, i as int, anyon));
                        }
                    }
                    if fused_before(self.ops@, i as int, anyon) {
                        let k = choose|k: int|
                            0 <= k < i && (#[trigger] self.ops@[k]).1.touches(anyon);
                        assert(self.ops@[k].1.touches(anyon));
                    }
                    if anyon == anyon_1 || anyon == anyon_2 {
                        assert(self.ops@[i as int].1.touches(anyon));
                    }
                }
            }
            i += 1;
        }
        true
    }
}

} // verus!
