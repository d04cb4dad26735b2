//! The fusion calculus of the Ising model, stated over unbounded charge
//! multiplicities.
//!
//! A fusion outcome is a formal sum of charges. `Multiplicities` counts how
//! often each charge occurs in such a sum; `fuse` extends the fusion table
//! bilinearly to sums.

use vstd::prelude::*;
use crate::anyon::TopoCharge;

verus! {

/// Executable charge vector: the multiplicities of Psi, Vacuum and Sigma, in
/// this order.
pub type CanonicalTC = [u64; 3];

/// How often each charge occurs in a fusion outcome.
pub struct Multiplicities {
    pub psi: nat,
    pub vacuum: nat,
    pub sigma: nat,
}

impl Multiplicities {
    /// The multiplicity of one charge.
    pub open spec fn of(self, c: TopoCharge) -> nat {
        match c {
            TopoCharge::Psi => self.psi,
            TopoCharge::Vacuum => self.vacuum,
            TopoCharge::Sigma => self.sigma,
        }
    }

    /// The outcome that holds `c` once and nothing else.
    pub open spec fn unit(c: TopoCharge) -> Multiplicities {
        match c {
            TopoCharge::Psi => Multiplicities { psi: 1, vacuum: 0, sigma: 0 },
            TopoCharge::Vacuum => Multiplicities { psi: 0, vacuum: 1, sigma: 0 },
            TopoCharge::Sigma => Multiplicities { psi: 0, vacuum: 0, sigma: 1 },
        }
    }

    pub open spec fn plus(self, other: Multiplicities) -> Multiplicities {
        Multiplicities {
            psi: self.psi + other.psi,
            vacuum: self.vacuum + other.vacuum,
            sigma: self.sigma + other.sigma,
        }
    }

    pub open spec fn scaled(self, k: nat) -> Multiplicities {
        Multiplicities { psi: self.psi * k, vacuum: self.vacuum * k, sigma: self.sigma * k }
    }

    /// Each multiplicity cut off at the largest value a `u64` holds.
    pub open spec fn capped(self) -> Multiplicities {
        Multiplicities {
            psi: cap(self.psi),
            vacuum: cap(self.vacuum),
            sigma: cap(self.sigma),
        }
    }
}

/// `n`, or `u64::MAX` where `n` is larger.
pub open spec fn cap(n: nat) -> nat {
    if n <= u64::MAX {
        n
    } else {
        u64::MAX as nat
    }
}

/// The multiplicities that a charge vector holds.
pub open spec fn tc_view(tc: CanonicalTC) -> Multiplicities {
    Multiplicities { psi: tc[0] as nat, vacuum: tc[1] as nat, sigma: tc[2] as nat }
}

/// The Ising fusion table: the outcome of fusing one `a` with one `b`.
pub open spec fn fusion_rule(a: TopoCharge, b: TopoCharge) -> Multiplicities {
    match (a, b) {
        (TopoCharge::Vacuum, c) => Multiplicities::unit(c),
        (c, TopoCharge::Vacuum) => Multiplicities::unit(c),
        (TopoCharge::Psi, TopoCharge::Psi) => Multiplicities::unit(TopoCharge::Vacuum),
        (TopoCharge::Psi, TopoCharge::Sigma) => Multiplicities::unit(TopoCharge::Sigma),
        (TopoCharge::Sigma, TopoCharge::Psi) => Multiplicities::unit(TopoCharge::Sigma),
        (TopoCharge::Sigma, TopoCharge::Sigma) => Multiplicities::unit(TopoCharge::Vacuum).plus(
            Multiplicities::unit(TopoCharge::Psi),
        ),
    }
}

/// The share of the pair of charges `(x, y)` in the fusion of `a` with `b`:
/// the table entry, once for each way to pick an `x` from `a` and a `y` from
/// `b`.
pub open spec fn fusion_cell(
    a: Multiplicities,
    b: Multiplicities,
    x: TopoCharge,
    y: TopoCharge,
) -> Multiplicities {
    fusion_rule(x, y).scaled(a.of(x) * b.of(y))
}

/// The shares of one charge `x` of `a` against every charge of `b`.
pub open spec fn fusion_row(a: Multiplicities, b: Multiplicities, x: TopoCharge) -> Multiplicities {
    fusion_cell(a, b, x, TopoCharge::Psi).plus(fusion_cell(a, b, x, TopoCharge::Vacuum)).plus(
        fusion_cell(a, b, x, TopoCharge::Sigma),
    )
}

/// Fusion of two outcomes: the bilinear extension of the fusion table.
pub open spec fn fuse(a: Multiplicities, b: Multiplicities) -> Multiplicities {
    fusion_row(a, b, TopoCharge::Psi).plus(fusion_row(a, b, TopoCharge::Vacuum)).plus(
        fusion_row(a, b, TopoCharge::Sigma),
    )
}

/// One table entry, taken `k` times.
proof fn lemma_cell_components(x: TopoCharge, y: TopoCharge, k: nat)
    ensures
        fusion_rule(x, y).scaled(k).psi == (if fusion_rule(x, y).psi == 1 {
            k
        } else {
            0
        }),
        fusion_rule(x, y).scaled(k).vacuum == (if fusion_rule(x, y).vacuum == 1 {
            k
        } else {
            0
        }),
        fusion_rule(x, y).scaled(k).sigma == (if fusion_rule(x, y).sigma == 1 {
            k
        } else {
            0
        }),
{
    assert(1 * k == k) by (nonlinear_arith);
    assert(0 * k == 0) by (nonlinear_arith);
}

/// Fusion written out per component.
pub proof fn lemma_fuse_components(a: Multiplicities, b: Multiplicities)
    ensures
        fuse(a, b).psi == a.psi * b.vacuum + a.vacuum * b.psi + a.sigma * b.sigma,
        fuse(a, b).vacuum == a.psi * b.psi + a.vacuum * b.vacuum + a.sigma * b.sigma,
        fuse(a, b).sigma == a.psi * b.sigma + a.vacuum * b.sigma + a.sigma * b.psi + a.sigma
            * b.vacuum,
{
    lemma_cell_components(TopoCharge::Psi, TopoCharge::Psi, a.psi * b.psi);
    lemma_cell_components(TopoCharge::Psi, TopoCharge::Vacuum, a.psi * b.vacuum);
    lemma_cell_components(TopoCharge::Psi, TopoCharge::Sigma, a.psi * b.sigma);
    lemma_cell_components(TopoCharge::Vacuum, TopoCharge::Psi, a.vacuum * b.psi);
    lemma_cell_components(TopoCharge::Vacuum, TopoCharge::Vacuum, a.vacuum * b.vacuum);
    lemma_cell_components(TopoCharge::Vacuum, TopoCharge::Sigma, a.vacuum * b.sigma);
    lemma_cell_components(TopoCharge::Sigma, TopoCharge::Psi, a.sigma * b.psi);
    lemma_cell_components(TopoCharge::Sigma, TopoCharge::Vacuum, a.sigma * b.vacuum);
    lemma_cell_components(TopoCharge::Sigma, TopoCharge::Sigma, a.sigma * b.sigma);
}

/// Fusion is commutative: the order of the two operands does not matter.
pub proof fn lemma_fuse_commutative(a: Multiplicities, b: Multiplicities)
    ensures
        fuse(a, b) == fuse(b, a),
{
    lemma_fuse_components(a, b);
    lemma_fuse_components(b, a);
    assert(a.psi * b.vacuum == b.vacuum * a.psi) by (nonlinear_arith);
    assert(a.vacuum * b.psi == b.psi * a.vacuum) by (nonlinear_arith);
    assert(a.sigma * b.sigma == b.sigma * a.sigma) by (nonlinear_arith);
    assert(a.psi * b.psi == b.psi * a.psi) by (nonlinear_arith);
    assert(a.vacuum * b.vacuum == b.vacuum * a.vacuum) by (nonlinear_arith);
    assert(a.psi * b.sigma == b.sigma * a.psi) by (nonlinear_arith);
    assert(a.vacuum * b.sigma == b.sigma * a.vacuum) by (nonlinear_arith);
    assert(a.sigma * b.psi == b.psi * a.sigma) by (nonlinear_arith);
    assert(a.sigma * b.vacuum == b.vacuum * a.sigma) by (nonlinear_arith);
}

/// A sum of three or four, multiplied from either side, is the sum of the
/// products.
proof fn lemma_distribute(x: int, y: int, z: int, u: int, w: int)
    ensures
        (x + y + z) * w == x * w + y * w + z * w,
        w * (x + y + z) == w * x + w * y + w * z,
        (x + y + z + u) * w == x * w + y * w + z * w + u * w,
        w * (x + y + z + u) == w * x + w * y + w * z + w * u,
{
    assert((x + y + z) * w == x * w + y * w + z * w) by (nonlinear_arith);
    assert(w * (x + y + z) == w * x + w * y + w * z) by (nonlinear_arith);
    assert((x + y + z + u) * w == x * w + y * w + z * w + u * w) by (nonlinear_arith);
    assert(w * (x + y + z + u) == w * x + w * y + w * z + w * u) by (nonlinear_arith);
}

/// A product of three does not depend on which two are multiplied first.
proof fn lemma_product_of_three(x: int, y: int, z: int)
    ensures
        (x * y) * z == x * (y * z),
{
    assert((x * y) * z == x * (y * z)) by (nonlinear_arith);
}

/// Fusion is associative: three outcomes fuse to the same whichever two of
/// them fuse first.
pub proof fn lemma_fuse_associative(a: Multiplicities, b: Multiplicities, c: Multiplicities)
    ensures
        fuse(fuse(a, b), c) == fuse(a, fuse(b, c)),
{
    lemma_fuse_components(a, b);
    lemma_fuse_components(b, c);
    lemma_fuse_components(fuse(a, b), c);
    lemma_fuse_components(a, fuse(b, c));
    let (ap, av, az) = (a.psi as int, a.vacuum as int, a.sigma as int);
    let (bp, bv, bz) = (b.psi as int, b.vacuum as int, b.sigma as int);
    let (cp, cv, cz) = (c.psi as int, c.vacuum as int, c.sigma as int);
    // the components of the fusion of a with b, each multiplied by one of c
    lemma_distribute(ap * bv, av * bp, az * bz, 0, cp);
    lemma_distribute(ap * bv, av * bp, az * bz, 0, cv);
    lemma_distribute(ap * bv, av * bp, az * bz, 0, cz);
    lemma_distribute(ap * bp, av * bv, az * bz, 0, cp);
    lemma_distribute(ap * bp, av * bv, az * bz, 0, cv);
    lemma_distribute(ap * bp, av * bv, az * bz, 0, cz);
    lemma_distribute(ap * bz, av * bz, az * bp, az * bv, cp);
    lemma_distribute(ap * bz, av * bz, az * bp, az * bv, cv);
    lemma_distribute(ap * bz, av * bz, az * bp, az * bv, cz);
    // one of a, multiplied by the components of the fusion of b with c
    lemma_distribute(bp * cv, bv * cp, bz * cz, 0, ap);
    lemma_distribute(bp * cv, bv * cp, bz * cz, 0, av);
    lemma_distribute(bp * cv, bv * cp, bz * cz, 0, az);
    lemma_distribute(bp * cp, bv * cv, bz * cz, 0, ap);
    lemma_distribute(bp * cp, bv * cv, bz * cz, 0, av);
    lemma_distribute(bp * cp, bv * cv, bz * cz, 0, az);
    lemma_distribute(bp * cz, bv * cz, bz * cp, bz * cv, ap);
    lemma_distribute(bp * cz, bv * cz, bz * cp, bz * cv, av);
    lemma_distribute(bp * cz, bv * cz, bz * cp, bz * cv, az);
    lemma_product_of_three(ap, bp, cp);
    lemma_product_of_three(ap, bp, cv);
    lemma_product_of_three(ap, bp, cz);
    lemma_product_of_three(ap, bv, cp);
    lemma_product_of_three(ap, bv, cv);
    lemma_product_of_three(ap, bv, cz);
    lemma_product_of_three(ap, bz, cp);
    lemma_product_of_three(ap, bz, cv);
    lemma_product_of_three(ap, bz, cz);
    lemma_product_of_three(av, bp, cp);
    lemma_product_of_three(av, bp, cv);
    lemma_product_of_three(av, bp, cz);
    lemma_product_of_three(av, bv, cp);
    lemma_product_of_three(av, bv, cv);
    lemma_product_of_three(av, bv, cz);
    lemma_product_of_three(av, bz, cp);
    lemma_product_of_three(av, bz, cv);
    lemma_product_of_three(av, bz, cz);
    lemma_product_of_three(az, bp, cp);
    lemma_product_of_three(az, bp, cv);
    lemma_product_of_three(az, bp, cz);
    lemma_product_of_three(az, bv, cp);
    lemma_product_of_three(az, bv, cv);
    lemma_product_of_three(az, bv, cz);
    lemma_product_of_three(az, bz, cp);
    lemma_product_of_three(az, bz, cv);
    lemma_product_of_three(az, bz, cz);
}

/// Fusion is linear in its first operand: a sum of outcomes fuses to the sum
/// of what its parts fuse to. By commutativity the same holds of the second.
pub proof fn lemma_fuse_additive(a: Multiplicities, b: Multiplicities, c: Multiplicities)
    ensures
        fuse(a.plus(b), c) == fuse(a, c).plus(fuse(b, c)),
{
    lemma_fuse_components(a.plus(b), c);
    lemma_fuse_components(a, c);
    lemma_fuse_components(b, c);
    let (ap, av, az) = (a.psi as int, a.vacuum as int, a.sigma as int);
    let (bp, bv, bz) = (b.psi as int, b.vacuum as int, b.sigma as int);
    lemma_distribute(ap, bp, 0, 0, c.psi as int);
    lemma_distribute(ap, bp, 0, 0, c.vacuum as int);
    lemma_distribute(ap, bp, 0, 0, c.sigma as int);
    lemma_distribute(av, bv, 0, 0, c.psi as int);
    lemma_distribute(av, bv, 0, 0, c.vacuum as int);
    lemma_distribute(av, bv, 0, 0, c.sigma as int);
    lemma_distribute(az, bz, 0, 0, c.psi as int);
    lemma_distribute(az, bz, 0, 0, c.vacuum as int);
    lemma_distribute(az, bz, 0, 0, c.sigma as int);
}

/// The vacuum is the neutral element of fusion.
pub proof fn lemma_fuse_vacuum(a: Multiplicities)
    ensures
        fuse(Multiplicities::unit(TopoCharge::Vacuum), a) == a,
        fuse(a, Multiplicities::unit(TopoCharge::Vacuum)) == a,
{
    let one = Multiplicities::unit(TopoCharge::Vacuum);
    lemma_fuse_components(one, a);
    lemma_fuse_components(a, one);
    assert(1 * a.psi == a.psi && 0 * a.psi == 0 && a.psi * 1 == a.psi && a.psi * 0 == 0)
        by (nonlinear_arith);
    assert(1 * a.vacuum == a.vacuum && 0 * a.vacuum == 0 && a.vacuum * 1 == a.vacuum && a.vacuum
        * 0 == 0) by (nonlinear_arith);
    assert(1 * a.sigma == a.sigma && 0 * a.sigma == 0 && a.sigma * 1 == a.sigma && a.sigma * 0
        == 0) by (nonlinear_arith);
}

/// A product of two multiplicities, before and after the factors are cut
/// off: the two agree, or both are beyond what a `u64` holds.
proof fn lemma_product_capped(x: nat, y: nat)
    ensures
        cap(x) * cap(y) == x * y || (cap(x) * cap(y) >= u64::MAX && x * y >= u64::MAX),
{
    if x <= u64::MAX && y <= u64::MAX {
    } else if x == 0 || y == 0 {
        assert(x * y == 0) by (nonlinear_arith)
            requires
                x == 0 || y == 0,
        ;
        assert(cap(x) * cap(y) == 0) by (nonlinear_arith)
            requires
                cap(x) == 0 || cap(y) == 0,
        ;
    } else {
        assert(x * y >= u64::MAX) by (nonlinear_arith)
            requires
                x >= 1,
                y >= 1,
                x > u64::MAX || y > u64::MAX,
        ;
        assert(cap(x) * cap(y) >= u64::MAX) by (nonlinear_arith)
            requires
                cap(x) >= 1,
                cap(y) >= 1,
                cap(x) >= u64::MAX || cap(y) >= u64::MAX,
        ;
    }
}

/// Cutting the operands off before fusing changes nothing once the result
/// is cut off too.
pub proof fn lemma_fuse_capped(a: Multiplicities, b: Multiplicities)
    ensures
        fuse(a.capped(), b.capped()).capped() == fuse(a, b).capped(),
{
    lemma_fuse_components(a, b);
    lemma_fuse_components(a.capped(), b.capped());
    lemma_product_capped(a.psi, b.psi);
    lemma_product_capped(a.psi, b.vacuum);
    lemma_product_capped(a.psi, b.sigma);
    lemma_product_capped(a.vacuum, b.psi);
    lemma_product_capped(a.vacuum, b.vacuum);
    lemma_product_capped(a.vacuum, b.sigma);
    lemma_product_capped(a.sigma, b.psi);
    lemma_product_capped(a.sigma, b.vacuum);
    lemma_product_capped(a.sigma, b.sigma);
}

/// The charge of a whole system: its charges fused from left to right,
/// starting from the vacuum.
pub open spec fn total_charge(charges: Seq<Multiplicities>) -> Multiplicities
    decreases charges.len(),
{
    if charges.len() == 0 {
        Multiplicities::unit(TopoCharge::Vacuum)
    } else {
        fuse(total_charge(charges.drop_last()), charges.last())
    }
}

} // verus!
