use tqc_emu::basis::Basis;
use tqc_emu::fusion::FusionPair;
use tqc_emu::state::FusionNode;

fn ops(pairs: &[(u32, usize, usize)]) -> Vec<FusionNode> {
    pairs
        .iter()
        .map(|(time, a, b)| (*time, FusionPair::new(*a, *b)))
        .collect()
}

#[test]
fn basis_with_wrong_op_count_is_rejected() {
    assert!(!Basis::new(ops(&[(1, 0, 1)])).verify_basis(3));
    assert!(!Basis::new(ops(&[(1, 0, 1), (2, 2, 3)])).verify_basis(2));
    assert!(!Basis::new(ops(&[])).verify_basis(0));
    assert!(!Basis::new(ops(&[])).verify_basis(2));
    assert!(!Basis::new(ops(&[(1, 0, 1)])).verify_basis(0));
}

#[test]
fn basis_skipping_an_unfused_anyon_is_rejected() {
    // fuses (0,2) before anything has fused anyon 1
    assert!(!Basis::new(ops(&[(1, 0, 2), (2, 0, 1)])).verify_basis(3));
}

#[test]
fn basis_fusing_an_anyon_twice_is_rejected() {
    assert!(!Basis::new(ops(&[(1, 0, 1), (2, 0, 2)])).verify_basis(3));
    assert!(!Basis::new(ops(&[(1, 0, 1), (2, 1, 2)])).verify_basis(3));
    assert!(!Basis::new(ops(&[(1, 0, 1), (2, 0, 1)])).verify_basis(3));
}

#[test]
fn basis_with_a_pair_out_of_order_or_range_is_rejected() {
    assert!(!Basis::new(ops(&[(1, 1, 0)])).verify_basis(2));
    assert!(!Basis::new(ops(&[(1, 0, 0)])).verify_basis(2));
    assert!(!Basis::new(ops(&[(1, 0, 2)])).verify_basis(2));
    assert!(!Basis::new(ops(&[(1, 1, 2)])).verify_basis(2));
}

#[test]
fn basis_of_one_or_two_anyons_is_accepted() {
    assert!(Basis::new(ops(&[])).verify_basis(1));
    assert!(Basis::new(ops(&[(1, 0, 1)])).verify_basis(2));
    assert!(Basis::new(ops(&[(9, 0, 1)])).verify_basis(2));
    let basis = Basis::new(ops(&[(1, 0, 1)]));
    assert!(basis.clone().verify_basis(2));
}
