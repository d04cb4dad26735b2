use nalgebra::{Complex, DMatrix};
use tqc_emu::anyon::{Anyon, TopoCharge};
use tqc_emu::braiding::Braid;
use tqc_emu::error::Error;
use tqc_emu::fusion::FusionPair;
use tqc_emu::math::Matrix;
use tqc_emu::model::AnyonModel;
use tqc_emu::state::State;

type C64 = Complex<f64>;

fn state_of(charges: &[TopoCharge], pairs: &[(u32, usize, usize)]) -> State {
    let mut state = State::new();
    for (i, charge) in charges.iter().enumerate() {
        state.add_anyon(Anyon::new(format!("a{}", i), *charge, (0, 0)));
    }
    for (time, a, b) in pairs {
        state
            .add_fusion_op((*time, FusionPair::new(*a, *b)))
            .unwrap();
    }
    state
}

fn six_sigmas() -> State {
    let s = TopoCharge::Sigma;
    state_of(
        &[s, s, s, s, s, s],
        &[(1, 0, 1), (2, 0, 2), (3, 0, 3), (4, 0, 4), (5, 0, 5)],
    )
}

fn two_pairs() -> State {
    let s = TopoCharge::Sigma;
    state_of(&[s, s, s, s], &[(1, 0, 1), (2, 2, 3)])
}

fn names(braid: &Braid) -> Vec<String> {
    braid
        .state()
        .anyons()
        .iter()
        .map(|a| a.name().to_string())
        .collect()
}

fn to_matrix(m: &DMatrix<C64>) -> Matrix<C64> {
    let rows: Vec<Vec<C64>> = (0..m.nrows())
        .map(|i| (0..m.ncols()).map(|j| m[(i, j)]).collect())
        .collect();
    Matrix::from_rows(rows).unwrap()
}

fn to_dmatrix(m: &Matrix<C64>) -> DMatrix<C64> {
    DMatrix::from_fn(m.nrows(), m.ncols(), |i, j| *m.get(i, j))
}

fn ising_r() -> DMatrix<C64> {
    let phase = Complex::from_polar(1.0, -std::f64::consts::PI / 8.0);
    DMatrix::from_row_slice(
        2,
        2,
        &[
            phase,
            Complex::new(0.0, 0.0),
            Complex::new(0.0, 0.0),
            phase * Complex::new(0.0, 1.0),
        ],
    )
}

fn ising_f() -> DMatrix<C64> {
    let h = 1.0 / (2.0 as f64).sqrt();
    DMatrix::from_row_slice(
        2,
        2,
        &[
            Complex::new(h, 0.0),
            Complex::new(h, 0.0),
            Complex::new(h, 0.0),
            Complex::new(-h, 0.0),
        ],
    )
}

fn model_of(r: &DMatrix<C64>, f: &DMatrix<C64>) -> AnyonModel<C64> {
    let changed = f.clone().try_inverse().map(|f_inv| f_inv * r * f);
    AnyonModel::new(
        to_matrix(r),
        changed.map(|m| to_matrix(&m)),
        to_matrix(&DMatrix::<C64>::identity(2, 2)),
    )
    .unwrap()
}

fn ising_model() -> AnyonModel<C64> {
    model_of(&ising_r(), &ising_f())
}

fn close(a: &DMatrix<C64>, b: &DMatrix<C64>) -> bool {
    a.shape() == b.shape() && (a - b).iter().all(|x| x.norm() < 1e-12)
}

#[test]
fn braid_needs_three_anyons() {
    let s = TopoCharge::Sigma;
    assert!(matches!(
        Braid::new(State::new()),
        Err(Error::ConstructionError(_))
    ));
    assert!(matches!(
        Braid::new(state_of(&[s, s], &[(1, 0, 1)])),
        Err(Error::ConstructionError(_))
    ));
    let braid = Braid::new(state_of(&[s, s, s], &[])).unwrap();
    assert!(braid.swaps().is_empty());
    assert_eq!(names(&braid), vec!["a0", "a1", "a2"]);
}

#[test]
fn swap_of_positions_that_are_not_adjacent_fails() {
    let mut braid = Braid::new(six_sigmas()).unwrap();
    assert!(matches!(
        braid.swap(vec![(0, 2)]),
        Err(Error::BraidingError(_))
    ));
    assert!(matches!(
        braid.swap(vec![(3, 3)]),
        Err(Error::BraidingError(_))
    ));
    assert!(matches!(
        braid.swap(vec![(0, 1), (5, 3)]),
        Err(Error::BraidingError(_))
    ));
    // nothing was applied
    assert!(braid.swaps().is_empty());
    assert_eq!(names(&braid), vec!["a0", "a1", "a2", "a3", "a4", "a5"]);
}

#[test]
fn swap_using_an_index_twice_fails() {
    let mut braid = Braid::new(six_sigmas()).unwrap();
    assert!(matches!(
        braid.swap(vec![(0, 1), (1, 2)]),
        Err(Error::BraidingError(_))
    ));
    assert!(matches!(
        braid.swap(vec![(2, 3), (4, 5), (3, 2)]),
        Err(Error::BraidingError(_))
    ));
    assert!(braid.swaps().is_empty());
    assert_eq!(names(&braid), vec!["a0", "a1", "a2", "a3", "a4", "a5"]);
}

#[test]
fn swap_exchanges_the_anyons_and_grows_the_history() {
    let mut braid = Braid::new(six_sigmas()).unwrap();
    assert!(braid.swap(vec![(0, 1), (3, 2)]).is_ok());
    assert_eq!(names(&braid), vec!["a1", "a0", "a3", "a2", "a4", "a5"]);
    assert!(braid.swap(vec![(1, 2)]).is_ok());
    assert_eq!(names(&braid), vec!["a1", "a3", "a0", "a2", "a4", "a5"]);
    assert!(braid.swap(vec![]).is_ok());
    assert_eq!(
        braid.swaps(),
        vec![vec![(0, 1), (3, 2)], vec![(1, 2)], vec![]]
    );
    // the schedule is left alone
    assert_eq!(braid.state().fusion_ops(), six_sigmas().fusion_ops());
}

#[test]
fn swap_beyond_the_last_anyon_moves_nothing() {
    let mut braid = Braid::new(six_sigmas()).unwrap();
    assert!(braid.swap(vec![(5, 6), (0, 1)]).is_ok());
    assert_eq!(names(&braid), vec!["a1", "a0", "a2", "a3", "a4", "a5"]);
    assert_eq!(braid.swaps(), vec![vec![(5, 6), (0, 1)]]);
    let model = ising_model();
    assert!(matches!(
        braid.generate_swap_matrix(1, 0, &model),
        Err(Error::BraidingError(_))
    ));
    assert!(braid.generate_swap_matrix(1, 1, &model).is_ok());
}

#[test]
fn swap_to_qubit_finds_the_pair_of_the_encoding() {
    let mut braid = Braid::new(six_sigmas()).unwrap();
    braid.swap(vec![(0, 1), (2, 3)]).unwrap();
    braid.swap(vec![(1, 0)]).unwrap();
    // the encoding is [(0,1), (0,3), (0,5)]
    assert_eq!(braid.swap_to_qubit(1, 0).unwrap(), Some(0));
    assert_eq!(braid.swap_to_qubit(1, 1).unwrap(), None);
    assert_eq!(braid.swap_to_qubit(2, 0).unwrap(), Some(0));

    let mut braid = Braid::new(two_pairs()).unwrap();
    braid.swap(vec![(3, 2), (0, 1)]).unwrap();
    assert_eq!(braid.swap_to_qubit(1, 0).unwrap(), Some(1));
    assert_eq!(braid.swap_to_qubit(1, 1).unwrap(), Some(0));
}

#[test]
fn swap_to_qubit_checks_time_and_index() {
    let mut braid = Braid::new(six_sigmas()).unwrap();
    assert!(matches!(
        braid.swap_to_qubit(1, 0),
        Err(Error::BraidingError(_))
    ));
    braid.swap(vec![(0, 1)]).unwrap();
    assert!(matches!(
        braid.swap_to_qubit(0, 0),
        Err(Error::BraidingError(_))
    ));
    assert!(matches!(
        braid.swap_to_qubit(2, 0),
        Err(Error::BraidingError(_))
    ));
    assert!(matches!(
        braid.swap_to_qubit(1, 1),
        Err(Error::BraidingError(_))
    ));
    assert!(braid.swap_to_qubit(1, 0).is_ok());
}

#[test]
fn swap_to_qubit_without_an_encoding_finds_nothing() {
    let s = TopoCharge::Sigma;
    let mut braid = Braid::new(state_of(&[s, s, s], &[(1, 0, 1), (2, 0, 2)])).unwrap();
    braid.swap(vec![(0, 1)]).unwrap();
    assert_eq!(braid.swap_to_qubit(1, 0).unwrap(), None);
    assert!(matches!(
        braid.generate_unitary(1, 0, &ising_model()),
        Err(Error::FusionError(_))
    ));
}

#[test]
fn swap_matrix_of_a_direct_swap_is_the_r_matrix() {
    let mut braid = Braid::new(six_sigmas()).unwrap();
    braid.swap(vec![(0, 1)]).unwrap();
    braid.swap(vec![(1, 0)]).unwrap();
    let model = ising_model();
    let first = braid.generate_swap_matrix(1, 0, &model).unwrap();
    assert_eq!(to_dmatrix(&first), ising_r());
    let second = braid.generate_swap_matrix(2, 0, &model).unwrap();
    assert_eq!(to_dmatrix(&second), ising_r());
}

#[test]
fn swap_matrix_of_another_swap_is_in_the_changed_basis() {
    let mut braid = Braid::new(six_sigmas()).unwrap();
    braid.swap(vec![(1, 2)]).unwrap();
    let model = ising_model();
    let matrix = braid.generate_swap_matrix(1, 0, &model).unwrap();
    let f = ising_f();
    let expected = f.clone().try_inverse().unwrap() * ising_r() * f;
    assert_eq!(to_dmatrix(&matrix), expected);
    assert!(!close(&expected, &ising_r()));

    // fused with each other, but not at time 1
    let mut braid = Braid::new(two_pairs()).unwrap();
    braid.swap(vec![(2, 3)]).unwrap();
    let matrix = braid.generate_swap_matrix(1, 0, &model).unwrap();
    assert_eq!(to_dmatrix(&matrix), expected);
}

#[test]
fn swap_matrix_fails_without_an_inverse_of_f() {
    let singular = DMatrix::from_row_slice(
        2,
        2,
        &[
            Complex::new(1.0, 0.0),
            Complex::new(1.0, 0.0),
            Complex::new(1.0, 0.0),
            Complex::new(1.0, 0.0),
        ],
    );
    let model = model_of(&ising_r(), &singular);
    assert!(model.basis_changed().is_none());
    let mut braid = Braid::new(six_sigmas()).unwrap();
    braid.swap(vec![(1, 2), (4, 5)]).unwrap();
    braid.swap(vec![(0, 1)]).unwrap();
    assert!(matches!(
        braid.generate_swap_matrix(1, 0, &model),
        Err(Error::BraidingError(_))
    ));
    // a direct swap needs no change of basis
    assert!(braid.generate_swap_matrix(2, 0, &model).is_ok());
}

#[test]
fn swap_matrix_checks_time_and_index() {
    let mut braid = Braid::new(six_sigmas()).unwrap();
    braid.swap(vec![(0, 1)]).unwrap();
    let model = ising_model();
    assert!(matches!(
        braid.generate_swap_matrix(0, 0, &model),
        Err(Error::BraidingError(_))
    ));
    assert!(matches!(
        braid.generate_swap_matrix(2, 0, &model),
        Err(Error::BraidingError(_))
    ));
    assert!(matches!(
        braid.generate_swap_matrix(1, 1, &model),
        Err(Error::BraidingError(_))
    ));
}

#[test]
fn unitary_is_the_kronecker_product_over_the_qubits() {
    let model = ising_model();
    let identity = DMatrix::<C64>::identity(2, 2);

    let mut braid = Braid::new(six_sigmas()).unwrap();
    braid.swap(vec![(0, 1)]).unwrap();
    let unitary = to_dmatrix(&braid.generate_unitary(1, 0, &model).unwrap());
    assert_eq!(unitary.shape(), (8, 8));
    let expected = ising_r().kronecker(&identity).kronecker(&identity);
    assert_eq!(unitary, expected);

    let mut braid = Braid::new(two_pairs()).unwrap();
    braid.swap(vec![(3, 2)]).unwrap();
    let unitary = to_dmatrix(&braid.generate_unitary(1, 0, &model).unwrap());
    assert_eq!(unitary.shape(), (4, 4));
    let f = ising_f();
    let changed = f.clone().try_inverse().unwrap() * ising_r() * f;
    assert_eq!(unitary, identity.kronecker(&changed));
}

#[test]
fn unitary_is_unitary() {
    let model = ising_model();
    for (state, swaps) in [
        (six_sigmas(), vec![(0, 1)]),
        (six_sigmas(), vec![(1, 0)]),
        (two_pairs(), vec![(2, 3)]),
        (two_pairs(), vec![(0, 1)]),
    ] {
        let mut braid = Braid::new(state).unwrap();
        braid.swap(swaps).unwrap();
        let unitary = to_dmatrix(&braid.generate_unitary(1, 0, &model).unwrap());
        let qubits = braid.state().fusion_ops().len();
        assert!(unitary.nrows() == unitary.ncols());
        assert!(unitary.nrows().is_power_of_two() && unitary.nrows() <= 1 << qubits);
        let product = &unitary * unitary.adjoint();
        let identity = DMatrix::<C64>::identity(unitary.nrows(), unitary.nrows());
        assert!(close(&product, &identity));
    }
}

#[test]
fn unitary_fails_for_a_swap_on_no_qubit() {
    let model = ising_model();
    let mut braid = Braid::new(six_sigmas()).unwrap();
    braid.swap(vec![(1, 2)]).unwrap();
    assert!(matches!(
        braid.generate_unitary(1, 0, &model),
        Err(Error::BraidingError(_))
    ));
    assert!(matches!(
        braid.generate_unitary(1, 1, &model),
        Err(Error::BraidingError(_))
    ));
    assert!(matches!(
        braid.generate_unitary(2, 0, &model),
        Err(Error::BraidingError(_))
    ));
}

#[test]
fn model_wants_matrices_of_two_by_two() {
    let r = to_matrix(&ising_r());
    let identity = to_matrix(&DMatrix::<C64>::identity(2, 2));
    let wide = to_matrix(&DMatrix::<C64>::identity(3, 3));
    assert!(matches!(
        AnyonModel::new(wide.clone(), None, identity.clone()),
        Err(Error::ConstructionError(_))
    ));
    assert!(matches!(
        AnyonModel::new(r.clone(), Some(wide.clone()), identity.clone()),
        Err(Error::ConstructionError(_))
    ));
    assert!(matches!(
        AnyonModel::new(r.clone(), None, wide),
        Err(Error::ConstructionError(_))
    ));
    let model = AnyonModel::new(r, None, identity).unwrap();
    assert_eq!(to_dmatrix(model.r_mtx()), ising_r());
    assert_eq!(
        to_dmatrix(model.identity()),
        DMatrix::<C64>::identity(2, 2)
    );
}

#[test]
fn braid_is_drawn() {
    let s = TopoCharge::Sigma;
    let mut braid = Braid::new(state_of(&[s, s, s], &[])).unwrap();
    assert_eq!(braid.to_string(), "");
    braid.swap(vec![(0, 1)]).unwrap();
    let first = [
        "    \\   /   |   ",
        "     \\ /    |   ",
        "      \\     |   ",
        "     / \\    |   ",
        "    /   \\   |   ",
    ];
    assert_eq!(braid.to_string(), first.join("\n"));
    braid.swap(vec![(2, 1)]).unwrap();
    braid.swap(vec![]).unwrap();
    let second = [
        "    |   \\   /   ",
        "    |    \\ /    ",
        "    |     /     ",
        "    |    / \\    ",
        "    |   /   \\   ",
    ];
    let third = ["    |   |   |   "; 5];
    let mut rows: Vec<&str> = Vec::new();
    rows.extend(first);
    rows.extend(second);
    rows.extend(third);
    assert_eq!(braid.to_string(), rows.join("\n"));
}

#[test]
fn braid_drawing_is_cut_at_the_edge() {
    let s = TopoCharge::Sigma;
    let mut braid = Braid::new(state_of(&[s, s, s], &[])).unwrap();
    braid.swap(vec![(2, 3)]).unwrap();
    let rows = [
        "    |   |   \\   ",
        "    |   |    \\ /",
        "    |   |     \\ ",
        "    |   |    / \\",
        "    |   |   /   ",
    ];
    assert_eq!(braid.to_string(), rows.join("\n"));
}
