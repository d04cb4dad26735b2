use tqc_emu::anyon::{Anyon, TopoCharge};
use tqc_emu::charge::CanonicalTC;
use tqc_emu::error::Error;
use tqc_emu::fusion::{Fusion, FusionPair};
use tqc_emu::state::{FusionNode, State};

fn origin() -> (u64, u64) {
    ((0 as f64).to_bits(), (0 as f64).to_bits())
}

fn state_of(charges: &[TopoCharge], pairs: &[(u32, usize, usize)]) -> State {
    let mut state = State::new();
    for (i, charge) in charges.iter().enumerate() {
        state.add_anyon(Anyon::new(format!("a{}", i), *charge, origin()));
    }
    for (time, a, b) in pairs {
        state
            .add_fusion_op((*time, FusionPair::new(*a, *b)))
            .unwrap();
    }
    state
}

#[test]
fn test_fusion_pair() {
    let pair1: FusionPair = FusionPair::new(1, 2);
    let pair2: FusionPair = FusionPair {
        anyon_1: 3,
        anyon_2: 4,
    };

    assert_eq!(pair1.anyon_1(), 1);
    assert_eq!(pair1.anyon_2(), 2);
    assert_eq!(pair2.anyon_1(), 3);
    assert_eq!(pair2.anyon_2(), 4);
}

#[test]
fn test_canonical_tc() {
    let example_fusion: Fusion = Fusion::new(State::new());
    let canonical_psi: CanonicalTC = [1, 0, 0];
    let canonical_vacuum: CanonicalTC = [0, 1, 0];
    let canonical_sigma: CanonicalTC = [0, 0, 1];
    assert_eq!(canonical_psi, example_fusion.canonical_tc(TopoCharge::Psi));
    assert_eq!(
        canonical_vacuum,
        example_fusion.canonical_tc(TopoCharge::Vacuum)
    );
    assert_eq!(
        canonical_sigma,
        example_fusion.canonical_tc(TopoCharge::Sigma)
    );
}

#[test]
fn test_apply_fusion() {
    let example_fusion: Fusion = Fusion::new(State::new());
    let anyon_1: CanonicalTC = [1, 0, 0]; // psi
    let anyon_2: CanonicalTC = [0, 0, 1]; // sigma
    let fusion_product: CanonicalTC = [0, 0, 1]; // sigma
    assert_eq!(
        example_fusion.apply_fusion(anyon_1, anyon_2),
        fusion_product
    );

    let anyon_1: CanonicalTC = [0, 0, 1]; // sigma
    let anyon_2: CanonicalTC = [0, 0, 1]; // sigma
    let fusion_product: CanonicalTC = [1, 1, 0]; // psi + sigma
    assert_eq!(
        example_fusion.apply_fusion(anyon_1, anyon_2),
        fusion_product
    );

    let anyon_1: CanonicalTC = [4, 3, 1]; // 4 psi + 3 vacuum + 1 sigma
    let anyon_2: CanonicalTC = [2, 5, 2]; // 2 psi + 5 vacuum + 2 sigma
    let fusion_product: CanonicalTC = [28, 25, 21]; // 28 psi + 25 vacuum + 21 sigma
    assert_eq!(
        example_fusion.apply_fusion(anyon_1, anyon_2),
        fusion_product
    );
}

#[test]
fn test_full_fusion() {
    // create initial anyons
    // add the anyons to the fusion (beginning of the fusion tree)
    let anyon1: Anyon = Anyon::new(String::from("a1"), TopoCharge::Sigma, origin());
    let anyon2: Anyon = Anyon::new(String::from("a2"), TopoCharge::Sigma, origin());
    let anyon3: Anyon = Anyon::new(String::from("a3"), TopoCharge::Psi, origin());
    let anyon4: Anyon = Anyon::new(String::from("a4"), TopoCharge::Vacuum, origin());
    let anyon5: Anyon = Anyon::new(String::from("a5"), TopoCharge::Vacuum, origin());

    let mut example_state: State = State::new();

    //add anyons to the state
    example_state.add_anyon(anyon1);
    example_state.add_anyon(anyon2);
    example_state.add_anyon(anyon3);
    example_state.add_anyon(anyon4);
    example_state.add_anyon(anyon5);

    //make fusion pairs of which anyons will fuse with which anyons
    let pair_1: FusionPair = FusionPair {
        anyon_1: 0,
        anyon_2: 1,
    };
    let pair_2: FusionPair = FusionPair {
        anyon_1: 0,
        anyon_2: 2,
    };
    let pair_3: FusionPair = FusionPair {
        anyon_1: 0,
        anyon_2: 3,
    };
    let pair_4: FusionPair = FusionPair {
        anyon_1: 0,
        anyon_2: 4,
    };

    //set those fusions in time by creating fusion nodes for each fusion pair
    let fusionop1: FusionNode = (1 as u32, pair_1.clone());
    let fusionop2: FusionNode = (2 as u32, pair_2.clone());
    let fusionop3: FusionNode = (3 as u32, pair_3.clone());
    let fusionop4: FusionNode = (4 as u32, pair_4.clone());

    //add the fusion nodes to the fusion state
    example_state.add_fusion_op(fusionop1).unwrap();
    example_state.add_fusion_op(fusionop2).unwrap();
    example_state.add_fusion_op(fusionop3).unwrap();
    example_state.add_fusion_op(fusionop4).unwrap();

    let example_fusion: Fusion = Fusion::new(example_state);

    //print the fusion tree
    println!("{}", example_fusion.to_string());

    //final fusion is psi + vacuum; it should not be able to start from a sigma
    assert!(example_fusion.verify_fusion_result(TopoCharge::Vacuum));
    assert!(example_fusion.verify_fusion_result(TopoCharge::Psi));
    assert!(!example_fusion.verify_fusion_result(TopoCharge::Sigma));

    let fusion_pair_vec: Vec<FusionPair> = vec![pair_1, pair_2];

    //check the qubit_enc
    for i in 0..fusion_pair_vec.len() - 2 {
        assert_eq!(example_fusion.qubit_enc().unwrap()[i], fusion_pair_vec[i]);
    }
}

#[test]
fn test_qubit_enc() {
    let anyon1 = Anyon::new(String::from("a"), TopoCharge::Sigma, origin());
    let anyon2 = Anyon::new(String::from("b"), TopoCharge::Sigma, origin());
    let anyon3 = Anyon::new(String::from("c"), TopoCharge::Sigma, origin());
    let anyon4 = Anyon::new(String::from("d"), TopoCharge::Sigma, origin());
    let anyon5 = Anyon::new(String::from("e"), TopoCharge::Sigma, origin());
    let anyon6 = Anyon::new(String::from("f"), TopoCharge::Sigma, origin());
    let anyons = vec![anyon1, anyon2, anyon3, anyon4, anyon5, anyon6];

    let mut state: State = State::new();

    for anyon in anyons.clone() {
        state.add_anyon(anyon);
    }

    let pairs = vec![
        (
            1,
            FusionPair {
                anyon_1: 0,
                anyon_2: 1,
            },
        ),
        (
            2,
            FusionPair {
                anyon_1: 0,
                anyon_2: 2,
            },
        ),
        (
            3,
            FusionPair {
                anyon_1: 0,
                anyon_2: 3,
            },
        ),
        (
            4,
            FusionPair {
                anyon_1: 0,
                anyon_2: 4,
            },
        ),
        (
            5,
            FusionPair {
                anyon_1: 0,
                anyon_2: 5,
            },
        ),
    ];
    for pair in pairs {
        state.add_fusion_op(pair).unwrap();
    }

    let fusion = Fusion::new(state);

    println!("{}", fusion.to_string());

    let correct = vec![
        FusionPair {
            anyon_1: 0,
            anyon_2: 1,
        },
        FusionPair {
            anyon_1: 0,
            anyon_2: 3,
        },
        FusionPair {
            anyon_1: 0,
            anyon_2: 5,
        },
    ];

    assert_eq!(fusion.qubit_enc().unwrap(), correct);
}

#[test]
fn fusion_table_entries() {
    let fusion = Fusion::new(State::new());
    let psi: CanonicalTC = [1, 0, 0];
    let vacuum: CanonicalTC = [0, 1, 0];
    let sigma: CanonicalTC = [0, 0, 1];
    assert_eq!(fusion.apply_fusion(vacuum, vacuum), vacuum);
    assert_eq!(fusion.apply_fusion(vacuum, psi), psi);
    assert_eq!(fusion.apply_fusion(vacuum, sigma), sigma);
    assert_eq!(fusion.apply_fusion(psi, psi), vacuum);
    assert_eq!(fusion.apply_fusion(psi, sigma), sigma);
    assert_eq!(fusion.apply_fusion(sigma, sigma), [1, 1, 0]);
}

#[test]
fn fusion_commutes_on_samples() {
    let fusion = Fusion::new(State::new());
    let samples: Vec<CanonicalTC> = vec![
        [0, 0, 0],
        [1, 0, 0],
        [0, 1, 0],
        [0, 0, 1],
        [4, 3, 1],
        [2, 5, 2],
        [7, 0, 9],
        [u64::MAX, 1, 2],
    ];
    for a in samples.iter() {
        for b in samples.iter() {
            assert_eq!(fusion.apply_fusion(*a, *b), fusion.apply_fusion(*b, *a));
        }
    }
}

#[test]
fn fusion_is_associative_on_samples() {
    let fusion = Fusion::new(State::new());
    let a: CanonicalTC = [4, 3, 1];
    let b: CanonicalTC = [2, 5, 2];
    let c: CanonicalTC = [1, 0, 6];
    assert_eq!(
        fusion.apply_fusion(fusion.apply_fusion(a, b), c),
        fusion.apply_fusion(a, fusion.apply_fusion(b, c))
    );
}

#[test]
fn fusion_saturates_at_the_largest_count() {
    let fusion = Fusion::new(State::new());
    let many: CanonicalTC = [u64::MAX, 0, 0];
    let two: CanonicalTC = [0, 2, 0];
    // psi x vacuum = psi, taken 2 * u64::MAX times
    assert_eq!(fusion.apply_fusion(many, two), [u64::MAX, 0, 0]);
    let half: CanonicalTC = [1 << 63, 1 << 63, 0];
    let one: CanonicalTC = [1, 1, 0];
    assert_eq!(fusion.apply_fusion(half, one), [u64::MAX, u64::MAX, 0]);
}

#[test]
fn verify_fusion_result_of_an_empty_state_is_the_vacuum() {
    let fusion = Fusion::new(State::new());
    assert!(fusion.verify_fusion_result(TopoCharge::Vacuum));
    assert!(!fusion.verify_fusion_result(TopoCharge::Psi));
    assert!(!fusion.verify_fusion_result(TopoCharge::Sigma));
}

#[test]
fn verify_fusion_result_of_three_sigmas() {
    // sigma x sigma x sigma = 2 sigma
    let s = TopoCharge::Sigma;
    let fusion = Fusion::new(state_of(&[s, s, s], &[]));
    assert!(fusion.verify_fusion_result(TopoCharge::Sigma));
    assert!(!fusion.verify_fusion_result(TopoCharge::Vacuum));
    assert!(!fusion.verify_fusion_result(TopoCharge::Psi));
}

#[test]
fn possible_sigmas_are_the_two_counts() {
    let fusion = Fusion::new(State::new());
    assert_eq!(fusion.possible_sigmas(0), vec![1, 2]);
    assert_eq!(fusion.possible_sigmas(1), vec![3, 4]);
    assert_eq!(fusion.possible_sigmas(5), vec![11, 12]);
}

#[test]
fn qubit_enc_without_fusions_is_empty() {
    let s = TopoCharge::Sigma;
    let fusion = Fusion::new(state_of(&[s, s, s], &[]));
    assert_eq!(fusion.qubit_enc().unwrap(), Vec::<FusionPair>::new());
}

#[test]
fn qubit_enc_rejects_a_terminal_sigma() {
    let s = TopoCharge::Sigma;
    let fusion = Fusion::new(state_of(&[s, s, s], &[(1, 0, 1), (2, 0, 2)]));
    assert!(matches!(fusion.qubit_enc(), Err(Error::FusionError(_))));
}

#[test]
fn qubit_enc_is_sorted_and_keeps_the_last_fusion_of_a_pair() {
    let s = TopoCharge::Sigma;
    let v = TopoCharge::Vacuum;
    // (2,3) first gives psi + vacuum; fused again with a sigma in between it gives sigma
    let state = state_of(
        &[s, s, s, s, v],
        &[(1, 2, 3), (2, 0, 1), (3, 2, 0), (4, 2, 4)],
    );
    let fusion = Fusion::new(state);
    // after (2,3): index 2 is [1,1,0]; after (0,1): index 0 is [1,1,0];
    // (2,0): [2,2,0]; (2,4): [2,2,0]
    assert_eq!(
        fusion.qubit_enc().unwrap(),
        vec![
            FusionPair::new(0, 1),
            FusionPair::new(2, 0),
            FusionPair::new(2, 3),
            FusionPair::new(2, 4),
        ]
    );

    let state = state_of(&[s, s, s, s], &[(1, 0, 1), (2, 0, 2), (3, 0, 1), (4, 0, 3)]);
    let fusion = Fusion::new(state);
    // (0,1): [1,1,0]; (0,2): [0,0,2]; (0,1) again: [0,0,2] x sigma = [2,2,0];
    // (0,3): [2,2,0] x sigma = [0,0,4], which holds sigma
    assert!(matches!(fusion.qubit_enc(), Err(Error::FusionError(_))));

    let state = state_of(&[s, s, s, v], &[(1, 0, 1), (2, 0, 2), (3, 0, 1), (4, 3, 3)]);
    let fusion = Fusion::new(state);
    // the last fusion of (0,1) gives [2,2,0], that of (0,2) gives [0,0,2], (3,3) gives vacuum
    assert_eq!(
        fusion.qubit_enc().unwrap(),
        vec![FusionPair::new(0, 1), FusionPair::new(3, 3)]
    );
}

#[test]
fn events_group_the_schedule_by_time() {
    let s = TopoCharge::Sigma;
    let state = state_of(&[s, s, s, s, s], &[(1, 0, 1), (1, 2, 3), (3, 0, 2), (7, 0, 4)]);
    let fusion = Fusion::new(state);
    assert_eq!(
        fusion.events(),
        vec![
            vec![FusionPair::new(0, 1), FusionPair::new(2, 3)],
            vec![FusionPair::new(0, 2)],
            vec![FusionPair::new(0, 4)],
        ]
    );
    assert_eq!(Fusion::new(State::new()).events(), Vec::<Vec<FusionPair>>::new());
}

#[test]
fn fusion_tree_is_drawn() {
    let mut state = State::new();
    for name in ["a", "b", "c"] {
        state.add_anyon(Anyon::new(String::from(name), TopoCharge::Sigma, origin()));
    }
    state.add_fusion_op((1, FusionPair::new(0, 1))).unwrap();
    state.add_fusion_op((2, FusionPair::new(0, 2))).unwrap();
    let fusion = Fusion::new(state);
    assert_eq!(
        fusion.to_string(),
        "a b c \n| | | \n|─| | \n|───| \n|     "
    );
    assert_eq!(Fusion::new(State::new()).to_string(), "\n\n");
}

#[test]
fn fusion_pair_is_written_and_read_back() {
    assert_eq!(FusionPair::new(0, 1).to_string(), "(0 1)");
    assert_eq!(FusionPair::new(12, 345).to_string(), "(12 345)");
    assert_eq!(
        FusionPair::new(usize::MAX, 0).to_string(),
        format!("({} 0)", usize::MAX)
    );
    for pair in [
        FusionPair::new(0, 1),
        FusionPair::new(3, 10),
        FusionPair::new(10, 3),
        FusionPair::new(usize::MAX, usize::MAX),
    ] {
        assert_eq!(FusionPair::parse(&pair.to_string()), Some(pair));
    }
}

#[test]
fn fusion_pair_parse_refuses_other_texts() {
    for text in [
        "",
        "(",
        "()",
        "( )",
        "(1 )",
        "( 1)",
        "(1 2",
        "1 2)",
        "(1  2)",
        "(1,2)",
        "(01 2)",
        "(1 02)",
        "(1 2) ",
        " (1 2)",
        "(1 2 3)",
        "(-1 2)",
        "(a b)",
        "(99999999999999999999999999 1)",
    ] {
        assert_eq!(FusionPair::parse(text), None, "{:?}", text);
    }
    assert_eq!(FusionPair::parse("(0 0)"), Some(FusionPair::new(0, 0)));
}

#[test]
fn fusion_pairs_order_by_first_then_second_index() {
    let mut pairs = vec![
        FusionPair::new(2, 0),
        FusionPair::new(0, 5),
        FusionPair::new(0, 1),
        FusionPair::new(1, 9),
    ];
    pairs.sort();
    assert_eq!(
        pairs,
        vec![
            FusionPair::new(0, 1),
            FusionPair::new(0, 5),
            FusionPair::new(1, 9),
            FusionPair::new(2, 0),
        ]
    );
}

#[test]
fn charge_names_round_trip() {
    assert_eq!(TopoCharge::Psi.to_string(), "Psi");
    assert_eq!(TopoCharge::Vacuum.to_string(), "Vacuum");
    assert_eq!(TopoCharge::Sigma.to_string(), "Sigma");
    for charge in [TopoCharge::Psi, TopoCharge::Vacuum, TopoCharge::Sigma] {
        assert_eq!(TopoCharge::from_name(&charge.to_string()), Some(charge));
    }
    assert_eq!(TopoCharge::from_name("psi"), None);
    assert_eq!(TopoCharge::from_name(""), None);
    assert_eq!(TopoCharge::from_name("Sigma "), None);
    assert_eq!(TopoCharge::Psi.value(), 0);
    assert_eq!(TopoCharge::Vacuum.value(), 1);
    assert_eq!(TopoCharge::Sigma.value(), 2);
}

#[test]
fn anyon_keeps_what_it_is_given() {
    let anyon = Anyon::new(
        String::from("left"),
        TopoCharge::Psi,
        ((1.5 as f64).to_bits(), (-2.0 as f64).to_bits()),
    );
    assert_eq!(anyon.name(), "left");
    assert_eq!(anyon.charge(), TopoCharge::Psi);
    assert_eq!(f64::from_bits(anyon.position().0), 1.5);
    assert_eq!(f64::from_bits(anyon.position().1), -2.0);
    let copy = anyon.clone();
    assert_eq!(copy.name(), "left");
}

#[test]
fn errors_are_written_with_their_kind() {
    assert_eq!(
        Error::BraidingError(String::from("x")).to_string(),
        "Braiding Error: x"
    );
    assert_eq!(
        Error::FusionError(String::from("y")).to_string(),
        "Fusion Error: y"
    );
    assert_eq!(
        Error::ConstructionError(String::from("z")).to_string(),
        "Construction Error: z"
    );
    assert_eq!(Error::Other(String::from("")).to_string(), "Other Error: ");
}
