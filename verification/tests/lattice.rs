use tqc_emu::error::Error;
use tqc_emu::lattice::{
    local_rule, Cardinal, Direction, Lattice, LatticeTimeStep, Location, Processor,
    ProcessorType, Qubit, Site, Syndromes,
};

fn processor_at(lattice: &LatticeTimeStep, x: u32, y: u32) -> Processor {
    match lattice.site(x, y) {
        Some(Site::Processor(processor)) => processor,
        other => panic!("no processor at ({}, {}): {:?}", x, y, other),
    }
}

fn qubit_at(lattice: &LatticeTimeStep, x: u32, y: u32) -> Qubit {
    match lattice.site(x, y) {
        Some(Site::Qubit(qubit)) => qubit,
        other => panic!("no qubit at ({}, {}): {:?}", x, y, other),
    }
}

fn set_bits(lattice: &LatticeTimeStep) -> Vec<(u32, u32)> {
    let mut set = Vec::new();
    for y in 0..=lattice.size() {
        for x in 0..=lattice.size() {
            if let Some(Site::Qubit(qubit)) = lattice.site(x, y) {
                if qubit.bit {
                    set.push((x, y));
                }
            }
        }
    }
    set
}

fn quiet() -> Syndromes {
    Syndromes {
        north: false,
        north_east: false,
        east: false,
        south_east: false,
        south: false,
        south_west: false,
        west: false,
        north_west: false,
    }
}

#[test]
fn new_lattice_has_processors_and_qubits_in_their_places() {
    let lattice = LatticeTimeStep::new(3);
    assert_eq!(lattice.size(), 3);
    assert_eq!(lattice.age(), 0);
    for y in 0..=3 {
        for x in 0..=3 {
            let location = Location { x, y };
            let site = lattice.site(x, y).unwrap();
            match (x % 2, y % 2) {
                (0, 0) => assert_eq!(
                    site,
                    Site::Processor(Processor {
                        address: location,
                        processor_type: ProcessorType::Bit,
                        syndrome: false,
                        flipsignal: false,
                    })
                ),
                (1, 1) => assert_eq!(
                    site,
                    Site::Processor(Processor {
                        address: location,
                        processor_type: ProcessorType::Spin,
                        syndrome: false,
                        flipsignal: false,
                    })
                ),
                _ => assert_eq!(
                    site,
                    Site::Qubit(Qubit {
                        location,
                        bit: false,
                        spin: false,
                    })
                ),
            }
        }
    }
    assert_eq!(lattice.site(4, 0), None);
    assert_eq!(lattice.site(0, 4), None);
    let smallest = LatticeTimeStep::new(0);
    assert!(matches!(smallest.site(0, 0), Some(Site::Processor(_))));
    assert_eq!(smallest.site(1, 0), None);
}

#[test]
fn adjacent_qubits_and_processors_wrap_around() {
    let lattice = LatticeTimeStep::new(8);
    let corner = processor_at(&lattice, 0, 0);
    let at = |direction| lattice.get_adjacent_qubit(direction, &corner).unwrap().location;
    assert_eq!(at(Cardinal::North), Location { x: 0, y: 1 });
    assert_eq!(at(Cardinal::East), Location { x: 1, y: 0 });
    assert_eq!(at(Cardinal::South), Location { x: 0, y: 7 });
    assert_eq!(at(Cardinal::West), Location { x: 7, y: 0 });
    let near = |direction| {
        lattice
            .get_adjacent_processor(direction, &corner)
            .unwrap()
            .address
    };
    assert_eq!(near(Direction::North), Location { x: 0, y: 2 });
    assert_eq!(near(Direction::NorthEast), Location { x: 2, y: 2 });
    assert_eq!(near(Direction::East), Location { x: 2, y: 0 });
    assert_eq!(near(Direction::SouthEast), Location { x: 2, y: 6 });
    assert_eq!(near(Direction::South), Location { x: 0, y: 6 });
    assert_eq!(near(Direction::SouthWest), Location { x: 6, y: 6 });
    assert_eq!(near(Direction::West), Location { x: 6, y: 0 });
    assert_eq!(near(Direction::NorthWest), Location { x: 6, y: 2 });
    let spin = processor_at(&lattice, 7, 7);
    assert_eq!(
        lattice
            .get_adjacent_processor(Direction::NorthEast, &spin)
            .unwrap()
            .address,
        Location { x: 1, y: 1 }
    );
    // the sites with the largest coordinate are left by a step, never reached
    let last = processor_at(&lattice, 8, 8);
    assert_eq!(
        lattice
            .get_adjacent_processor(Direction::NorthEast, &last)
            .unwrap()
            .address,
        Location { x: 2, y: 2 }
    );
    assert_eq!(
        lattice
            .get_adjacent_qubit(Cardinal::East, &last)
            .unwrap()
            .location,
        Location { x: 1, y: 8 }
    );
    // a coordinate that a step does not move stays as it is
    let edge = processor_at(&lattice, 8, 2);
    assert_eq!(
        lattice
            .get_adjacent_processor(Direction::North, &edge)
            .unwrap()
            .address,
        Location { x: 8, y: 4 }
    );
    assert_eq!(
        lattice
            .get_adjacent_processor(Direction::East, &edge)
            .unwrap()
            .address,
        Location { x: 2, y: 2 }
    );
    // a processor that stands beyond the grid finds nothing along its column
    let stray = Processor {
        address: Location { x: 10, y: 0 },
        ..corner
    };
    assert_eq!(lattice.get_adjacent_processor(Direction::North, &stray), None);
    assert_eq!(lattice.get_adjacent_qubit(Cardinal::North, &stray), None);
    assert_eq!(
        lattice
            .get_adjacent_processor(Direction::East, &stray)
            .unwrap()
            .address,
        Location { x: 4, y: 0 }
    );
}

#[test]
fn steps_are_taken_modulo_the_size() {
    let lattice = LatticeTimeStep::new(4);
    let middle = processor_at(&lattice, 2, 2);
    let near = |direction| {
        lattice
            .get_adjacent_processor(direction, &middle)
            .unwrap()
            .address
    };
    assert_eq!(near(Direction::North), Location { x: 2, y: 0 });
    assert_eq!(near(Direction::East), Location { x: 0, y: 2 });
    assert_eq!(near(Direction::South), Location { x: 2, y: 0 });
    assert_eq!(near(Direction::West), Location { x: 0, y: 2 });
    assert_eq!(near(Direction::NorthEast), Location { x: 0, y: 0 });
    assert_eq!(near(Direction::SouthEast), Location { x: 0, y: 0 });
    assert_eq!(near(Direction::SouthWest), Location { x: 0, y: 0 });
    assert_eq!(near(Direction::NorthWest), Location { x: 0, y: 0 });
    let spin = processor_at(&lattice, 3, 3);
    assert_eq!(
        lattice
            .get_adjacent_qubit(Cardinal::North, &spin)
            .unwrap()
            .location,
        Location { x: 3, y: 0 }
    );
    assert_eq!(
        lattice
            .get_adjacent_qubit(Cardinal::East, &spin)
            .unwrap()
            .location,
        Location { x: 0, y: 3 }
    );
}

#[test]
fn a_grid_of_odd_size_has_gaps() {
    // size 3: two sites east of (2, 0) lies (4 % 3, 0) = (1, 0), a qubit
    let lattice = LatticeTimeStep::new(3);
    let edge = processor_at(&lattice, 2, 0);
    assert_eq!(lattice.get_adjacent_processor(Direction::East, &edge), None);
    assert!(lattice
        .get_adjacent_processor(Direction::West, &edge)
        .is_some());
    // one site east of it lies (3 % 3, 0) = (0, 0), a processor
    assert_eq!(lattice.get_adjacent_qubit(Cardinal::East, &edge), None);
    assert!(lattice.get_adjacent_qubit(Cardinal::West, &edge).is_some());
    assert!(matches!(lattice.local_rules(), Err(Error::Other(_))));
    let mut lattice = lattice;
    assert!(matches!(lattice.step(), Err(Error::Other(_))));
    assert_eq!(lattice.age(), 0);
    assert!(matches!(
        LatticeTimeStep::new(7).local_rules(),
        Err(Error::Other(_))
    ));
}

#[test]
fn a_grid_of_even_size_has_no_gaps() {
    for size in [2, 4, 8, 16] {
        let lattice = LatticeTimeStep::new(size);
        assert!(lattice.local_rules().is_ok());
        for y in 0..=size {
            for x in 0..=size {
                if let Some(Site::Processor(processor)) = lattice.site(x, y) {
                    for direction in [
                        Direction::North,
                        Direction::NorthEast,
                        Direction::East,
                        Direction::SouthEast,
                        Direction::South,
                        Direction::SouthWest,
                        Direction::West,
                        Direction::NorthWest,
                    ] {
                        assert!(lattice
                            .get_adjacent_processor(direction, &processor)
                            .is_some());
                    }
                }
            }
        }
    }
}

#[test]
fn a_grid_of_size_one_has_gaps() {
    // modulo 1 a coordinate that moves ends at 0: north of (1, 1) lies (1, 0)
    let lattice = LatticeTimeStep::new(1);
    let spin = processor_at(&lattice, 1, 1);
    assert_eq!(lattice.get_adjacent_processor(Direction::North, &spin), None);
    assert_eq!(
        lattice
            .get_adjacent_processor(Direction::NorthEast, &spin)
            .unwrap()
            .address,
        Location { x: 0, y: 0 }
    );
    assert_eq!(
        lattice
            .get_adjacent_qubit(Cardinal::North, &spin)
            .unwrap()
            .location,
        Location { x: 1, y: 0 }
    );
    assert!(matches!(lattice.local_rules(), Err(Error::Other(_))));
}

#[test]
fn flip_syndrome_turns_the_four_qubits_around() {
    let mut lattice = LatticeTimeStep::new(8);
    let corner = processor_at(&lattice, 0, 0);
    lattice.flip_syndrome(&corner);
    assert_eq!(set_bits(&lattice), vec![(1, 0), (7, 0), (0, 1), (0, 7)]);
    assert!(!qubit_at(&lattice, 1, 0).spin);
    // four flips: the syndrome of the processor itself stays unset
    assert!(!lattice.compute_syndrome(&corner));
    // its four nearest bit processors share one qubit with it each
    assert!(lattice.compute_syndrome(&processor_at(&lattice, 2, 0)));
    assert!(lattice.compute_syndrome(&processor_at(&lattice, 6, 0)));
    assert!(lattice.compute_syndrome(&processor_at(&lattice, 0, 2)));
    assert!(lattice.compute_syndrome(&processor_at(&lattice, 0, 6)));
    assert!(!lattice.compute_syndrome(&processor_at(&lattice, 2, 2)));
    // the processor at (8, 0) reads (1, 0) to its east and (7, 0) to its west
    assert!(!lattice.compute_syndrome(&processor_at(&lattice, 8, 0)));
    // spin processors read spins
    assert!(!lattice.compute_syndrome(&processor_at(&lattice, 1, 1)));
    let spin = processor_at(&lattice, 1, 1);
    lattice.flip_syndrome(&spin);
    assert!(qubit_at(&lattice, 1, 0).spin);
    assert!(qubit_at(&lattice, 1, 0).bit);
    assert!(qubit_at(&lattice, 1, 2).spin);
    assert!(!qubit_at(&lattice, 1, 2).bit);
    assert!(lattice.compute_syndrome(&processor_at(&lattice, 3, 1)));
    // flipping twice restores
    lattice.flip_syndrome(&spin);
    lattice.flip_syndrome(&corner);
    assert_eq!(set_bits(&lattice), Vec::<(u32, u32)>::new());
}

#[test]
fn flip_syndrome_on_a_grid_of_size_two_cancels() {
    // modulo 2, north and south of a processor are one qubit, and so are
    // east and west
    let mut lattice = LatticeTimeStep::new(2);
    let corner = processor_at(&lattice, 0, 0);
    assert_eq!(
        lattice.get_adjacent_qubit(Cardinal::North, &corner),
        lattice.get_adjacent_qubit(Cardinal::South, &corner)
    );
    lattice.flip_syndrome(&corner);
    assert_eq!(set_bits(&lattice), Vec::<(u32, u32)>::new());
}

#[test]
fn flip_syndrome_passes_over_processors() {
    // size 3: south of (0, 0) lies (0, 2) and west of it (2, 0), processors
    let mut lattice = LatticeTimeStep::new(3);
    let corner = processor_at(&lattice, 0, 0);
    lattice.flip_syndrome(&corner);
    assert_eq!(set_bits(&lattice), vec![(1, 0), (0, 1)]);
}

#[test]
fn measure_stores_the_syndromes() {
    let mut lattice = LatticeTimeStep::new(8);
    let corner = processor_at(&lattice, 0, 0);
    lattice.flip_syndrome(&corner);
    assert!(!processor_at(&lattice, 2, 0).syndrome);
    lattice.measure();
    for y in (0..=8).step_by(2) {
        for x in (0..=8).step_by(2) {
            let expected = [(2, 0), (6, 0), (0, 2), (0, 6)].contains(&(x, y));
            assert_eq!(processor_at(&lattice, x, y).syndrome, expected);
        }
    }
    assert!(!processor_at(&lattice, 1, 1).syndrome);
    assert_eq!(set_bits(&lattice), vec![(1, 0), (7, 0), (0, 1), (0, 7)]);
}

#[test]
fn local_rule_of_a_processor_without_syndrome_is_to_rest() {
    let mut around = quiet();
    around.north = true;
    around.south_west = true;
    for y in 0..16 {
        for x in 0..16 {
            assert_eq!(local_rule(x, y, false, &around), None);
        }
    }
}

#[test]
fn local_rule_on_the_borders() {
    let mut around = quiet();
    // west border: the first column of a colony
    assert_eq!(local_rule(0, 5, true, &around), None);
    assert_eq!(local_rule(16, 0, true, &around), None);
    around.south_west = true;
    assert_eq!(local_rule(0, 5, true, &around), Some(Direction::West));
    assert_eq!(local_rule(32, 9, true, &around), Some(Direction::West));
    // south border: the rest of the first row
    assert_eq!(local_rule(3, 0, true, &around), Some(Direction::South));
    assert_eq!(local_rule(3, 16, true, &around), Some(Direction::South));
    let mut around = quiet();
    around.north = true;
    around.east = true;
    assert_eq!(local_rule(0, 5, true, &around), None);
    assert_eq!(local_rule(3, 0, true, &around), None);
    around.west = true;
    assert_eq!(local_rule(0, 5, true, &around), Some(Direction::West));
    assert_eq!(local_rule(3, 0, true, &around), None);
    around.south_east = true;
    assert_eq!(local_rule(3, 0, true, &around), Some(Direction::South));
}

#[test]
fn local_rule_moves_towards_the_centre_by_default() {
    let around = quiet();
    assert_eq!(local_rule(3, 3, true, &around), Some(Direction::North));
    assert_eq!(local_rule(3, 8, true, &around), Some(Direction::East));
    assert_eq!(local_rule(3, 12, true, &around), Some(Direction::East));
    assert_eq!(local_rule(8, 12, true, &around), Some(Direction::South));
    assert_eq!(local_rule(12, 12, true, &around), Some(Direction::West));
    assert_eq!(local_rule(12, 8, true, &around), Some(Direction::West));
    assert_eq!(local_rule(12, 3, true, &around), Some(Direction::West));
    assert_eq!(local_rule(8, 3, true, &around), Some(Direction::North));
    assert_eq!(local_rule(8, 8, true, &around), None);
    assert_eq!(local_rule(24, 24, true, &around), None);
}

#[test]
fn local_rule_takes_the_first_rule_that_applies() {
    // south-west quadrant
    let mut around = quiet();
    around.south_east = true;
    assert_eq!(local_rule(3, 3, true, &around), Some(Direction::East));
    around.north_west = true;
    assert_eq!(local_rule(3, 3, true, &around), Some(Direction::North));
    around.south_west = true;
    assert_eq!(local_rule(3, 3, true, &around), None);
    around.east = true;
    assert_eq!(local_rule(3, 3, true, &around), Some(Direction::East));
    around.north = true;
    assert_eq!(local_rule(3, 3, true, &around), Some(Direction::North));
    around.west = true;
    assert_eq!(local_rule(3, 3, true, &around), None);

    // north-east quadrant
    let mut around = quiet();
    around.north_west = true;
    assert_eq!(local_rule(12, 12, true, &around), Some(Direction::West));
    around.south_east = true;
    assert_eq!(local_rule(12, 12, true, &around), Some(Direction::South));
    around.north_east = true;
    assert_eq!(local_rule(12, 12, true, &around), None);
    around.west = true;
    assert_eq!(local_rule(12, 12, true, &around), Some(Direction::West));
    around.south = true;
    assert_eq!(local_rule(12, 12, true, &around), Some(Direction::South));
    around.east = true;
    assert_eq!(local_rule(12, 12, true, &around), None);

    // north-west and south-east quadrants
    let mut around = quiet();
    around.south_west = true;
    assert_eq!(local_rule(3, 12, true, &around), Some(Direction::South));
    assert_eq!(local_rule(12, 3, true, &around), Some(Direction::West));
    around.north_east = true;
    assert_eq!(local_rule(3, 12, true, &around), Some(Direction::East));
    assert_eq!(local_rule(12, 3, true, &around), Some(Direction::West));
    around.south_east = true;
    assert_eq!(local_rule(12, 3, true, &around), None);

    // corridors
    let mut around = quiet();
    around.north_west = true;
    assert_eq!(local_rule(3, 8, true, &around), None);
    assert_eq!(local_rule(8, 12, true, &around), None);
    assert_eq!(local_rule(12, 8, true, &around), Some(Direction::West));
    assert_eq!(local_rule(8, 3, true, &around), Some(Direction::North));
    around.east = true;
    assert_eq!(local_rule(3, 8, true, &around), Some(Direction::East));
    assert_eq!(local_rule(8, 12, true, &around), None);
    assert_eq!(local_rule(12, 8, true, &around), None);
    assert_eq!(local_rule(8, 3, true, &around), None);
}

#[test]
fn local_rules_on_a_quiet_lattice_change_nothing() {
    let lattice = LatticeTimeStep::new(8);
    let after = lattice.local_rules().unwrap();
    assert_eq!(after, lattice);
    // also where qubits are set: the rules go by what is stored
    let mut lattice = LatticeTimeStep::new(8);
    let corner = processor_at(&lattice, 0, 0);
    lattice.flip_syndrome(&corner);
    let after = lattice.local_rules().unwrap();
    assert_eq!(after, lattice);
}

#[test]
fn step_applies_the_rules_to_the_stored_syndromes() {
    let mut lattice = LatticeTimeStep::new(8);
    let corner = processor_at(&lattice, 0, 0);
    lattice.flip_syndrome(&corner);
    // without a measurement nothing is stored, and a step only ages
    assert!(lattice.step().is_ok());
    assert_eq!(lattice.age(), 1);
    assert_eq!(set_bits(&lattice), vec![(1, 0), (7, 0), (0, 1), (0, 7)]);
    lattice.measure();
    assert!(lattice.step().is_ok());
    assert_eq!(lattice.age(), 2);
    // (2,0) and (6,0) stand on the south border and find a syndrome to the
    // south-west and south-east: they flip around (2,6) and (6,6).
    // (0,2) and (0,6) stand on the west border and find a syndrome to the
    // south-west and north-west: they flip around (6,2) and (6,6).
    // The two flips around (6,6) cancel.
    let mut expected = vec![
        (1, 0),
        (7, 0),
        (0, 1),
        (0, 7),
        (2, 7),
        (3, 6),
        (2, 5),
        (1, 6),
        (6, 3),
        (7, 2),
        (6, 1),
        (5, 2),
    ];
    expected.sort_by_key(|(x, y)| (*y, *x));
    assert_eq!(set_bits(&lattice), expected);
    // a step stores nothing
    assert!(processor_at(&lattice, 2, 0).syndrome);
    assert!(!processor_at(&lattice, 2, 6).syndrome);
}

#[test]
fn age_counts_the_steps() {
    let mut lattice = LatticeTimeStep::new(2);
    for expected in 1..=401 {
        lattice.step().unwrap();
        assert_eq!(lattice.age(), expected);
    }
}

#[test]
fn lattice_starts_with_a_new_grid() {
    let mut lattice = Lattice::new(4).unwrap();
    // four qubits a side: seven sites a side, the coordinates 0 to 6
    assert_eq!(lattice.size(), 7);
    assert_eq!(lattice.total_time_steps(), 0);
    assert_eq!(*lattice.current(), LatticeTimeStep::new(6));
    assert_eq!(lattice.current().site(6, 6).map(|_| ()), Some(()));
    assert_eq!(lattice.current().site(7, 0), None);
    lattice.increment_time().unwrap();
    lattice.start();
    assert_eq!(lattice.total_time_steps(), 0);
    assert_eq!(*lattice.current(), LatticeTimeStep::new(6));
    assert_eq!(lattice.size(), 7);
}

#[test]
fn lattice_counts_its_steps() {
    for qubits in [2, 4, 9] {
        let mut lattice = Lattice::new(qubits).unwrap();
        assert_eq!(lattice.size(), 2 * qubits - 1);
        let mut expected = LatticeTimeStep::new(2 * qubits as u32 - 2);
        for count in 1..=3 {
            assert!(lattice.increment_time().is_ok());
            expected.step().unwrap();
            assert_eq!(lattice.total_time_steps(), count);
            assert_eq!(lattice.current().age(), count);
            assert_eq!(lattice.size(), 2 * qubits - 1);
            assert_eq!(*lattice.current(), expected);
        }
        assert_eq!(set_bits(lattice.current()), Vec::<(u32, u32)>::new());
    }
}

#[test]
fn lattice_of_one_qubit_takes_no_step() {
    // one site, and no size to take steps modulo
    let mut lattice = Lattice::new(1).unwrap();
    assert_eq!(lattice.size(), 1);
    assert_eq!(*lattice.current(), LatticeTimeStep::new(0));
    assert!(matches!(lattice.increment_time(), Err(Error::Other(_))));
    assert_eq!(lattice.total_time_steps(), 0);
    assert_eq!(*lattice.current(), LatticeTimeStep::new(0));
}

#[test]
fn lattice_needs_a_qubit() {
    assert!(matches!(Lattice::new(0), Err(Error::ConstructionError(_))));
    assert!(Lattice::new(1).is_ok());
    assert_eq!(Lattice::new(1).unwrap().size(), 1);
    assert!(matches!(
        Lattice::new(usize::MAX),
        Err(Error::ConstructionError(_))
    ));
    assert!(matches!(
        Lattice::new(1 << 31),
        Err(Error::ConstructionError(_))
    ));
}

#[test]
fn a_copy_of_a_lattice_equals_it() {
    let mut lattice = LatticeTimeStep::new(3);
    let copy = lattice.clone();
    assert_eq!(copy, lattice);
    let corner = processor_at(&lattice, 0, 0);
    lattice.flip_syndrome(&corner);
    assert_ne!(copy, lattice);
    lattice.flip_syndrome(&corner);
    assert_eq!(copy, lattice);
}
