//! A toric-code lattice with a cellular-automaton decoder.
//!
//! The lattice is a square grid with the coordinates 0 to `size` in both
//! directions. Sites whose two coordinates are even hold processors that
//! watch the bits of the qubits next to them; sites whose two coordinates are
//! odd hold processors that watch their spins; every other site holds a
//! qubit. A step from site to site takes each coordinate that it moves
//! modulo `size`, so that the grid closes on itself: a step past coordinate
//! `size - 1` comes back in at 0, and a step below 0 comes back in below
//! `size`. The grid is divided into colonies, and in every step each
//! processor that has stored a syndrome acts by fixed rules that depend on
//! where in its colony it stands and on what its eight nearest processors
//! have stored.
//!
//! Where `size` is even, a step of two keeps a coordinate even or odd, and
//! every processor finds a processor in each of the eight directions. Where
//! `size` is odd, a step across the edge changes that, and the local rules
//! cannot be applied.
//!
//! A lattice over time is built for a number of qubits `q` along each side.
//! Its grid has the odd side length `2 * q - 1`, so its largest coordinate is
//! even, and it takes steps.

use vstd::prelude::*;
use vstd::string::*;
use crate::error::Error;

verus! {

/// The side length of a colony.
pub const Q: u32 = 16;

/// The work period of the decoder, in steps.
pub const U: u32 = 400;

/// What a processor watches.
#[derive(Copy, Clone, Debug, PartialEq, Eq, Structural)]
pub enum ProcessorType {
    Bit,
    Spin,
}

/// The four directions in which a processor finds its qubits.
#[derive(Copy, Clone, Debug, PartialEq, Eq, Structural)]
pub enum Cardinal {
    North,
    East,
    South,
    West,
}

/// The eight directions in which a processor finds its nearest processors.
#[derive(Copy, Clone, Debug, PartialEq, Eq, Structural)]
pub enum Direction {
    North,
    NorthEast,
    East,
    SouthEast,
    South,
    SouthWest,
    West,
    NorthWest,
}

/// A site of the grid.
#[derive(Copy, Clone, Debug, PartialEq, Eq, Structural)]
pub struct Location {
    pub x: u32,
    pub y: u32,
}

#[derive(Copy, Clone, Debug, PartialEq, Eq, Structural)]
pub struct Qubit {
    pub location: Location,
    pub bit: bool,
    pub spin: bool,
}

#[derive(Copy, Clone, Debug, PartialEq, Eq, Structural)]
pub struct Processor {
    pub address: Location,
    pub processor_type: ProcessorType,
    /// The syndrome that the processor has stored.
    pub syndrome: bool,
    pub flipsignal: bool,
}

/// What stands at a site.
#[derive(Copy, Clone, Debug, PartialEq, Eq, Structural)]
pub enum Site {
    Processor(Processor),
    Qubit(Qubit),
}

/// The step that a cardinal direction takes, as `(dx, dy)`.
pub open spec fn cardinal_offset(direction: Cardinal) -> (int, int) {
    match direction {
        Cardinal::North => (0, 1),
        Cardinal::East => (1, 0),
        Cardinal::South => (0, -1),
        Cardinal::West => (-1, 0),
    }
}

/// The step from a processor to its nearest processor in a direction, as
/// `(dx, dy)`.
pub open spec fn direction_offset(direction: Direction) -> (int, int) {
    match direction {
        Direction::North => (0, 2),
        Direction::NorthEast => (2, 2),
        Direction::East => (2, 0),
        Direction::SouthEast => (2, -2),
        Direction::South => (0, -2),
        Direction::SouthWest => (-2, -2),
        Direction::West => (-2, 0),
        Direction::NorthWest => (-2, 2),
    }
}

/// The coordinate reached from `coordinate` by `step` on a grid of size
/// `size`. A coordinate that the step moves is taken modulo `size`, the
/// remainder being the one from 0 to `size - 1`; a coordinate that the step
/// does not move stays as it is.
pub open spec fn moved(coordinate: u32, step: int, size: int) -> u32 {
    if step == 0 {
        coordinate
    } else {
        ((coordinate + step) % size) as u32
    }
}

/// The site reached from `from` by the step `offset` on a grid of size
/// `size`.
pub open spec fn neighbour(from: Location, offset: (int, int), size: int) -> Location {
    Location { x: moved(from.x, offset.0, size), y: moved(from.y, offset.1, size) }
}

/// What a new lattice holds at a site: a bit processor where both
/// coordinates are even, a spin processor where both are odd, a qubit
/// elsewhere; nothing is set.
pub open spec fn initial_site(x: u32, y: u32) -> Site {
    let location = Location { x, y };
    if x % 2 == 0 && y % 2 == 0 {
        Site::Processor(
            Processor {
                address: location,
                processor_type: ProcessorType::Bit,
                syndrome: false,
                flipsignal: false,
            },
        )
    } else if x % 2 == 1 && y % 2 == 1 {
        Site::Processor(
            Processor {
                address: location,
                processor_type: ProcessorType::Spin,
                syndrome: false,
                flipsignal: false,
            },
        )
    } else {
        Site::Qubit(Qubit { location, bit: false, spin: false })
    }
}

/// Whether two sites hold the same kind of thing at the same place.
pub open spec fn same_kind(a: Site, b: Site) -> bool {
    match (a, b) {
        (Site::Processor(p), Site::Processor(q)) => p.address == q.address && p.processor_type
            == q.processor_type,
        (Site::Qubit(p), Site::Qubit(q)) => p.location == q.location,
        _ => false,
    }
}

/// Where in its colony a processor stands.
#[derive(Copy, Clone, Debug, PartialEq, Eq, Structural)]
pub enum Region {
    WestBorder,
    SouthBorder,
    SouthWest,
    WestCorridor,
    NorthWest,
    NorthCorridor,
    NorthEast,
    EastCorridor,
    SouthEast,
    SouthCorridor,
    Centre,
}

/// The region of the colony in which `(x, y)` lies. The west border is the
/// first column of a colony and the south border the rest of its first row;
/// the corridors are the middle column and the middle row, the quadrants lie
/// between them, and the centre is where the corridors cross.
pub open spec fn region_of(x: u32, y: u32) -> Region {
    let column = x % Q;
    let row = y % Q;
    let middle = Q / 2;
    if column == 0 {
        Region::WestBorder
    } else if row == 0 {
        Region::SouthBorder
    } else if column < middle && row < middle {
        Region::SouthWest
    } else if column < middle && row == middle {
        Region::WestCorridor
    } else if column < middle {
        Region::NorthWest
    } else if column == middle && row > middle {
        Region::NorthCorridor
    } else if column == middle && row < middle {
        Region::SouthCorridor
    } else if column == middle {
        Region::Centre
    } else if row > middle {
        Region::NorthEast
    } else if row == middle {
        Region::EastCorridor
    } else {
        Region::SouthEast
    }
}

/// What the eight nearest processors of a processor see.
#[derive(Copy, Clone, Debug, PartialEq, Eq, Structural)]
pub struct Syndromes {
    pub north: bool,
    pub north_east: bool,
    pub east: bool,
    pub south_east: bool,
    pub south: bool,
    pub south_west: bool,
    pub west: bool,
    pub north_west: bool,
}

impl Syndromes {
    /// Whether the processor in a direction sees a syndrome.
    pub open spec fn seen(self, direction: Direction) -> bool {
        match direction {
            Direction::North => self.north,
            Direction::NorthEast => self.north_east,
            Direction::East => self.east,
            Direction::SouthEast => self.south_east,
            Direction::South => self.south,
            Direction::SouthWest => self.south_west,
            Direction::West => self.west,
            Direction::NorthWest => self.north_west,
        }
    }
}

/// The rules of a region, in the order in which they are tried: a direction
/// to look in, and what to do when the processor there sees a syndrome
/// (flip around the processor in the direction given, or do nothing).
pub open spec fn rules_of(region: Region) -> Seq<(Direction, Option<Direction>)> {
    match region {
        Region::WestBorder => seq![
            (Direction::NorthWest, Some(Direction::West)),
            (Direction::West, Some(Direction::West)),
            (Direction::SouthWest, Some(Direction::West)),
        ],
        Region::SouthBorder => seq![
            (Direction::SouthWest, Some(Direction::South)),
            (Direction::South, Some(Direction::South)),
            (Direction::SouthEast, Some(Direction::South)),
        ],
        Region::SouthWest => seq![
            (Direction::South, None),
            (Direction::West, None),
            (Direction::North, Some(Direction::North)),
            (Direction::East, Some(Direction::East)),
            (Direction::SouthWest, None),
            (Direction::NorthWest, Some(Direction::North)),
            (Direction::SouthEast, Some(Direction::East)),
        ],
        Region::WestCorridor => seq![
            (Direction::South, None),
            (Direction::West, None),
            (Direction::North, None),
            (Direction::East, Some(Direction::East)),
            (Direction::SouthWest, None),
            (Direction::NorthWest, None),
        ],
        Region::NorthWest => seq![
            (Direction::West, None),
            (Direction::North, None),
            (Direction::East, Some(Direction::East)),
            (Direction::South, Some(Direction::South)),
            (Direction::NorthWest, None),
            (Direction::NorthEast, Some(Direction::East)),
            (Direction::SouthWest, Some(Direction::South)),
        ],
        Region::NorthCorridor => seq![
            (Direction::West, None),
            (Direction::North, None),
            (Direction::East, None),
            (Direction::South, Some(Direction::South)),
            (Direction::NorthWest, None),
            (Direction::NorthEast, None),
        ],
        Region::NorthEast => seq![
            (Direction::North, None),
            (Direction::East, None),
            (Direction::South, Some(Direction::South)),
            (Direction::West, Some(Direction::West)),
            (Direction::NorthEast, None),
            (Direction::SouthEast, Some(Direction::South)),
            (Direction::NorthWest, Some(Direction::West)),
        ],
        Region::EastCorridor => seq![
            (Direction::North, None),
            (Direction::East, None),
            (Direction::South, None),
            (Direction::West, Some(Direction::West)),
            (Direction::NorthEast, None),
            (Direction::SouthEast, None),
        ],
        Region::SouthEast => seq![
            (Direction::East, None),
            (Direction::South, None),
            (Direction::West, Some(Direction::West)),
            (Direction::North, Some(Direction::North)),
            (Direction::SouthEast, None),
            (Direction::SouthWest, Some(Direction::West)),
            (Direction::NorthEast, Some(Direction::North)),
        ],
        Region::SouthCorridor => seq![
            (Direction::East, None),
            (Direction::South, None),
            (Direction::West, None),
            (Direction::North, Some(Direction::North)),
            (Direction::SouthEast, None),
            (Direction::SouthWest, None),
        ],
        Region::Centre => seq![],
    }
}

/// What a processor of a region does when none of its rules applies: on a
/// border and in the centre nothing, elsewhere a flip towards the centre of
/// the colony.
pub open spec fn default_of(region: Region) -> Option<Direction> {
    match region {
        Region::WestBorder => None,
        Region::SouthBorder => None,
        Region::SouthWest => Some(Direction::North),
        Region::WestCorridor => Some(Direction::East),
        Region::NorthWest => Some(Direction::East),
        Region::NorthCorridor => Some(Direction::South),
        Region::NorthEast => Some(Direction::West),
        Region::EastCorridor => Some(Direction::West),
        Region::SouthEast => Some(Direction::West),
        Region::SouthCorridor => Some(Direction::North),
        Region::Centre => None,
    }
}

/// The first of the rules from place `from` on that applies, and the
/// default action where none does.
pub open spec fn first_rule(
    rules: Seq<(Direction, Option<Direction>)>,
    default: Option<Direction>,
    around: Syndromes,
    from: int,
) -> Option<Direction>
    decreases rules.len() - from,
{
    if from < 0 || from >= rules.len() {
        default
    } else if around.seen(rules[from].0) {
        rules[from].1
    } else {
        first_rule(rules, default, around, from + 1)
    }
}

/// The local rule: the direction of the processor around which a processor
/// at `(x, y)` flips, if it flips at all. A processor that sees no syndrome
/// does nothing.
pub open spec fn local_action(x: u32, y: u32, syndrome: bool, around: Syndromes) -> Option<
    Direction,
> {
    let region = region_of(x, y);
    if syndrome {
        first_rule(rules_of(region), default_of(region), around, 0)
    } else {
        None
    }
}

/// The lattice at one point in time, as plain values.
pub struct LatticeTimeStepView {
    /// The sites, row by row: `sites[y][x]` stands at `(x, y)`.
    pub sites: Seq<Seq<Site>>,
    /// The current time: the number of steps taken.
    pub age: u32,
    /// The largest coordinate of the grid.
    pub size: u32,
}

impl LatticeTimeStepView {
    /// The number of sites along one side of the grid.
    pub open spec fn side(self) -> int {
        self.size + 1
    }

    /// The invariant of a lattice: a square grid whose side fits a `u32`,
    /// with processors and qubits where a new lattice has them.
    pub open spec fn wf(self) -> bool {
        &&& self.size < u32::MAX
        &&& self.sites.len() == self.side()
        &&& forall|y: int| 0 <= y < self.side() ==> (#[trigger] self.sites[y]).len() == self.side()
        &&& forall|x: int, y: int|
            0 <= x < self.side() && 0 <= y < self.side() ==> same_kind(
                #[trigger] self.sites[y][x],
                initial_site(x as u32, y as u32),
            )
    }

    /// A new lattice with the coordinates 0 to `size` in both directions.
    pub open spec fn fresh(size: u32) -> LatticeTimeStepView {
        LatticeTimeStepView {
            sites: Seq::new(
                (size + 1) as nat,
                |y: int| Seq::new((size + 1) as nat, |x: int| initial_site(x as u32, y as u32)),
            ),
            age: 0,
            size,
        }
    }

    /// What stands at a location.
    pub open spec fn site(self, at: Location) -> Site {
        self.sites[at.y as int][at.x as int]
    }

    /// Whether a location lies on the grid.
    pub open spec fn holds(self, at: Location) -> bool {
        at.x <= self.size && at.y <= self.size
    }

    /// The qubit at a location, if the location lies on the grid and a qubit
    /// stands there.
    pub open spec fn qubit_at(self, at: Location) -> Option<Qubit> {
        if self.holds(at) {
            match self.site(at) {
                Site::Qubit(qubit) => Some(qubit),
                Site::Processor(_) => None,
            }
        } else {
            None
        }
    }

    /// The processor at a location, if the location lies on the grid and a
    /// processor stands there.
    pub open spec fn processor_at(self, at: Location) -> Option<Processor> {
        if self.holds(at) {
            match self.site(at) {
                Site::Processor(processor) => Some(processor),
                Site::Qubit(_) => None,
            }
        } else {
            None
        }
    }

    /// The qubit next to a processor in a direction.
    pub open spec fn adjacent_qubit(self, direction: Cardinal, processor: Processor) -> Option<
        Qubit,
    > {
        self.qubit_at(neighbour(processor.address, cardinal_offset(direction), self.size as int))
    }

    /// The processor nearest to a processor in a direction.
    pub open spec fn adjacent_processor(self, direction: Direction, processor: Processor) -> Option<
        Processor,
    > {
        self.processor_at(
            neighbour(processor.address, direction_offset(direction), self.size as int),
        )
    }

    /// What a processor reads from the qubit next to it in a direction: the
    /// bit or the spin of the qubit, by the type of the processor, and
    /// nothing set where no qubit stands.
    pub open spec fn reading(self, direction: Cardinal, processor: Processor) -> bool {
        match self.adjacent_qubit(direction, processor) {
            Some(qubit) => match processor.processor_type {
                ProcessorType::Bit => qubit.bit,
                ProcessorType::Spin => qubit.spin,
            },
            None => false,
        }
    }

    /// The syndrome of a processor: whether an odd number of its four
    /// readings is set.
    pub open spec fn syndrome(self, processor: Processor) -> bool {
        self.reading(Cardinal::North, processor) ^ self.reading(Cardinal::East, processor)
            ^ self.reading(Cardinal::South, processor) ^ self.reading(Cardinal::West, processor)
    }

    /// The lattice with what a processor of type `kind` reads at `at`
    /// turned over; the lattice itself where no qubit stands at `at`.
    pub open spec fn toggled(self, at: Location, kind: ProcessorType) -> LatticeTimeStepView {
        match self.qubit_at(at) {
            Some(qubit) => {
                let turned = match kind {
                    ProcessorType::Bit => Qubit { bit: !qubit.bit, ..qubit },
                    ProcessorType::Spin => Qubit { spin: !qubit.spin, ..qubit },
                };
                LatticeTimeStepView {
                    sites: self.sites.update(
                        at.y as int,
                        self.sites[at.y as int].update(at.x as int, Site::Qubit(turned)),
                    ),
                    ..self
                }
            },
            None => self,
        }
    }

    /// The lattice with the reading of a processor in one direction turned
    /// over.
    pub open spec fn flipped(self, direction: Cardinal, processor: Processor) -> LatticeTimeStepView {
        self.toggled(
            neighbour(processor.address, cardinal_offset(direction), self.size as int),
            processor.processor_type,
        )
    }

    /// The lattice with the four readings of a processor turned over, one
    /// after the other: north, east, south, west.
    pub open spec fn flipped_around(self, processor: Processor) -> LatticeTimeStepView {
        self.flipped(Cardinal::North, processor).flipped(Cardinal::East, processor).flipped(
            Cardinal::South,
            processor,
        ).flipped(Cardinal::West, processor)
    }

    /// Whether the processor has a nearest processor in each of the eight
    /// directions.
    pub open spec fn surrounded(self, processor: Processor) -> bool {
        forall|direction: Direction| #[trigger]
            self.adjacent_processor(direction, processor) is Some
    }

    /// What the eight nearest processors of a processor see, by what they
    /// have stored.
    pub open spec fn syndromes_around(self, processor: Processor) -> Syndromes {
        Syndromes {
            north: self.adjacent_processor(Direction::North, processor)->0.syndrome,
            north_east: self.adjacent_processor(Direction::NorthEast, processor)->0.syndrome,
            east: self.adjacent_processor(Direction::East, processor)->0.syndrome,
            south_east: self.adjacent_processor(Direction::SouthEast, processor)->0.syndrome,
            south: self.adjacent_processor(Direction::South, processor)->0.syndrome,
            south_west: self.adjacent_processor(Direction::SouthWest, processor)->0.syndrome,
            west: self.adjacent_processor(Direction::West, processor)->0.syndrome,
            north_west: self.adjacent_processor(Direction::NorthWest, processor)->0.syndrome,
        }
    }

    /// Whether every processor of the grid has a nearest processor in each
    /// of the eight directions.
    pub open spec fn complete(self) -> bool {
        forall|x: int, y: int|
            0 <= x < self.side() && 0 <= y < self.side() ==> (
            #[trigger] self.sites[y][x] matches Site::Processor(processor) ==> self.surrounded(
                processor,
            ))
    }

    /// The processor around which the site at `(x, y)` asks to flip: none
    /// where a qubit stands or the local rule asks for nothing.
    pub open spec fn target(self, x: int, y: int) -> Option<Processor> {
        match self.sites[y][x] {
            Site::Processor(processor) => match local_action(
                x as u32,
                y as u32,
                processor.syndrome,
                self.syndromes_around(processor),
            ) {
                Some(direction) => self.adjacent_processor(direction, processor),
                None => None,
            },
            Site::Qubit(_) => None,
        }
    }

    /// The lattice `done` after the flips that the first `upto` sites of row
    /// `y` of this lattice ask for.
    pub open spec fn rules_in_row(
        self,
        done: LatticeTimeStepView,
        y: int,
        upto: int,
    ) -> LatticeTimeStepView
        decreases upto,
    {
        if upto <= 0 {
            done
        } else {
            let before = self.rules_in_row(done, y, upto - 1);
            match self.target(upto - 1, y) {
                Some(processor) => before.flipped_around(processor),
                None => before,
            }
        }
    }

    /// This lattice after the flips that the sites of its first `upto` rows
    /// ask for.
    pub open spec fn rules_in_rows(self, upto: int) -> LatticeTimeStepView
        decreases upto,
    {
        if upto <= 0 {
            self
        } else {
            self.rules_in_row(self.rules_in_rows(upto - 1), upto - 1, self.side())
        }
    }

    /// This lattice after the local rules: every processor has looked at
    /// this lattice, and the flips that they ask for have been made.
    pub open spec fn after_rules(self) -> LatticeTimeStepView {
        self.rules_in_rows(self.side())
    }

    /// This lattice with every processor storing the syndrome that it
    /// measures.
    pub open spec fn measured(self) -> LatticeTimeStepView {
        LatticeTimeStepView {
            sites: Seq::new(
                self.sites.len(),
                |y: int|
                    Seq::new(
                        self.sites[y].len(),
                        |x: int|
                            match self.sites[y][x] {
                                Site::Processor(processor) => Site::Processor(
                                    Processor { syndrome: self.syndrome(processor), ..processor },
                                ),
                                Site::Qubit(qubit) => Site::Qubit(qubit),
                            },
                    ),
            ),
            ..self
        }
    }

    /// This lattice one step later: the age moved on by one, and the local
    /// rules applied to what the processors have stored.
    #[verifier::opaque]
    pub open spec fn stepped(self) -> LatticeTimeStepView {
        let aged = LatticeTimeStepView { age: (self.age + 1) as u32, ..self };
        aged.after_rules()
    }
}

/// The lattice at one point in time.
#[derive(Debug, PartialEq)]
pub struct LatticeTimeStep {
    sites: Vec<Vec<Site>>,
    age: u32,
    size: u32,
}

impl View for LatticeTimeStep {
    type V = LatticeTimeStepView;

    closed spec fn view(&self) -> LatticeTimeStepView {
        LatticeTimeStepView {
            sites: self.sites@.map_values(|row: Vec<Site>| row@),
            age: self.age,
            size: self.size,
        }
    }
}

/// `coordinate + up - down` modulo `size`.
fn wrapped(coordinate: u32, up: u32, down: u32, size: u32) -> (place: u32)
    requires
        size > 0,
        up <= 2,
        down <= 2,
    ensures
        place == (coordinate + up - down) % (size as int),
        place < size,
{
    let size_wide: u64 = size as u64;
    let lifted: u64 = (coordinate as u64) % size_wide + 2 * size_wide + (up as u64) - (down as u64);
    proof {
        let c = coordinate as int;
        let s = size as int;
        let shift = up - down;
        vstd::arithmetic::div_mod::lemma_fundamental_div_mod(c, s);
        let q = c / s;
        assert(c + shift == (q - 2) * s + (c % s + 2 * s + shift)) by (nonlinear_arith)
            requires
                c == s * q + c % s,
        ;
        vstd::arithmetic::div_mod::lemma_mod_multiples_vanish(q - 2, c % s + 2 * s + shift, s);
    }
    (lifted % size_wide) as u32
}

/// The region of the colony in which `(x, y)` lies.
fn region(x: u32, y: u32) -> (region: Region)
    ensures
        region == region_of(x, y),
{
    let column = x % Q;
    let row = y % Q;
    let middle = Q / 2;
    if column == 0 {
        Region::WestBorder
    } else if row == 0 {
        Region::SouthBorder
    } else if column < middle && row < middle {
        Region::SouthWest
    } else if column < middle && row == middle {
        Region::WestCorridor
    } else if column < middle && row > middle {
        Region::NorthWest
    } else if column == middle && row > middle {
        Region::NorthCorridor
    } else if column > middle && row > middle {
        Region::NorthEast
    } else if column > middle && row == middle {
        Region::EastCorridor
    } else if column > middle && row < middle {
        Region::SouthEast
    } else if column == middle && row < middle {
        Region::SouthCorridor
    } else {
        Region::Centre
    }
}

/// Decides what a processor at `(x, y)` does, from the syndrome that it has
/// stored and from what its eight nearest processors have stored: the
/// direction of the processor around which it flips, or nothing.
pub fn local_rule(x: u32, y: u32, syndrome: bool, around: &Syndromes) -> (action: Option<Direction>)
    ensures
        action == local_action(x, y, syndrome, *around),
{
    proof {
        reveal_with_fuel(first_rule, 9);
    }
    if !syndrome {
        return None;
    }
    match region(x, y) {
        Region::WestBorder => {
            if around.north_west {
                Some(Direction::West)
            } else if around.west {
                Some(Direction::West)
            } else if around.south_west {
                Some(Direction::West)
            } else {
                None
            }
        },
        Region::SouthBorder => {
            if around.south_west {
                Some(Direction::South)
            } else if around.south {
                Some(Direction::South)
            } else if around.south_east {
                Some(Direction::South)
            } else {
                None
            }
        },
        Region::SouthWest => {
            if around.south {
                None
            } else if around.west {
                None
            } else if around.north {
                Some(Direction::North)
            } else if around.east {
                Some(Direction::East)
            } else if around.south_west {
                None
            } else if around.north_west {
                Some(Direction::North)
            } else if around.south_east {
                Some(Direction::East)
            } else {
                Some(Direction::North)
            }
        },
        Region::WestCorridor => {
            if around.south {
                None
            } else if around.west {
                None
            } else if around.north {
                None
            } else if around.east {
                Some(Direction::East)
            } else if around.south_west {
                None
            } else if around.north_west {
                None
            } else {
                Some(Direction::East)
            }
        },
        Region::NorthWest => {
            if around.west {
                None
            } else if around.north {
                None
            } else if around.east {
                Some(Direction::East)
            } else if around.south {
                Some(Direction::South)
            } else if around.north_west {
                None
            } else if around.north_east {
                Some(Direction::East)
            } else if around.south_west {
                Some(Direction::South)
            } else {
                Some(Direction::East)
            }
        },
        Region::NorthCorridor => {
            if around.west {
                None
            } else if around.north {
                None
            } else if around.east {
                None
            } else if around.south {
                Some(Direction::South)
            } else if around.north_west {
                None
            } else if around.north_east {
                None
            } else {
                Some(Direction::South)
            }
        },
        Region::NorthEast => {
            if around.north {
                None
            } else if around.east {
                None
            } else if around.south {
                Some(Direction::South)
            } else if around.west {
                Some(Direction::West)
            } else if around.north_east {
                None
            } else if around.south_east {
                Some(Direction::South)
            } else if around.north_west {
                Some(Direction::West)
            } else {
                Some(Direction::West)
            }
        },
        Region::EastCorridor => {
            if around.north {
                None
            } else if around.east {
                None
            } else if around.south {
                None
            } else if around.west {
                Some(Direction::West)
            } else if around.north_east {
                None
            } else if around.south_east {
                None
            } else {
                Some(Direction::West)
            }
        },
        Region::SouthEast => {
            if around.east {
                None
            } else if around.south {
                None
            } else if around.west {
                Some(Direction::West)
            } else if around.north {
                Some(Direction::North)
            } else if around.south_east {
                None
            } else if around.south_west {
                Some(Direction::West)
            } else if around.north_east {
                Some(Direction::North)
            } else {
                Some(Direction::West)
            }
        },
        Region::SouthCorridor => {
            if around.east {
                None
            } else if around.south {
                None
            } else if around.west {
                None
            } else if around.north {
                Some(Direction::North)
            } else if around.south_east {
                None
            } else if around.south_west {
                None
            } else {
                Some(Direction::North)
            }
        },
        Region::Centre => None,
    }
}

impl Clone for LatticeTimeStep {
    fn clone(&self) -> (copy: LatticeTimeStep)
        ensures
            copy@ == self@,
    {
        let mut sites: Vec<Vec<Site>> = Vec::new();
        let mut y: usize = 0;
        while y < self.sites.len()
            invariant
                y <= self.sites.len(),
                sites@.len() == y,
                forall|j: int| 0 <= j < y ==> (#[trigger] sites@[j])@ == self.sites@[j]@,
            decreases self.sites.len() - y,
        {
            let row = self.sites[y].clone();
            assert(row@ =~= self.sites@[y as int]@);
            sites.push(row);
            y += 1;
        }
        let copy = LatticeTimeStep { sites, age: self.age, size: self.size };
        proof {
            assert(copy@.sites =~= self@.sites);
        }
        copy
    }
}

impl LatticeTimeStep {
    /// The invariant of a lattice.
    pub open spec fn wf(&self) -> bool {
        self@.wf()
    }

    /// A new lattice with the coordinates 0 to `input_size` in both
    /// directions, at age 0, with nothing set.
    pub fn new(input_size: u32) -> (lattice: LatticeTimeStep)
        requires
            input_size < u32::MAX,
        ensures
            lattice.wf(),
            lattice@ == LatticeTimeStepView::fresh(input_size),
    {
        let size = input_size;
        let mut sites: Vec<Vec<Site>> = Vec::new();
        let mut y: u32 = 0;
        while y <= size
            invariant
                y <= size + 1,
                size < u32::MAX,
                sites@.len() == y,
                forall|j: int| 0 <= j < y ==> (#[trigger] sites@[j])@.len() == size + 1,
                forall|i: int, j: int|
                    0 <= i <= size && 0 <= j < y ==> (#[trigger] sites@[j]@[i]) == initial_site(
                        i as u32,
                        j as u32,
                    ),
            decreases size + 1 - y,
        {
            let mut row: Vec<Site> = Vec::new();
            let mut x: u32 = 0;
            while x <= size
                invariant
                    x <= size + 1,
                    y <= size,
                    size < u32::MAX,
                    row@.len() == x,
                    forall|i: int|
                        0 <= i < x ==> (#[trigger] row@[i]) == initial_site(i as u32, y),
                decreases size + 1 - x,
            {
                let location = Location { x, y };
                let site = if x % 2 == 0 && y % 2 == 0 {
                    Site::Processor(
                        Processor {
                            address: location,
                            processor_type: ProcessorType::Bit,
                            syndrome: false,
                            flipsignal: false,
                        },
                    )
                } else if x % 2 == 1 && y % 2 == 1 {
                    Site::Processor(
                        Processor {
                            address: location,
                            processor_type: ProcessorType::Spin,
                            syndrome: false,
                            flipsignal: false,
                        },
                    )
                } else {
                    Site::Qubit(Qubit { location, bit: false, spin: false })
                };
                row.push(site);
                x += 1;
            }
            sites.push(row);
            y += 1;
        }
        let lattice = LatticeTimeStep { sites, age: 0, size };
        proof {
            assert forall|x: int, y: int|
                0 <= x <= input_size && 0 <= y <= input_size implies #[trigger] lattice@.sites[y][x]
                == initial_site(x as u32, y as u32) by {
                assert(lattice@.sites[y] == sites@[y]@);
            }
            assert forall|y: int| 0 <= y < lattice@.side() implies (
            #[trigger] lattice@.sites[y]).len() == lattice@.side() by {
                assert(lattice@.sites[y] == sites@[y]@);
            }
            let fresh = LatticeTimeStepView::fresh(input_size);
            assert(lattice@.sites =~= fresh.sites) by {
                assert forall|y: int| 0 <= y < lattice@.sites.len() implies lattice@.sites[y]
                    =~= fresh.sites[y] by {
                    assert forall|x: int| 0 <= x < lattice@.sites[y].len() implies lattice@.sites[y][x]
                        == fresh.sites[y][x] by {
                        assert(lattice@.sites[y][x] == initial_site(x as u32, y as u32));
                    }
                }
            }
        }
        lattice
    }

    /// The largest coordinate of the grid.
    pub fn size(&self) -> (size: u32)
        ensures
            size == self@.size,
    {
        self.size
    }

    /// The current time: the number of steps taken.
    pub fn age(&self) -> (age: u32)
        ensures
            age == self@.age,
    {
        self.age
    }

    /// What stands at `(x, y)`, if the grid reaches that far.
    pub fn site(&self, x: u32, y: u32) -> (site: Option<Site>)
        requires
            self.wf(),
        ensures
            site == (if x <= self@.size && y <= self@.size {
                Some(self@.site(Location { x, y }))
            } else {
                None
            }),
    {
        if x <= self.size && y <= self.size {
            proof {
                assert(self@.sites[y as int] == self.sites@[y as int]@);
                assert(self@.sites[y as int].len() == self@.side());
            }
            Some(self.sites[y as usize][x as usize])
        } else {
            None
        }
    }

    /// The coordinate reached from `coordinate` by the step `up - down`.
    fn shift(&self, coordinate: u32, up: u32, down: u32) -> (place: u32)
        requires
            self@.size > 0,
            up <= 2,
            down <= 2,
            up == 0 || down == 0,
        ensures
            place == moved(coordinate, up - down, self@.size as int),
    {
        if up == 0 && down == 0 {
            coordinate
        } else {
            wrapped(coordinate, up, down, self.size)
        }
    }

    /// The site reached from `from` by the step `(up_x - down_x, up_y -
    /// down_y)`.
    fn reach(&self, from: Location, up_x: u32, down_x: u32, up_y: u32, down_y: u32) -> (to: Location)
        requires
            self@.size > 0,
            up_x <= 2,
            down_x <= 2,
            up_y <= 2,
            down_y <= 2,
            up_x == 0 || down_x == 0,
            up_y == 0 || down_y == 0,
        ensures
            to == neighbour(from, (up_x - down_x, up_y - down_y), self@.size as int),
    {
        Location { x: self.shift(from.x, up_x, down_x), y: self.shift(from.y, up_y, down_y) }
    }

    /// The site next to `from` in a cardinal direction.
    fn next_to(&self, from: Location, direction: Cardinal) -> (to: Location)
        requires
            self.wf(),
            self@.size > 0,
        ensures
            to == neighbour(from, cardinal_offset(direction), self@.size as int),
    {
        match direction {
            Cardinal::North => self.reach(from, 0, 0, 1, 0),
            Cardinal::East => self.reach(from, 1, 0, 0, 0),
            Cardinal::South => self.reach(from, 0, 0, 0, 1),
            Cardinal::West => self.reach(from, 0, 1, 0, 0),
        }
    }

    /// Gets the qubit next to a processor in the direction specified: the
    /// qubit one site further, the coordinate that moves taken modulo the
    /// size of the grid. There is none where a processor stands at that site
    /// or the site lies beyond the grid.
    pub fn get_adjacent_qubit(&self, direction: Cardinal, processor: &Processor) -> (qubit: Option<
        Qubit,
    >)
        requires
            self.wf(),
            self@.size > 0,
        ensures
            qubit == self@.adjacent_qubit(direction, *processor),
    {
        let new_location = self.next_to(processor.address, direction);
        match self.site(new_location.x, new_location.y) {
            Some(Site::Qubit(qubit)) => Some(qubit),
            _ => None,
        }
    }

    /// What the processor reads in a direction.
    fn read(&self, direction: Cardinal, processor: &Processor) -> (set: bool)
        requires
            self.wf(),
            self@.size > 0,
        ensures
            set == self@.reading(direction, *processor),
    {
        match self.get_adjacent_qubit(direction, processor) {
            Some(qubit) => match processor.processor_type {
                ProcessorType::Bit => qubit.bit,
                ProcessorType::Spin => qubit.spin,
            },
            None => false,
        }
    }

    /// Measures the syndrome of a processor: the sum, modulo 2, of what it
    /// reads from the four qubits around it.
    pub fn compute_syndrome(&self, processor: &Processor) -> (syndrome: bool)
        requires
            self.wf(),
            self@.size > 0,
        ensures
            syndrome == self@.syndrome(*processor),
    {
        let north = self.read(Cardinal::North, processor);
        let east = self.read(Cardinal::East, processor);
        let south = self.read(Cardinal::South, processor);
        let west = self.read(Cardinal::West, processor);
        north ^ east ^ south ^ west
    }

    /// Turns over what the processor reads in one direction.
    fn flip(&mut self, direction: Cardinal, processor: &Processor)
        requires
            old(self).wf(),
            old(self)@.size > 0,
        ensures
            final(self).wf(),
            final(self)@ == old(self)@.flipped(direction, *processor),
    {
        let at = self.next_to(processor.address, direction);
        if at.x > self.size || at.y > self.size {
            return ;
        }
        proof {
            assert(self@.sites[at.y as int] == self.sites@[at.y as int]@);
            assert(self@.sites[at.y as int].len() == self@.side());
        }
        let x = at.x as usize;
        let y = at.y as usize;
        match self.sites[y][x] {
            Site::Qubit(qubit) => {
                let turned = match processor.processor_type {
                    ProcessorType::Bit => Qubit {
                        location: qubit.location,
                        bit: !qubit.bit,
                        spin: qubit.spin,
                    },
                    ProcessorType::Spin => Qubit {
                        location: qubit.location,
                        bit: qubit.bit,
                        spin: !qubit.spin,
                    },
                };
                let mut row = self.sites[y].clone();
                row[x] = Site::Qubit(turned);
                self.sites[y] = row;
                proof {
                    let before = old(self)@;
                    let after = self@;
                    let expected = before.flipped(direction, *processor);
                    assert(after.sites =~= expected.sites) by {
                        assert forall|j: int| 0 <= j < after.sites.len() implies after.sites[j]
                            =~= expected.sites[j] by {
                            assert(after.sites[j] == self.sites@[j]@);
                            assert(before.sites[j] == old(self).sites@[j]@);
                        }
                    }
                    assert forall|i: int, j: int|
                        0 <= i < after.side() && 0 <= j < after.side() implies same_kind(
                        #[trigger] after.sites[j][i],
                        initial_site(i as u32, j as u32),
                    ) by {
                        assert(same_kind(before.sites[j][i], initial_site(i as u32, j as u32)));
                    }
                }
            },
            Site::Processor(_) => {},
        }
    }

    /// Turns over what the processor reads from each of the four qubits
    /// around it.
    pub fn flip_syndrome(&mut self, processor: &Processor)
        requires
            old(self).wf(),
            old(self)@.size > 0,
        ensures
            final(self).wf(),
            final(self)@ == old(self)@.flipped_around(*processor),
    {
        self.flip(Cardinal::North, processor);
        self.flip(Cardinal::East, processor);
        self.flip(Cardinal::South, processor);
        self.flip(Cardinal::West, processor);
    }

    /// Gets the processor nearest to another processor in a specified
    /// cardinal or ordinal direction: the processor two sites further on
    /// each axis that the direction moves along, the coordinates that move
    /// taken modulo the size of the grid. There is none where a qubit stands
    /// at that site or the site lies beyond the grid.
    pub fn get_adjacent_processor(&self, direction: Direction, processor: &Processor) -> (found:
        Option<Processor>)
        requires
            self.wf(),
            self@.size > 0,
        ensures
            found == self@.adjacent_processor(direction, *processor),
    {
        let from = processor.address;
        let new_location = match direction {
            Direction::North => self.reach(from, 0, 0, 2, 0),
            Direction::NorthEast => self.reach(from, 2, 0, 2, 0),
            Direction::East => self.reach(from, 2, 0, 0, 0),
            Direction::SouthEast => self.reach(from, 2, 0, 0, 2),
            Direction::South => self.reach(from, 0, 0, 0, 2),
            Direction::SouthWest => self.reach(from, 0, 2, 0, 2),
            Direction::West => self.reach(from, 0, 2, 0, 0),
            Direction::NorthWest => self.reach(from, 0, 2, 2, 0),
        };
        match self.site(new_location.x, new_location.y) {
            Some(Site::Processor(found)) => Some(found),
            _ => None,
        }
    }

    /// Has every processor measure its syndrome and store it.
    pub fn measure(&mut self)
        requires
            old(self).wf(),
            old(self)@.size > 0,
        ensures
            final(self).wf(),
            final(self)@ == old(self)@.measured(),
            final(self)@.complete() == old(self)@.complete(),
    {
        proof {
            lemma_measured_complete(self@);
        }
        let ghost before = self@;
        let mut sites: Vec<Vec<Site>> = Vec::new();
        let mut y: usize = 0;
        while y < self.sites.len()
            invariant
                y <= self.sites.len(),
                *self == *old(self),
                before == self@,
                self.wf(),
                self@.size > 0,
                sites@.len() == y,
                forall|j: int| 0 <= j < y ==> (#[trigger] sites@[j])@ == before.measured().sites[j],
            decreases self.sites.len() - y,
        {
            proof {
                assert(self@.sites[y as int] == self.sites@[y as int]@);
                assert(self@.sites[y as int].len() == self@.side());
            }
            let mut row: Vec<Site> = Vec::new();
            let mut x: usize = 0;
            while x < self.sites[y].len()
                invariant
                    y < self.sites.len(),
                    x <= self.sites@[y as int]@.len(),
                    *self == *old(self),
                    before == self@,
                    self.wf(),
                    self@.size > 0,
                    self@.sites[y as int] == self.sites@[y as int]@,
                    row@.len() == x,
                    forall|i: int|
                        0 <= i < x ==> (#[trigger] row@[i]) == before.measured().sites[y as int][i],
                decreases self.sites@[y as int]@.len() - x,
            {
                let site = match self.sites[y][x] {
                    Site::Processor(processor) => {
                        let syndrome = self.compute_syndrome(&processor);
                        Site::Processor(
                            Processor {
                                address: processor.address,
                                processor_type: processor.processor_type,
                                syndrome,
                                flipsignal: processor.flipsignal,
                            },
                        )
                    },
                    Site::Qubit(qubit) => Site::Qubit(qubit),
                };
                row.push(site);
                x += 1;
            }
            proof {
                assert(row@ =~= before.measured().sites[y as int]);
            }
            sites.push(row);
            y += 1;
        }
        self.sites = sites;
        proof {
            let after = self@;
            let expected = before.measured();
            assert(after.sites =~= expected.sites) by {
                assert forall|j: int| 0 <= j < after.sites.len() implies after.sites[j]
                    == expected.sites[j] by {
                    assert(after.sites[j] == sites@[j]@);
                }
            }
            assert forall|i: int, j: int|
                0 <= i < after.side() && 0 <= j < after.side() implies same_kind(
                #[trigger] after.sites[j][i],
                initial_site(i as u32, j as u32),
            ) by {
                assert(same_kind(before.sites[j][i], initial_site(i as u32, j as u32)));
            }
        }
    }

    /// The eight nearest processors of a processor, in the order north,
    /// north-east, east, south-east, south, south-west, west, north-west; or
    /// nothing where one of them is missing.
    fn processors_around(&self, processor: &Processor) -> (found: Option<[Processor; 8]>)
        requires
            self.wf(),
            self@.size > 0,
        ensures
            found is Some <==> self@.surrounded(*processor),
            found matches Some(around) ==> {
                &&& Some(around[0]) == self@.adjacent_processor(Direction::North, *processor)
                &&& Some(around[1]) == self@.adjacent_processor(Direction::NorthEast, *processor)
                &&& Some(around[2]) == self@.adjacent_processor(Direction::East, *processor)
                &&& Some(around[3]) == self@.adjacent_processor(Direction::SouthEast, *processor)
                &&& Some(around[4]) == self@.adjacent_processor(Direction::South, *processor)
                &&& Some(around[5]) == self@.adjacent_processor(Direction::SouthWest, *processor)
                &&& Some(around[6]) == self@.adjacent_processor(Direction::West, *processor)
                &&& Some(around[7]) == self@.adjacent_processor(Direction::NorthWest, *processor)
            },
    {
        let proc_n = self.get_adjacent_processor(Direction::North, processor);
        let proc_ne = self.get_adjacent_processor(Direction::NorthEast, processor);
        let proc_e = self.get_adjacent_processor(Direction::East, processor);
        let proc_se = self.get_adjacent_processor(Direction::SouthEast, processor);
        let proc_s = self.get_adjacent_processor(Direction::South, processor);
        let proc_sw = self.get_adjacent_processor(Direction::SouthWest, processor);
        let proc_w = self.get_adjacent_processor(Direction::West, processor);
        let proc_nw = self.get_adjacent_processor(Direction::NorthWest, processor);
        match (proc_n, proc_ne, proc_e, proc_se, proc_s, proc_sw, proc_w, proc_nw) {
            (Some(n), Some(ne), Some(e), Some(se), Some(s), Some(sw), Some(w), Some(nw)) => {
                proof {
                    assert forall|direction: Direction| #[trigger]
                        self@.adjacent_processor(direction, *processor) is Some by {
                        match direction {
                            Direction::North => {},
                            Direction::NorthEast => {},
                            Direction::East => {},
                            Direction::SouthEast => {},
                            Direction::South => {},
                            Direction::SouthWest => {},
                            Direction::West => {},
                            Direction::NorthWest => {},
                        }
                    }
                }
                Some([n, ne, e, se, s, sw, w, nw])
            },
            _ => None,
        }
    }

    /// The processor around which the site at `(x, y)` asks to flip, if it
    /// asks for a flip. A processor that lacks one of its eight nearest
    /// processors cannot be asked.
    fn target_at(&self, x: u32, y: u32) -> (found: Result<Option<Processor>, Error>)
        requires
            self.wf(),
            self@.size > 0,
            x <= self@.size,
            y <= self@.size,
        ensures
            match self@.sites[y as int][x as int] {
                Site::Processor(processor) => if self@.surrounded(processor) {
                    found matches Ok(target) && target == self@.target(x as int, y as int)
                } else {
                    found matches Err(Error::Other(_))
                },
                Site::Qubit(_) => found matches Ok(None),
            },
    {
        match self.site(x, y) {
            Some(Site::Processor(processor)) => {
                let around = match self.processors_around(&processor) {
                    Some(around) => around,
                    None => {
                        return Err(
                            Error::Other(
                                String::from_str("A processor lacks one of its nearest processors"),
                            ),
                        );
                    },
                };
                let seen = Syndromes {
                    north: around[0].syndrome,
                    north_east: around[1].syndrome,
                    east: around[2].syndrome,
                    south_east: around[3].syndrome,
                    south: around[4].syndrome,
                    south_west: around[5].syndrome,
                    west: around[6].syndrome,
                    north_west: around[7].syndrome,
                };
                assert(seen == self@.syndromes_around(processor));
                match local_rule(x, y, processor.syndrome, &seen) {
                    Some(direction) => {
                        let target = match direction {
                            Direction::North => around[0],
                            Direction::NorthEast => around[1],
                            Direction::East => around[2],
                            Direction::SouthEast => around[3],
                            Direction::South => around[4],
                            Direction::SouthWest => around[5],
                            Direction::West => around[6],
                            Direction::NorthWest => around[7],
                        };
                        Ok(Some(target))
                    },
                    None => Ok(None),
                }
            },
            _ => Ok(None),
        }
    }

    /// Applies the local rules: every processor looks at what it and its
    /// eight nearest processors have stored in this lattice, and the flips
    /// that the rules ask for are made in a copy, which is handed back.
    ///
    /// The rules cannot be applied to a lattice in which a processor lacks
    /// one of its eight nearest processors: there the outcome is an error.
    /// That is so on every grid of odd size, and on no grid of even size.
    pub fn local_rules(&self) -> (outcome: Result<LatticeTimeStep, Error>)
        requires
            self.wf(),
            self@.size > 0,
        ensures
            self@.complete() ==> outcome is Ok && outcome->Ok_0.wf() && outcome->Ok_0@
                == self@.after_rules() && outcome->Ok_0@.size == self@.size && outcome->Ok_0@.age
                == self@.age,
            !self@.complete() ==> outcome matches Err(Error::Other(_)),
    {
        let mut new_lattice: LatticeTimeStep = self.clone();
        let side: u32 = self.size + 1;
        let mut y: u32 = 0;
        while y < side
            invariant
                y <= side,
                side == self@.side(),
                self.wf(),
                self@.size > 0,
                new_lattice.wf(),
                new_lattice@.size == self@.size,
                new_lattice@.age == self@.age,
                new_lattice@ == self@.rules_in_rows(y as int),
                forall|i: int, j: int|
                    0 <= i < side && 0 <= j < y ==> (
                    #[trigger] self@.sites[j][i] matches Site::Processor(processor)
                        ==> self@.surrounded(processor)),
            decreases side - y,
        {
            let mut x: u32 = 0;
            while x < side
                invariant
                    x <= side,
                    y < side,
                    side == self@.side(),
                    self.wf(),
                    self@.size > 0,
                    new_lattice.wf(),
                    new_lattice@.size == self@.size,
                    new_lattice@.age == self@.age,
                    new_lattice@ == self@.rules_in_row(
                        self@.rules_in_rows(y as int),
                        y as int,
                        x as int,
                    ),
                    forall|i: int, j: int|
                        0 <= i < side && 0 <= j < y ==> (
                        #[trigger] self@.sites[j][i] matches Site::Processor(processor)
                            ==> self@.surrounded(processor)),
                    forall|i: int|
                        0 <= i < x ==> (
                        #[trigger] self@.sites[y as int][i] matches Site::Processor(processor)
                            ==> self@.surrounded(processor)),
                decreases side - x,
            {
                match self.target_at(x, y) {
                    Err(error) => {
                        return Err(error);
                    },
                    Ok(Some(target)) => {
                        new_lattice.flip_syndrome(&target);
                    },
                    Ok(None) => {},
                }
                x += 1;
            }
            y += 1;
        }
        Ok(new_lattice)
    }

    /// Moves the lattice on by one step: the age advances by one, and the
    /// local rules are applied to what the processors have stored. A lattice
    /// to which the rules cannot be applied stays as it is.
    pub fn step(&mut self) -> (outcome: Result<(), Error>)
        requires
            old(self).wf(),
            old(self)@.size > 0,
            old(self)@.age < u32::MAX,
        ensures
            final(self).wf(),
            final(self)@.size == old(self)@.size,
            old(self)@.complete() ==> outcome is Ok && final(self)@ == old(self)@.stepped()
                && final(self)@.age == old(self)@.age + 1,
            !old(self)@.complete() ==> (outcome matches Err(Error::Other(_))) && final(self)@ == old(
                self,
            )@,
    {
        proof {
            reveal(LatticeTimeStepView::stepped);
        }
        let mut next = self.clone();
        next.age = self.age + 1;
        proof {
            lemma_aged_complete(self@, next@.age);
        }
        match next.local_rules() {
            Ok(lattice) => {
                *self = lattice;
                Ok(())
            },
            Err(error) => Err(error),
        }
    }
}

/// Whether every processor has its eight nearest processors does not depend
/// on the age of the lattice.
proof fn lemma_aged_complete(lattice: LatticeTimeStepView, age: u32)
    ensures
        (LatticeTimeStepView { age, ..lattice }).complete() == lattice.complete(),
{
    let aged = LatticeTimeStepView { age, ..lattice };
    assert forall|p: Processor| #[trigger] aged.surrounded(p) == lattice.surrounded(p) by {
        if aged.surrounded(p) {
            assert forall|d: Direction| #[trigger]
                lattice.adjacent_processor(d, p) is Some by {
                assert(aged.adjacent_processor(d, p) is Some);
            }
        }
        if lattice.surrounded(p) {
            assert forall|d: Direction| #[trigger] aged.adjacent_processor(d, p) is Some by {
                assert(lattice.adjacent_processor(d, p) is Some);
            }
        }
    }
    if lattice.complete() {
        assert forall|x: int, y: int| 0 <= x < aged.side() && 0 <= y < aged.side() implies (
        #[trigger] aged.sites[y][x] matches Site::Processor(p) ==> aged.surrounded(p)) by {
            assert(lattice.sites[y][x] matches Site::Processor(p) ==> lattice.surrounded(p));
        }
    }
    if aged.complete() {
        assert forall|x: int, y: int|
            0 <= x < lattice.side() && 0 <= y < lattice.side() implies (
        #[trigger] lattice.sites[y][x] matches Site::Processor(p) ==> lattice.surrounded(p)) by {
            assert(aged.sites[y][x] matches Site::Processor(p) ==> aged.surrounded(p));
        }
    }
}

/// On a lattice in which no processor has stored a syndrome the local rules
/// ask for no flip: applying them changes nothing.
pub proof fn lemma_quiet_rules(lattice: LatticeTimeStepView)
    requires
        forall|x: int, y: int|
            0 <= x < lattice.side() && 0 <= y < lattice.side() ==> (
            #[trigger] lattice.sites[y][x] matches Site::Processor(p) ==> !p.syndrome),
    ensures
        lattice.after_rules() == lattice,
{
    lemma_quiet_rows(lattice, lattice.side());
}

/// The rows of a lattice without stored syndromes ask for no flip.
proof fn lemma_quiet_rows(lattice: LatticeTimeStepView, upto: int)
    requires
        upto <= lattice.side(),
        forall|x: int, y: int|
            0 <= x < lattice.side() && 0 <= y < lattice.side() ==> (
            #[trigger] lattice.sites[y][x] matches Site::Processor(p) ==> !p.syndrome),
    ensures
        lattice.rules_in_rows(upto) == lattice,
    decreases upto,
{
    if upto > 0 {
        lemma_quiet_rows(lattice, upto - 1);
        lemma_quiet_row(lattice, lattice, upto - 1, lattice.side());
    }
}

/// The sites of one row of a lattice without stored syndromes ask for no
/// flip.
proof fn lemma_quiet_row(lattice: LatticeTimeStepView, done: LatticeTimeStepView, y: int, upto: int)
    requires
        0 <= y < lattice.side(),
        upto <= lattice.side(),
        forall|x: int, y: int|
            0 <= x < lattice.side() && 0 <= y < lattice.side() ==> (
            #[trigger] lattice.sites[y][x] matches Site::Processor(p) ==> !p.syndrome),
    ensures
        lattice.rules_in_row(done, y, upto) == done,
    decreases upto,
{
    if upto > 0 {
        lemma_quiet_row(lattice, done, y, upto - 1);
        assert(lattice.sites[y][upto - 1] matches Site::Processor(p) ==> !p.syndrome);
        assert(lattice.target(upto - 1, y) is None);
    }
}

/// Measuring changes no place and no kind of a site: a processor at the
/// same address finds a nearest processor after it where it found one before.
proof fn lemma_measured_neighbour(
    lattice: LatticeTimeStepView,
    before: Processor,
    after: Processor,
    direction: Direction,
)
    requires
        lattice.wf(),
        lattice.size > 0,
        before.address == after.address,
    ensures
        (lattice.measured().adjacent_processor(direction, after) is Some) == (
        lattice.adjacent_processor(direction, before) is Some),
{
    let at = neighbour(before.address, direction_offset(direction), lattice.size as int);
    if lattice.holds(at) {
        assert(lattice.sites[at.y as int].len() == lattice.side());
    }
}

/// Measuring keeps every processor with its eight nearest processors.
proof fn lemma_measured_complete(lattice: LatticeTimeStepView)
    requires
        lattice.wf(),
        lattice.size > 0,
    ensures
        lattice.measured().complete() == lattice.complete(),
{
    let measured = lattice.measured();
    if lattice.complete() {
        assert forall|x: int, y: int|
            0 <= x < measured.side() && 0 <= y < measured.side() implies (
        #[trigger] measured.sites[y][x] matches Site::Processor(q) ==> measured.surrounded(q)) by {
            assert(lattice.sites[y].len() == lattice.side());
            match lattice.sites[y][x] {
                Site::Processor(p) => {
                    let q = Processor { syndrome: lattice.syndrome(p), ..p };
                    assert(measured.sites[y][x] == Site::Processor(q));
                    assert(lattice.surrounded(p));
                    assert forall|d: Direction| #[trigger]
                        measured.adjacent_processor(d, q) is Some by {
                        lemma_measured_neighbour(lattice, p, q, d);
                        assert(lattice.adjacent_processor(d, p) is Some);
                    }
                },
                Site::Qubit(_) => {},
            }
        }
    }
    if measured.complete() {
        assert forall|x: int, y: int|
            0 <= x < lattice.side() && 0 <= y < lattice.side() implies (
        #[trigger] lattice.sites[y][x] matches Site::Processor(p) ==> lattice.surrounded(p)) by {
            assert(lattice.sites[y].len() == lattice.side());
            match lattice.sites[y][x] {
                Site::Processor(p) => {
                    let q = Processor { syndrome: lattice.syndrome(p), ..p };
                    assert(measured.sites[y][x] == Site::Processor(q));
                    assert(measured.surrounded(q));
                    assert forall|d: Direction| #[trigger]
                        lattice.adjacent_processor(d, p) is Some by {
                        lemma_measured_neighbour(lattice, p, q, d);
                        assert(measured.adjacent_processor(d, q) is Some);
                    }
                },
                Site::Qubit(_) => {},
            }
        }
    }
}

/// A step of two taken modulo an even size keeps a coordinate even or odd,
/// and a step of none leaves it alone.
proof fn lemma_even_step(coordinate: u32, step: int, size: int)
    requires
        coordinate <= size,
        0 < size <= u32::MAX,
        size % 2 == 0,
        step % 2 == 0,
    ensures
        moved(coordinate, step, size) <= size,
        moved(coordinate, step, size) % 2 == coordinate % 2,
{
    if step != 0 {
        let shifted = coordinate + step;
        let half = size / 2;
        vstd::arithmetic::div_mod::lemma_fundamental_div_mod(shifted, size);
        vstd::arithmetic::div_mod::lemma_mod_bound(shifted, size);
        let q = shifted / size;
        assert(size * q == 2 * (half * q)) by (nonlinear_arith)
            requires
                size == 2 * half,
        ;
    }
}

/// On a grid of even size every processor has its eight nearest processors:
/// two sites further the coordinates are even or odd as before, also across
/// the edge.
pub proof fn lemma_even_size_complete(lattice: LatticeTimeStepView)
    requires
        lattice.wf(),
        lattice.size > 0,
        lattice.size % 2 == 0,
    ensures
        lattice.complete(),
{
    let side = lattice.side();
    let size = lattice.size as int;
    assert forall|x: int, y: int| 0 <= x < side && 0 <= y < side implies (
    #[trigger] lattice.sites[y][x] matches Site::Processor(p) ==> lattice.surrounded(p)) by {
        match lattice.sites[y][x] {
            Site::Processor(p) => {
                assert(same_kind(lattice.sites[y][x], initial_site(x as u32, y as u32)));
                assert forall|d: Direction| #[trigger]
                    lattice.adjacent_processor(d, p) is Some by {
                    let offset = direction_offset(d);
                    let at = neighbour(p.address, offset, size);
                    lemma_even_step(x as u32, offset.0, size);
                    lemma_even_step(y as u32, offset.1, size);
                    assert(same_kind(
                        lattice.sites[at.y as int][at.x as int],
                        initial_site(at.x, at.y),
                    ));
                }
            },
            Site::Qubit(_) => {},
        }
    }
}

/// On a grid of odd size not every processor has its eight nearest
/// processors. Where the size is larger than 1, two sites east of the
/// processor at `(size - 1, 0)` lies `(1, 0)`, where a qubit stands; where the
/// size is 1, two sites north of the processor at `(1, 1)` lies `(1, 0)`.
pub proof fn lemma_odd_size_incomplete(lattice: LatticeTimeStepView)
    requires
        lattice.wf(),
        lattice.size % 2 == 1,
    ensures
        !lattice.complete(),
{
    let size = lattice.size as int;
    assert(same_kind(lattice.sites[0][1], initial_site(1, 0)));
    if size == 1 {
        assert(same_kind(lattice.sites[1][1], initial_site(1, 1)));
        match lattice.sites[1][1] {
            Site::Processor(p) => {
                let at = neighbour(p.address, direction_offset(Direction::North), size);
                assert(at == Location { x: 1, y: 0 });
                assert(lattice.adjacent_processor(Direction::North, p) is None);
                assert(!lattice.surrounded(p));
            },
            Site::Qubit(_) => {},
        }
    } else {
        let x = size - 1;
        assert(same_kind(lattice.sites[0][x], initial_site(x as u32, 0)));
        match lattice.sites[0][x] {
            Site::Processor(p) => {
                let at = neighbour(p.address, direction_offset(Direction::East), size);
                assert((x + 2) % size == 1) by {
                    vstd::arithmetic::div_mod::lemma_fundamental_div_mod_converse(
                        x + 2,
                        size,
                        1,
                        1,
                    );
                }
                assert(at == Location { x: 1, y: 0 });
                assert(lattice.adjacent_processor(Direction::East, p) is None);
                assert(!lattice.surrounded(p));
            },
            Site::Qubit(_) => {},
        }
    }
}

/// What a lattice is over time, as plain values.
pub struct LatticeView {
    /// The side length of the grid: the number of sites along one side.
    pub size: usize,
    /// How many steps the lattice has taken.
    pub total_time_steps: u32,
    /// The lattice at every point in time, from the start on.
    pub steps: Seq<LatticeTimeStepView>,
}

impl LatticeView {
    /// The largest coordinate of the grid: one less than its side length.
    pub open spec fn largest(self) -> int {
        self.size - 1
    }

    /// The invariant of a lattice over time: an odd side length that fits a
    /// `u32`, a new grid of that side length at the start, and each later
    /// point in time one step after the one before it, its age the number of
    /// steps taken.
    pub open spec fn wf(self) -> bool {
        &&& self.size % 2 == 1
        &&& self.size < u32::MAX
        &&& self.steps.len() == self.total_time_steps + 1
        &&& self.steps[0] == LatticeTimeStepView::fresh(self.largest() as u32)
        &&& forall|i: int|
            0 <= i < self.steps.len() ==> (#[trigger] self.steps[i]).wf() && self.steps[i].size
                == self.largest() && self.steps[i].age == i
        &&& forall|i: int|
            0 < i < self.steps.len() ==> #[trigger] self.steps[i] == self.steps[i - 1].stepped()
    }

    /// Whether the lattice can take a step: the count of steps is below the
    /// largest value a `u32` holds, and the grid has more than its one site
    /// at the origin, so that there is a size to take steps modulo.
    pub open spec fn can_step(self) -> bool {
        self.total_time_steps < u32::MAX && self.size > 1
    }
}

/// On the grid of a lattice over time with more than one site every
/// processor has its eight nearest processors: the side length is odd, so
/// the largest coordinate is even.
pub proof fn lemma_lattice_complete(lattice: LatticeView, i: int)
    requires
        lattice.wf(),
        lattice.size > 1,
        0 <= i < lattice.steps.len(),
    ensures
        lattice.steps[i].complete(),
{
    lemma_even_size_complete(lattice.steps[i]);
}

/// A toric-code lattice over time: the grid at the start and after every
/// step taken since.
#[derive(Debug)]
pub struct Lattice {
    size: usize,
    total_time_steps: u32,
    steps: Vec<LatticeTimeStep>,
}

impl View for Lattice {
    type V = LatticeView;

    closed spec fn view(&self) -> LatticeView {
        LatticeView {
            size: self.size,
            total_time_steps: self.total_time_steps,
            steps: self.steps@.map_values(|step: LatticeTimeStep| step@),
        }
    }
}

impl Lattice {
    /// The invariant of a lattice over time.
    pub open spec fn wf(&self) -> bool {
        self@.wf()
    }

    /// A lattice for `qubits` qubits along each side, at its start. The side
    /// length of the grid is twice the number of qubits less one, so that its
    /// coordinates run from 0 to twice the number of qubits less two. There
    /// is no lattice without qubits, nor one whose side length no `u32`
    /// holds.
    pub fn new(qubits: usize) -> (outcome: Result<Lattice, Error>)
        ensures
            1 <= qubits && 2 * qubits - 1 < u32::MAX ==> outcome is Ok && outcome->Ok_0.wf()
                && outcome->Ok_0@.size == 2 * qubits - 1 && outcome->Ok_0@.total_time_steps == 0,
            !(1 <= qubits && 2 * qubits - 1 < u32::MAX) ==> outcome matches Err(
                Error::ConstructionError(_),
            ),
    {
        if qubits < 1 || qubits > (u32::MAX / 2) as usize {
            return Err(
                Error::ConstructionError(
                    String::from_str(
                        "The number of qubits must be greater than zero and fit the grid",
                    ),
                ),
            );
        }
        let mut lattice = Lattice { size: 2 * qubits - 1, total_time_steps: 0, steps: Vec::new() };
        lattice.restart();
        Ok(lattice)
    }

    /// Puts the new grid in place of the history.
    fn restart(&mut self)
        requires
            old(self)@.size % 2 == 1,
            old(self)@.size < u32::MAX,
        ensures
            final(self).wf(),
            final(self)@.size == old(self)@.size,
            final(self)@.total_time_steps == 0,
            final(self)@.steps == seq![LatticeTimeStepView::fresh(old(self)@.largest() as u32)],
    {
        let first = LatticeTimeStep::new((self.size - 1) as u32);
        let mut steps: Vec<LatticeTimeStep> = Vec::new();
        steps.push(first);
        self.steps = steps;
        self.total_time_steps = 0;
        proof {
            assert(self@.steps =~= seq![LatticeTimeStepView::fresh(old(self)@.largest() as u32)]);
        }
    }

    /// Starts over: the history is dropped, and the grid is new again.
    pub fn start(&mut self)
        requires
            old(self).wf(),
        ensures
            final(self).wf(),
            final(self)@.size == old(self)@.size,
            final(self)@.total_time_steps == 0,
            final(self)@.steps == seq![LatticeTimeStepView::fresh(old(self)@.largest() as u32)],
    {
        self.restart();
    }

    /// How many steps the lattice has taken.
    pub fn total_time_steps(&self) -> (count: u32)
        ensures
            count == self@.total_time_steps,
    {
        self.total_time_steps
    }

    /// The side length of the grid.
    pub fn size(&self) -> (size: usize)
        ensures
            size == self@.size,
    {
        self.size
    }

    /// The lattice as it is now: after the last step taken.
    pub fn current(&self) -> (lattice: &LatticeTimeStep)
        requires
            self.wf(),
        ensures
            lattice@ == self@.steps.last(),
            lattice.wf(),
    {
        proof {
            assert(self@.steps[self@.steps.len() - 1].wf());
        }
        &self.steps[self.steps.len() - 1]
    }

    /// Takes one step: the count of steps goes up by one, and the lattice one
    /// step after the current one is added to the history.
    ///
    /// The step is refused, with the lattice left as it is, when the count
    /// of steps is at the largest value a `u32` holds, and on the lattice of
    /// one qubit, whose grid is the one site at the origin and has no size to
    /// take steps modulo. On every other lattice the local rules can be
    /// applied, and the step is taken.
    pub fn increment_time(&mut self) -> (outcome: Result<(), Error>)
        requires
            old(self).wf(),
        ensures
            final(self).wf(),
            final(self)@.size == old(self)@.size,
            old(self)@.size > 1 ==> old(self)@.steps.last().complete(),
            old(self)@.can_step() ==> outcome is Ok && final(self)@.total_time_steps == old(
                self,
            )@.total_time_steps + 1 && final(self)@.steps == old(self)@.steps.push(
                old(self)@.steps.last().stepped(),
            ),
            !old(self)@.can_step() ==> (outcome matches Err(Error::Other(_))) && final(self)@
                == old(self)@,
    {
        proof {
            if self@.size > 1 {
                lemma_lattice_complete(self@, self@.steps.len() - 1);
            }
        }
        if self.total_time_steps == u32::MAX {
            return Err(Error::Other(String::from_str("The count of time steps is exhausted")));
        }
        if self.size <= 1 {
            return Err(Error::Other(String::from_str("A grid of one site takes no step")));
        }
        let mut new_step: LatticeTimeStep = self.current().clone();
        proof {
            assert(self@.steps[self@.steps.len() - 1].age == self@.total_time_steps);
        }
        match new_step.step() {
            Ok(()) => {},
            Err(error) => {
                return Err(error);
            },
        }
        let ghost before = self@;
        self.total_time_steps = self.total_time_steps + 1;
        self.steps.push(new_step);
        proof {
            let after = self@;
            assert(after.steps =~= before.steps.push(before.steps.last().stepped()));
            assert forall|i: int| 0 <= i < after.steps.len() implies (#[trigger] after.steps[i]).wf()
                && after.steps[i].size == after.largest() && after.steps[i].age == i by {
                if i < before.steps.len() {
                    assert(before.steps[i].wf());
                }
            }
            assert forall|i: int| 0 < i < after.steps.len() implies #[trigger] after.steps[i]
                == after.steps[i - 1].stepped() by {
                if i < before.steps.len() {
                    assert(before.steps[i] == before.steps[i - 1].stepped());
                }
            }
        }
        Ok(())
    }
}

} // verus!
