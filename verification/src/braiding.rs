//! The braid engine: swaps of adjacent anyons over time, the logical qubit
//! that a swap acts on, and the operators that the swaps induce.

use vstd::prelude::*;
use vstd::std_specs::ops::MulSpec;
use vstd::string::*;
use std::collections::HashSet;
use std::ops::Mul;
use crate::error::Error;
use crate::fusion::{Fusion, FusionPair, FusionView};
use crate::math::{
    can_multiply, checked_power_of_two, kronecker, kronecker_product, lemma_power_of_two_grows,
    power_of_two, Matrix,
};
use crate::model::{two_by_two, AnyonModel, AnyonModelView};
use crate::state::{swapped, FusionNode, State, StateView};
use crate::text::{append_decimal, append_glyph, decimal, is_glyph};

verus! {

/// A request to exchange the anyons at two positions.
pub type Swap = (usize, usize);

/// Whether the two positions of a swap are neighbours.
pub open spec fn adjacent(swap: Swap) -> bool {
    swap.0 + 1 == swap.1 || swap.1 + 1 == swap.0
}

/// Whether a swap moves the anyon at `index`.
pub open spec fn moves(swap: Swap, index: usize) -> bool {
    swap.0 == index || swap.1 == index
}

/// Whether one of the first `upto` swaps of `swaps` moves the anyon at
/// `index`.
pub open spec fn moved_before(swaps: Seq<Swap>, upto: int, index: usize) -> bool {
    exists|i: int| 0 <= i < upto && moves(#[trigger] swaps[i], index)
}

/// Whether swap `i` of `swaps` may be made: its positions are neighbours,
/// and no earlier swap of the list moves either of them.
pub open spec fn admissible(swaps: Seq<Swap>, i: int) -> bool {
    &&& adjacent(swaps[i])
    &&& !moved_before(swaps, i, swaps[i].0)
    &&& !moved_before(swaps, i, swaps[i].1)
}

/// Whether the swaps can be made in one time step: every one of them is
/// admissible.
pub open spec fn valid_swap_set(swaps: Seq<Swap>) -> bool {
    forall|i: int| 0 <= i < swaps.len() ==> #[trigger] admissible(swaps, i)
}

/// A request with a swap of two positions that are not neighbours is not
/// valid.
pub proof fn lemma_distant_swap_is_invalid(swaps: Seq<Swap>, i: int)
    requires
        0 <= i < swaps.len(),
        !adjacent(swaps[i]),
    ensures
        !valid_swap_set(swaps),
{
    assert(!admissible(swaps, i));
}

/// A request with two swaps that move the same position is not valid.
pub proof fn lemma_repeated_index_is_invalid(swaps: Seq<Swap>, i: int, j: int, index: usize)
    requires
        0 <= i < j < swaps.len(),
        moves(swaps[i], index),
        moves(swaps[j], index),
    ensures
        !valid_swap_set(swaps),
{
    assert(moved_before(swaps, j, index));
    assert(!admissible(swaps, j));
}

/// The items after the swaps have been made in order. A swap with a position
/// beyond the last item moves nothing.
pub open spec fn apply_swaps<T>(items: Seq<T>, swaps: Seq<Swap>) -> Seq<T>
    decreases swaps.len(),
{
    if swaps.len() == 0 {
        items
    } else {
        swapped(
            apply_swaps(items, swaps.drop_last()),
            swaps.last().0 as int,
            swaps.last().1 as int,
        )
    }
}

/// Whether a swap exchanges the two anyons of a fusion pair, in either
/// order.
pub open spec fn exchanges(swap: Swap, pair: FusionPair) -> bool {
    (swap.0 == pair.anyon_1 && swap.1 == pair.anyon_2) || (swap.0 == pair.anyon_2 && swap.1
        == pair.anyon_1)
}

/// Whether `qubit` is the logical qubit that a swap acts on: the first pair
/// of the encoding that the swap exchanges, or none where it exchanges none
/// of them.
pub open spec fn is_qubit_of(enc: Seq<FusionPair>, swap: Swap, qubit: Option<usize>) -> bool {
    match qubit {
        Some(q) => q < enc.len() && exchanges(swap, enc[q as int]) && forall|p: int|
            0 <= p < q ==> !exchanges(swap, #[trigger] enc[p]),
        None => forall|p: int| 0 <= p < enc.len() ==> !exchanges(swap, #[trigger] enc[p]),
    }
}

/// Whether the schedule fuses the two anyons of a swap with each other at
/// time 1.
pub open spec fn fused_at_start(ops: Seq<FusionNode>, swap: Swap) -> bool {
    exists|i: int| 0 <= i < ops.len() && (#[trigger] ops[i]).0 == 1 && exchanges(swap, ops[i].1)
}

/// The glyph that a swap draws in row `row` of its five rows at column
/// `col` of the diagram, if it draws one there.
///
/// The two tracks of a swap stand four columns apart, the lower of them at
/// column `4 * lower + 4`. Over five rows the strand that starts on the left
/// falls to the right and the other rises to the left; they cross in the
/// middle row, where the strand of the first position lies on top.
pub open spec fn crossing_glyph(swap: Swap, row: int, col: int) -> Option<char> {
    let lower = if swap.0 < swap.1 {
        swap.0
    } else {
        swap.1
    };
    let offset = col - (4 * lower + 4);
    if row == 0 && offset == 0 {
        Some('\\')
    } else if row == 0 && offset == 4 {
        Some('/')
    } else if row == 1 && offset == 1 {
        Some('\\')
    } else if row == 1 && offset == 3 {
        Some('/')
    } else if row == 2 && offset == 2 {
        if swap.0 < swap.1 {
            Some('\\')
        } else {
            Some('/')
        }
    } else if row == 3 && offset == 1 {
        Some('/')
    } else if row == 3 && offset == 3 {
        Some('\\')
    } else if row == 4 && offset == 0 {
        Some('/')
    } else if row == 4 && offset == 4 {
        Some('\\')
    } else {
        None
    }
}

/// What stands at column `col` of a row of a time step before any swap is
/// drawn: a bar on the track of every anyon that no swap of the step moves,
/// a blank elsewhere. The track of anyon `c` is column `4 * c + 4`.
pub open spec fn track_cell(step: Seq<Swap>, anyons: int, col: int) -> char {
    if col >= 4 && (col - 4) % 4 == 0 && (col - 4) / 4 < anyons && !moved_before(
        step,
        step.len() as int,
        ((col - 4) / 4) as usize,
    ) {
        '|'
    } else {
        ' '
    }
}

/// What stands at column `col` of row `row` of a time step once its first
/// `upto` swaps are drawn over the tracks, each over what was drawn before.
pub open spec fn diagram_cell(step: Seq<Swap>, upto: int, anyons: int, row: int, col: int) -> char
    decreases upto,
{
    if upto <= 0 {
        track_cell(step, anyons, col)
    } else {
        match crossing_glyph(step[upto - 1], row, col) {
            Some(glyph) => glyph,
            None => diagram_cell(step, upto - 1, anyons, row, col),
        }
    }
}

/// Row `row` of the five rows of a time step: `4 * anyons + 4` columns.
pub open spec fn diagram_row(step: Seq<Swap>, anyons: int, row: int) -> Seq<char> {
    Seq::new(
        (4 * anyons + 4) as nat,
        |col: int| diagram_cell(step, step.len() as int, anyons, row, col),
    )
}

/// Whether a row holds nothing but blanks.
pub open spec fn is_blank(row: Seq<char>) -> bool {
    forall|i: int| 0 <= i < row.len() ==> row[i] == ' '
}

/// The text with one more row: a blank row is left out, and a line break
/// stands between two rows.
pub open spec fn with_row(text: Seq<char>, row: Seq<char>) -> Seq<char> {
    if is_blank(row) {
        text
    } else if text.len() == 0 {
        row
    } else {
        text + seq!['\n'] + row
    }
}

/// The text with the first `upto` rows of a time step.
pub open spec fn with_rows(text: Seq<char>, step: Seq<Swap>, anyons: int, upto: int) -> Seq<char>
    decreases upto,
{
    if upto <= 0 {
        text
    } else {
        with_row(with_rows(text, step, anyons, upto - 1), diagram_row(step, anyons, upto - 1))
    }
}

/// The crossing diagram of the first `upto` time steps of a history: five
/// rows per time step, from the first time step down.
pub open spec fn crossing_diagram(history: Seq<Seq<Swap>>, anyons: int, upto: int) -> Seq<char>
    decreases upto,
{
    if upto <= 0 {
        Seq::empty()
    } else {
        with_rows(crossing_diagram(history, anyons, upto - 1), history[upto - 1], anyons, 5)
    }
}

/// What a braid engine is, as plain values.
pub struct BraidView {
    /// The anyons in their current order, and the fusion schedule.
    pub state: StateView,
    /// The swaps made so far, one list per time step.
    pub swaps: Seq<Seq<Swap>>,
    /// The fusion engine of the state as it was when the engine was built.
    pub fusion: FusionView,
}

impl BraidView {
    /// The invariant of an engine: at least three anyons, a fusion engine on
    /// the same schedule and as many anyons, and a history in which every
    /// time step is a valid set of swaps.
    pub open spec fn wf(self) -> bool {
        &&& self.state.wf()
        &&& self.fusion.wf()
        &&& self.state.anyons.len() >= 3
        &&& self.fusion.state.anyons.len() == self.state.anyons.len()
        &&& self.fusion.state.fusion_ops == self.state.fusion_ops
        &&& forall|t: int| 0 <= t < self.swaps.len() ==> valid_swap_set(#[trigger] self.swaps[t])
    }

    /// Whether `time`, counted from 1, is a time step of the history.
    pub open spec fn valid_time(self, time: usize) -> bool {
        1 <= time <= self.swaps.len()
    }

    /// Whether the history holds a swap at place `swap_index` of time step
    /// `time`.
    pub open spec fn has_swap(self, time: usize, swap_index: usize) -> bool {
        self.valid_time(time) && swap_index < self.swaps[time - 1].len()
    }

    /// The swap at place `swap_index` of time step `time`.
    pub open spec fn swap_at(self, time: usize, swap_index: usize) -> Swap {
        self.swaps[time - 1][swap_index as int]
    }

    /// The qubit encoding that the engine works with: that of its fusion
    /// engine, or no pairs at all where the fusion tree encodes none.
    pub open spec fn encoding(self) -> Seq<FusionPair> {
        if self.fusion.terminal_charge_has_sigma() {
            Seq::empty()
        } else {
            self.fusion.qubit_encoding()
        }
    }

    /// The logical qubit that a swap of the history acts on, if it acts on
    /// one.
    pub open spec fn acted_qubit(self, time: usize, swap_index: usize) -> Option<usize> {
        choose|qubit: Option<usize>|
            is_qubit_of(self.encoding(), self.swap_at(time, swap_index), qubit)
    }

    /// The operator of a swap of the history on the qubit it acts on: the
    /// R-matrix of the model where the schedule fuses the two anyons with each
    /// other at time 1, the R-matrix in the changed basis otherwise. There is
    /// none for a swap that the history does not hold, for a swap with a
    /// position beyond the last anyon, and where the changed basis is needed
    /// and the model has none.
    pub open spec fn swap_matrix<T>(
        self,
        time: usize,
        swap_index: usize,
        model: AnyonModelView<T>,
    ) -> Option<Seq<Seq<T>>> {
        let swap = self.swap_at(time, swap_index);
        if !self.has_swap(time, swap_index) {
            None
        } else if swap.0 >= self.state.anyons.len() || swap.1 >= self.state.anyons.len() {
            None
        } else if fused_at_start(self.state.fusion_ops, swap) {
            Some(model.r_mtx)
        } else {
            model.basis_changed
        }
    }

    /// Whether the operator of a swap on the whole register can be built:
    /// the fusion tree has a qubit encoding, the swap acts on one of its
    /// qubits and has an operator there, and a `usize` holds the dimension of
    /// the register.
    pub open spec fn has_unitary<T>(
        self,
        time: usize,
        swap_index: usize,
        model: AnyonModelView<T>,
    ) -> bool {
        &&& !self.fusion.terminal_charge_has_sigma()
        &&& self.has_swap(time, swap_index)
        &&& self.acted_qubit(time, swap_index) is Some
        &&& self.swap_matrix(time, swap_index, model) is Some
        &&& power_of_two(self.encoding().len()) <= usize::MAX
    }
}

/// The operator on the first `count` qubits of a register in which qubit
/// `qubit` carries `acting` and every other qubit `idle`: the Kronecker
/// product of the operators of the single qubits, in the order of the qubits.
pub open spec fn register_operator<T: Mul<Output = T>>(
    count: nat,
    qubit: nat,
    acting: Seq<Seq<T>>,
    idle: Seq<Seq<T>>,
) -> Seq<Seq<T>>
    decreases count,
{
    let last = if count == qubit + 1 {
        acting
    } else {
        idle
    };
    if count <= 1 {
        last
    } else {
        kronecker_product(register_operator((count - 1) as nat, qubit, acting, idle), last)
    }
}

/// Whether the products that `register_operator` takes can be formed: each
/// entry of the operator on the qubits so far may be multiplied by each entry
/// of the operator of the next qubit.
pub open spec fn register_multiplies<T: Mul<Output = T>>(
    count: nat,
    qubit: nat,
    acting: Seq<Seq<T>>,
    idle: Seq<Seq<T>>,
) -> bool
    decreases count,
{
    let last = if count == qubit + 1 {
        acting
    } else {
        idle
    };
    if count <= 1 {
        true
    } else {
        &&& register_multiplies((count - 1) as nat, qubit, acting, idle)
        &&& can_multiply(register_operator((count - 1) as nat, qubit, acting, idle), last)
    }
}

/// Whether the operator on a register can be composed over the scalar type
/// `T`. Where the multiplication of `T` has a specification, the products
/// that are taken must be allowed; where it has none, every product must be.
pub open spec fn composable<T: Mul<Output = T>>(
    count: nat,
    qubit: nat,
    acting: Seq<Seq<T>>,
    idle: Seq<Seq<T>>,
) -> bool {
    if T::obeys_mul_spec() {
        register_multiplies(count, qubit, acting, idle)
    } else {
        forall|x: T, y: T| #[trigger] x.mul_req(y)
    }
}

/// If the products for a register can be formed, so can those for its first
/// qubits.
proof fn lemma_multiplies_prefix<T: Mul<Output = T>>(
    count: nat,
    upto: nat,
    qubit: nat,
    acting: Seq<Seq<T>>,
    idle: Seq<Seq<T>>,
)
    requires
        upto <= count,
        register_multiplies(count, qubit, acting, idle),
    ensures
        register_multiplies(upto, qubit, acting, idle),
    decreases count,
{
    if upto < count && count > 1 {
        lemma_multiplies_prefix((count - 1) as nat, upto, qubit, acting, idle);
    }
}

/// Composes the operator on a register of `num_qubits` qubits in which qubit
/// `qubit` carries `acting` and every other qubit `idle`: the Kronecker
/// product of the operators of the single qubits, in the order of the
/// qubits. The operator has 2 to the power `num_qubits` rows and as many
/// columns.
///
/// The shape of the operator holds for every scalar type. Its entries are
/// stated for scalar types whose multiplication has a specification.
pub fn compose_register<T>(
    num_qubits: usize,
    qubit: usize,
    acting: &Matrix<T>,
    idle: &Matrix<T>,
) -> (unitary: Matrix<T>) where T: Copy + Mul<Output = T>
    requires
        num_qubits >= 1,
        two_by_two(acting@),
        two_by_two(idle@),
        power_of_two(num_qubits as nat) <= usize::MAX,
        composable(num_qubits as nat, qubit as nat, acting@, idle@),
    ensures
        unitary.wf(),
        unitary.has_shape(power_of_two(num_qubits as nat), power_of_two(num_qubits as nat)),
        T::obeys_mul_spec() ==> unitary@ == register_operator(
            num_qubits as nat,
            qubit as nat,
            acting@,
            idle@,
        ),
{
    let mut unitary = if qubit == 0 {
        acting.clone()
    } else {
        idle.clone()
    };
    let mut i: usize = 1;
    proof {
        lemma_power_of_two_grows(1, 1);
        assert(power_of_two(1) == 2) by {
            assert(power_of_two(0) == 1);
        }
    }
    while i < num_qubits
        invariant
            1 <= i <= num_qubits,
            power_of_two(num_qubits as nat) <= usize::MAX,
            two_by_two(acting@),
            two_by_two(idle@),
            composable(num_qubits as nat, qubit as nat, acting@, idle@),
            unitary.wf(),
            unitary.has_shape(power_of_two(i as nat), power_of_two(i as nat)),
            T::obeys_mul_spec() ==> unitary@ == register_operator(
                i as nat,
                qubit as nat,
                acting@,
                idle@,
            ),
        decreases num_qubits - i,
    {
        proof {
            lemma_power_of_two_grows((i + 1) as nat, num_qubits as nat);
            assert(power_of_two((i + 1) as nat) == 2 * power_of_two(i as nat));
            if T::obeys_mul_spec() {
                lemma_multiplies_prefix(
                    num_qubits as nat,
                    (i + 1) as nat,
                    qubit as nat,
                    acting@,
                    idle@,
                );
            }
        }
        if i == qubit {
            unitary = kronecker(&unitary, acting);
        } else {
            unitary = kronecker(&unitary, idle);
        }
        i += 1;
    }
    unitary
}

/// A swap acts on one qubit at most.
pub proof fn lemma_qubit_of_unique(
    enc: Seq<FusionPair>,
    swap: Swap,
    first: Option<usize>,
    second: Option<usize>,
)
    requires
        is_qubit_of(enc, swap, first),
        is_qubit_of(enc, swap, second),
    ensures
        first == second,
{
    match (first, second) {
        (Some(p), Some(q)) => {
            if p < q {
                assert(!exchanges(swap, enc[p as int]));
            } else if q < p {
                assert(!exchanges(swap, enc[q as int]));
            }
        },
        (Some(p), None) => {
            assert(!exchanges(swap, enc[p as int]));
        },
        (None, Some(q)) => {
            assert(!exchanges(swap, enc[q as int]));
        },
        (None, None) => {},
    }
}

/// A braid: the swaps applied to a state over time. A sequence of braids is
/// to an anyon system what a gate is to a quantum circuit.
pub struct Braid {
    state: State,
    swaps: Vec<Vec<Swap>>,
    fusion: Fusion,
}

impl View for Braid {
    type V = BraidView;

    closed spec fn view(&self) -> BraidView {
        BraidView {
            state: self.state@,
            swaps: self.swaps@.map_values(|step: Vec<Swap>| step@),
            fusion: self.fusion@,
        }
    }
}

/// Whether the two positions are neighbours.
fn are_adjacent(index_a: usize, index_b: usize) -> (neighbours: bool)
    ensures
        neighbours == adjacent((index_a, index_b)),
{
    (index_a < index_b && index_b - index_a == 1) || (index_b < index_a && index_a - index_b == 1)
}

/// Whether the swap exchanges the two anyons of the pair.
fn does_exchange(index_a: usize, index_b: usize, pair: &FusionPair) -> (exchanged: bool)
    ensures
        exchanged == exchanges((index_a, index_b), *pair),
{
    (index_a == pair.anyon_1() && index_b == pair.anyon_2()) || (index_a == pair.anyon_2()
        && index_b == pair.anyon_1())
}

/// A message that names two numbers.
fn message_with_two(before: &str, first: usize, between: &str, second: usize, after: &str) -> (text:
    String)
    ensures
        text@ == before@ + decimal(first as nat) + between@ + decimal(second as nat) + after@,
{
    let mut text = String::from_str(before);
    append_decimal(&mut text, first);
    text.append(between);
    append_decimal(&mut text, second);
    text.append(after);
    text
}

/// A message that names one number.
fn message_with_one(before: &str, number: usize, after: &str) -> (text: String)
    ensures
        text@ == before@ + decimal(number as nat) + after@,
{
    let mut text = String::from_str(before);
    append_decimal(&mut text, number);
    text.append(after);
    text
}

/// The glyph that the swap draws at a place of its five rows, if any.
fn glyph_of(swap: Swap, row: usize, col: usize) -> (glyph: Option<char>)
    requires
        row < 5,
    ensures
        glyph == crossing_glyph(swap, row as int, col as int),
        glyph matches Some(c) ==> is_glyph(c),
{
    if col < 4 {
        return None;
    }
    let lower = if swap.0 < swap.1 {
        swap.0
    } else {
        swap.1
    };
    let track = (col - 4) / 4;
    let within = (col - 4) % 4;
    let offset: usize = if lower == track {
        within
    } else if track >= 1 && lower == track - 1 && within == 0 {
        4
    } else {
        return None;
    };
    if row == 0 && offset == 0 {
        Some('\\')
    } else if row == 0 && offset == 4 {
        Some('/')
    } else if row == 1 && offset == 1 {
        Some('\\')
    } else if row == 1 && offset == 3 {
        Some('/')
    } else if row == 2 && offset == 2 {
        if swap.0 < swap.1 {
            Some('\\')
        } else {
            Some('/')
        }
    } else if row == 3 && offset == 1 {
        Some('/')
    } else if row == 3 && offset == 3 {
        Some('\\')
    } else if row == 4 && offset == 0 {
        Some('/')
    } else if row == 4 && offset == 4 {
        Some('\\')
    } else {
        None
    }
}

/// Whether a swap of the step moves the anyon at `index`.
fn is_moved(step: &Vec<Swap>, index: usize) -> (moved: bool)
    ensures
        moved == moved_before(step@, step@.len() as int, index),
{
    let mut i: usize = 0;
    while i < step.len()
        invariant
            i <= step.len(),
            forall|k: int| 0 <= k < i ==> !moves(#[trigger] step@[k], index),
        decreases step.len() - i,
    {
        if step[i].0 == index || step[i].1 == index {
            return true;
        }
        i += 1;
    }
    false
}

/// What stands at a place of the diagram of a time step.
fn cell_of(step: &Vec<Swap>, anyons: usize, row: usize, col: usize) -> (cell: char)
    requires
        row < 5,
    ensures
        cell == diagram_cell(step@, step@.len() as int, anyons as int, row as int, col as int),
        is_glyph(cell),
{
    let mut k: usize = step.len();
    while k > 0
        invariant
            k <= step.len(),
            row < 5,
            diagram_cell(step@, step@.len() as int, anyons as int, row as int, col as int)
                == diagram_cell(step@, k as int, anyons as int, row as int, col as int),
        decreases k,
    {
        match glyph_of(step[k - 1], row, col) {
            Some(glyph) => {
                return glyph;
            },
            None => {},
        }
        k -= 1;
    }
    if col >= 4 && (col - 4) % 4 == 0 && (col - 4) / 4 < anyons && !is_moved(step, (col - 4) / 4) {
        '|'
    } else {
        ' '
    }
}

/// Appends a row to the text, as `with_row` says.
fn append_row(text: &mut String, step: &Vec<Swap>, anyons: usize, row: usize)
    requires
        row < 5,
        4 * anyons + 4 <= usize::MAX,
    ensures
        final(text)@ == with_row(old(text)@, diagram_row(step@, anyons as int, row as int)),
{
    let width = 4 * anyons + 4;
    let ghost wanted = diagram_row(step@, anyons as int, row as int);
    let mut line = String::new();
    let mut visible = false;
    let mut col: usize = 0;
    while col < width
        invariant
            col <= width,
            row < 5,
            width == 4 * anyons + 4,
            wanted == diagram_row(step@, anyons as int, row as int),
            line@ == wanted.take(col as int),
            visible <==> exists|i: int| 0 <= i < col && wanted[i] != ' ',
        decreases width - col,
    {
        let cell = cell_of(step, anyons, row, col);
        append_glyph(&mut line, cell);
        proof {
            assert(wanted.take(col + 1) =~= wanted.take(col as int).push(wanted[col as int]));
            if cell != ' ' {
                assert(wanted[col as int] != ' ');
            }
        }
        if cell != ' ' {
            visible = true;
        }
        col += 1;
    }
    proof {
        assert(wanted.take(width as int) =~= wanted);
    }
    if visible {
        if text.as_str().unicode_len() > 0 {
            append_glyph(text, '\n');
        }
        text.append(line.as_str());
        proof {
            let i = choose|i: int| 0 <= i < width && wanted[i] != ' ';
            assert(!is_blank(wanted));
            if old(text)@.len() == 0 {
                assert(text@ =~= wanted);
            } else {
                assert(text@ =~= old(text)@ + seq!['\n'] + wanted);
            }
        }
    } else {
        assert(is_blank(wanted));
    }
}

impl Braid {
    /// The invariant of an engine.
    pub open spec fn wf(&self) -> bool {
        self@.wf()
    }

    /// Builds the braid engine of a state, with an empty history. A state
    /// with fewer than three anyons cannot be braided.
    pub fn new(state: State) -> (outcome: Result<Braid, Error>)
        requires
            state.wf(),
        ensures
            state@.anyons.len() >= 3 ==> outcome is Ok && outcome->Ok_0.wf() && outcome->Ok_0@.state
                == state@ && outcome->Ok_0@.fusion.state == state@ && outcome->Ok_0@.swaps.len()
                == 0,
            state@.anyons.len() < 3 ==> outcome matches Err(Error::ConstructionError(_)),
    {
        if state.anyon_count() < 3 {
            return Err(
                Error::ConstructionError(
                    String::from_str("State must have at least 3 anyons to braid"),
                ),
            );
        }
        let snapshot = state.clone();
        let braid = Braid { state, swaps: Vec::new(), fusion: Fusion::new(snapshot) };
        proof {
            assert(braid@.swaps =~= Seq::empty());
        }
        Ok(braid)
    }

    /// The state with the anyons in their current order.
    pub fn state(&self) -> (state: State)
        ensures
            state@ == self@.state,
    {
        self.state.clone()
    }

    /// The swaps made so far, one list per time step.
    pub fn swaps(&self) -> (swaps: Vec<Vec<Swap>>)
        ensures
            swaps@.map_values(|step: Vec<Swap>| step@) == self@.swaps,
    {
        let mut swaps: Vec<Vec<Swap>> = Vec::new();
        let mut t: usize = 0;
        while t < self.swaps.len()
            invariant
                t <= self.swaps.len(),
                swaps@.len() == t,
                forall|k: int| 0 <= k < t ==> (#[trigger] swaps@[k])@ == self.swaps@[k]@,
            decreases self.swaps.len() - t,
        {
            let mut step: Vec<Swap> = Vec::new();
            let mut i: usize = 0;
            while i < self.swaps[t].len()
                invariant
                    t < self.swaps.len(),
                    i <= self.swaps@[t as int]@.len(),
                    step@ == self.swaps@[t as int]@.take(i as int),
                decreases self.swaps@[t as int]@.len() - i,
            {
                step.push(self.swaps[t][i]);
                i += 1;
            }
            assert(step@ =~= self.swaps@[t as int]@);
            swaps.push(step);
            t += 1;
        }
        proof {
            assert(swaps@.map_values(|step: Vec<Swap>| step@) =~= self@.swaps);
        }
        swaps
    }

    /// Checks that `time`, counted from 1, is a time step of the history.
    fn is_valid_time(&self, time: usize) -> (outcome: Result<(), Error>)
        ensures
            self@.valid_time(time) ==> outcome is Ok,
            !self@.valid_time(time) ==> outcome matches Err(Error::BraidingError(_)),
    {
        if time == 0 || time > self.swaps.len() {
            return Err(
                Error::BraidingError(
                    message_with_two(
                        "Time cannot be 0 or greater than the length of the swaps. Inputted time: ",
                        time,
                        ", swaps length: ",
                        self.swaps.len(),
                        "",
                    ),
                ),
            );
        }
        Ok(())
    }

    /// Whether the schedule fuses the anyons at the two positions with each
    /// other at time 1.
    fn is_direct_swap(&self, index_a: usize, index_b: usize) -> (direct: bool)
        ensures
            direct == fused_at_start(self@.state.fusion_ops, (index_a, index_b)),
    {
        let fusion_operations = self.state.fusion_ops();
        let mut i: usize = 0;
        while i < fusion_operations.len()
            invariant
                i <= fusion_operations.len(),
                fusion_operations@ == self@.state.fusion_ops,
                forall|k: int|
                    0 <= k < i ==> !((#[trigger] fusion_operations@[k]).0 == 1 && exchanges(
                        (index_a, index_b),
                        fusion_operations@[k].1,
                    )),
            decreases fusion_operations.len() - i,
        {
            let fusion = &fusion_operations[i];
            if fusion.0 == 1 {
                if does_exchange(index_a, index_b, &fusion.1) {
                    return true;
                }
            }
            i += 1;
        }
        false
    }

    /// Makes the swaps of one time step.
    ///
    /// The request is refused as a whole, and the engine left as it was, when
    /// a swap names two positions that are not neighbours or a position that
    /// an earlier swap of the same request names. Otherwise the anyons are
    /// exchanged swap by swap (a swap with a position beyond the last anyon
    /// moves nothing) and the request becomes the next time step of the
    /// history.
    pub fn swap(&mut self, swaps: Vec<Swap>) -> (outcome: Result<(), Error>)
        requires
            old(self).wf(),
        ensures
            final(self).wf(),
            final(self)@.fusion == old(self)@.fusion,
            final(self)@.state.fusion_ops == old(self)@.state.fusion_ops,
            valid_swap_set(swaps@) ==> outcome is Ok && final(self)@.swaps == old(self)@.swaps.push(
                swaps@,
            ) && final(self)@.state.anyons == apply_swaps(old(self)@.state.anyons, swaps@),
            !valid_swap_set(swaps@) ==> (outcome matches Err(Error::BraidingError(_)))
                && final(self)@.swaps == old(self)@.swaps && final(self)@.state.anyons == old(
                self,
            )@.state.anyons,
    {
        let mut swapped_indices: HashSet<usize> = HashSet::new();
        let mut i: usize = 0;
        while i < swaps.len()
            invariant
                i <= swaps.len(),
                *self == *old(self),
                old(self).wf(),
                forall|k: int| 0 <= k < i ==> #[trigger] admissible(swaps@, k),
                forall|index: usize|
                    swapped_indices@.contains(index) <==> moved_before(swaps@, i as int, index),
            decreases swaps.len() - i,
        {
            let (index_a, index_b) = swaps[i];
            if !are_adjacent(index_a, index_b) {
                assert(!admissible(swaps@, i as int));
                return Err(
                    Error::BraidingError(
                        message_with_two(
                            "Indices ",
                            index_a,
                            " and ",
                            index_b,
                            " are not adjacent",
                        ),
                    ),
                );
            }
            if swapped_indices.contains(&index_a) {
                assert(!admissible(swaps@, i as int));
                return Err(
                    Error::BraidingError(
                        message_with_one(
                            "Index ",
                            index_a,
                            " has already been swapped in this operation",
                        ),
                    ),
                );
            }
            if swapped_indices.contains(&index_b) {
                assert(!admissible(swaps@, i as int));
                return Err(
                    Error::BraidingError(
                        message_with_one(
                            "Index ",
                            index_b,
                            " has already been swapped in this operation",
                        ),
                    ),
                );
            }
            assert(admissible(swaps@, i as int));
            swapped_indices.insert(index_a);
            swapped_indices.insert(index_b);
            proof {
                assert forall|index: usize|
                    swapped_indices@.contains(index) <==> moved_before(
                        swaps@,
                        i + 1,
                        index,
                    ) by {
                    if moved_before(swaps@, i + 1, index) {
                        let k = choose|k: int| 0 <= k < i + 1 && moves(#[trigger] swaps@[k], index);
                        if k < i {
                            assert(moved_before(swaps@, i as int, index));
                        }
                    }
                    if moved_before(swaps@, i as int, index) {
                        let k = choose|k: int| 0 <= k < i && moves(#[trigger] swaps@[k], index);
                        assert(moves(swaps@[k], index));
                    }
                    if index == index_a || index == index_b {
                        assert(moves(swaps@[i as int], index));
                    }
                }
            }
            i += 1;
        }
        assert(valid_swap_set(swaps@));
        let mut k: usize = 0;
        proof {
            assert(swaps@.take(0) =~= Seq::<Swap>::empty());
        }
        while k < swaps.len()
            invariant
                k <= swaps.len(),
                old(self).wf(),
                self.state.wf(),
                self.fusion == old(self).fusion,
                self.swaps == old(self).swaps,
                self.state@.fusion_ops == old(self)@.state.fusion_ops,
                self.state@.anyons == apply_swaps(old(self)@.state.anyons, swaps@.take(k as int)),
                self.state@.anyons.len() == old(self)@.state.anyons.len(),
            decreases swaps.len() - k,
        {
            let (index_a, index_b) = swaps[k];
            let _ = self.state.swap_anyons(index_a, index_b);
            proof {
                let next = swaps@.take(k + 1);
                assert(next.drop_last() =~= swaps@.take(k as int));
                assert(next.last() == swaps@[k as int]);
            }
            k += 1;
        }
        proof {
            assert(swaps@.take(swaps@.len() as int) =~= swaps@);
        }
        let ghost steps = self@.swaps;
        self.swaps.push(swaps);
        proof {
            assert(self@.swaps =~= steps.push(swaps@));
            assert forall|t: int| 0 <= t < self@.swaps.len() implies valid_swap_set(
                #[trigger] self@.swaps[t],
            ) by {
                if t < steps.len() {
                    assert(self@.swaps[t] == old(self)@.swaps[t]);
                }
            }
        }
        Ok(())
    }

    /// Draws the history as a crossing diagram.
    ///
    /// Every time step takes five rows of `4 * n + 4` columns, `n` being the
    /// number of anyons. An anyon that no swap of the time step moves has a
    /// bar on its track in all five rows; the two strands of a swap cross
    /// between its two tracks. Rows of blanks are left out, and the rows are
    /// separated by line breaks. An empty history gives an empty text.
    pub fn to_string(&self) -> (text: String)
        requires
            self.wf(),
            4 * self@.state.anyons.len() + 4 <= usize::MAX,
        ensures
            text@ == crossing_diagram(
                self@.swaps,
                self@.state.anyons.len() as int,
                self@.swaps.len() as int,
            ),
    {
        let num_anyons = self.state.anyon_count();
        let mut output = String::new();
        let mut time_step: usize = 0;
        while time_step < self.swaps.len()
            invariant
                time_step <= self.swaps.len(),
                num_anyons == self@.state.anyons.len(),
                4 * num_anyons + 4 <= usize::MAX,
                output@ == crossing_diagram(self@.swaps, num_anyons as int, time_step as int),
            decreases self.swaps.len() - time_step,
        {
            let step = &self.swaps[time_step];
            proof {
                assert(self@.swaps[time_step as int] == step@);
            }
            let mut row: usize = 0;
            while row < 5
                invariant
                    row <= 5,
                    4 * num_anyons + 4 <= usize::MAX,
                    output@ == with_rows(
                        crossing_diagram(self@.swaps, num_anyons as int, time_step as int),
                        step@,
                        num_anyons as int,
                        row as int,
                    ),
                decreases 5 - row,
            {
                append_row(&mut output, step, num_anyons, row);
                row += 1;
            }
            time_step += 1;
        }
        output
    }

    /// Finds the logical qubit that a swap of the history acts on.
    ///
    /// `time` counts the time steps from 1, `swap_index` the swaps of the
    /// time step from 0. The qubit is the place, in the qubit encoding, of the
    /// first fusion pair whose two anyons the swap exchanges. A fusion tree
    /// without a qubit encoding has no such pair.
    pub fn swap_to_qubit(&self, time: usize, swap_index: usize) -> (outcome: Result<
        Option<usize>,
        Error,
    >)
        requires
            self.wf(),
        ensures
            !self@.has_swap(time, swap_index) ==> outcome matches Err(Error::BraidingError(_)),
            self@.has_swap(time, swap_index) ==> outcome is Ok && is_qubit_of(
                self@.encoding(),
                self@.swap_at(time, swap_index),
                outcome->Ok_0,
            ),
    {
        match self.is_valid_time(time) {
            Err(error) => {
                return Err(error);
            },
            Ok(_) => {},
        }
        let swap = &self.swaps[time - 1];
        proof {
            assert(self@.swaps[time - 1] == swap@);
        }
        if swap_index >= swap.len() {
            return Err(
                Error::BraidingError(
                    message_with_two(
                        "Swap index ",
                        swap_index,
                        " is greater than the number of swaps ",
                        swap.len(),
                        "",
                    ),
                ),
            );
        }
        let (index_a, index_b) = swap[swap_index];
        match self.fusion.qubit_enc() {
            Err(_) => Ok(None),
            Ok(encoding) => {
                let mut qubit_index: usize = 0;
                while qubit_index < encoding.len()
                    invariant
                        qubit_index <= encoding.len(),
                        self@.has_swap(time, swap_index),
                        (index_a, index_b) == self@.swap_at(time, swap_index),
                        encoding@ == self@.encoding(),
                        forall|p: int|
                            0 <= p < qubit_index ==> !exchanges(
                                (index_a, index_b),
                                #[trigger] encoding@[p],
                            ),
                    decreases encoding.len() - qubit_index,
                {
                    if does_exchange(index_a, index_b, &encoding[qubit_index]) {
                        return Ok(Some(qubit_index));
                    }
                    qubit_index += 1;
                }
                Ok(None)
            },
        }
    }

    /// Derives the operator of a swap of the history on the qubit it acts
    /// on, from the matrices of the model.
    ///
    /// A swap of two anyons that the schedule fuses with each other at time 1
    /// is a direct swap and has the R-matrix of the model. Any other swap has
    /// the R-matrix in the changed basis, and none where the model lacks it.
    pub fn generate_swap_matrix<T: Copy>(
        &self,
        time: usize,
        swap_index: usize,
        model: &AnyonModel<T>,
    ) -> (outcome: Result<Matrix<T>, Error>)
        requires
            self.wf(),
            model.wf(),
        ensures
            match self@.swap_matrix(time, swap_index, model@) {
                Some(matrix) => outcome is Ok && outcome->Ok_0@ == matrix,
                None => outcome matches Err(Error::BraidingError(_)),
            },
    {
        match self.is_valid_time(time) {
            Err(error) => {
                return Err(error);
            },
            Ok(_) => {},
        }
        let swap = &self.swaps[time - 1];
        proof {
            assert(self@.swaps[time - 1] == swap@);
        }
        if swap_index >= swap.len() {
            return Err(
                Error::BraidingError(
                    message_with_two(
                        "Swap index ",
                        swap_index,
                        " is greater than the number of swaps ",
                        swap.len(),
                        "",
                    ),
                ),
            );
        }
        let (index_a, index_b) = swap[swap_index];
        if index_a >= self.state.anyon_count() || index_b >= self.state.anyon_count() {
            return Err(
                Error::BraidingError(
                    message_with_two("Invalid anyon indices: ", index_a, ", ", index_b, ""),
                ),
            );
        }
        if self.is_direct_swap(index_a, index_b) {
            Ok(model.r_mtx().clone())
        } else {
            match model.basis_changed() {
                Some(matrix) => Ok(matrix.clone()),
                None => Err(
                    Error::BraidingError(String::from_str("Failed to get the inverse of F matrix")),
                ),
            }
        }
    }

    /// Builds the operator of a swap of the history on the whole register
    /// of logical qubits.
    ///
    /// The operator is the Kronecker product, in the order of the qubit
    /// encoding, of one matrix per qubit: the operator of the swap at the
    /// qubit that the swap acts on, the identity of the model at every other.
    /// With `n` qubits it has 2 to the power `n` rows and as many columns, so
    /// its size doubles twice with every qubit.
    ///
    /// There is no operator where the fusion tree has no qubit encoding,
    /// where the swap is not in the history or acts on no qubit, where the
    /// swap has no operator, and where no `usize` holds the dimension.
    ///
    /// The shape of the operator holds for every scalar type. Its entries
    /// are stated for scalar types whose multiplication has a specification.
    pub fn generate_unitary<T>(&self, time: usize, swap_index: usize, model: &AnyonModel<T>) -> (outcome:
        Result<Matrix<T>, Error>) where T: Copy + Mul<Output = T>
        requires
            self.wf(),
            model.wf(),
            self@.has_unitary(time, swap_index, model@) ==> composable(
                self@.encoding().len(),
                self@.acted_qubit(time, swap_index)->0 as nat,
                self@.swap_matrix(time, swap_index, model@)->0,
                model@.identity,
            ),
        ensures
            self@.fusion.terminal_charge_has_sigma() ==> outcome matches Err(Error::FusionError(_)),
            !self@.fusion.terminal_charge_has_sigma() && !self@.has_unitary(
                time,
                swap_index,
                model@,
            ) ==> outcome matches Err(Error::BraidingError(_)),
            self@.has_unitary(time, swap_index, model@) ==> outcome is Ok && outcome->Ok_0.wf()
                && outcome->Ok_0.has_shape(
                power_of_two(self@.encoding().len()),
                power_of_two(self@.encoding().len()),
            ) && (T::obeys_mul_spec() ==> outcome->Ok_0@ == register_operator(
                self@.encoding().len(),
                self@.acted_qubit(time, swap_index)->0 as nat,
                self@.swap_matrix(time, swap_index, model@)->0,
                model@.identity,
            )),
    {
        let qubit_encoding = match self.fusion.qubit_enc() {
            Ok(encoding) => encoding,
            Err(error) => {
                return Err(error);
            },
        };
        let num_qubits = qubit_encoding.len();
        let swap_qubit_index = match self.swap_to_qubit(time, swap_index) {
            Err(error) => {
                return Err(error);
            },
            Ok(None) => {
                proof {
                    lemma_qubit_of_unique(
                        self@.encoding(),
                        self@.swap_at(time, swap_index),
                        None,
                        self@.acted_qubit(time, swap_index),
                    );
                }
                return Err(
                    Error::BraidingError(String::from_str("The swap acts on no logical qubit")),
                );
            },
            Ok(Some(qubit)) => {
                proof {
                    lemma_qubit_of_unique(
                        self@.encoding(),
                        self@.swap_at(time, swap_index),
                        Some(qubit),
                        self@.acted_qubit(time, swap_index),
                    );
                }
                qubit
            },
        };
        let swap_matrix = match self.generate_swap_matrix(time, swap_index, model) {
            Ok(matrix) => matrix,
            Err(error) => {
                return Err(error);
            },
        };
        if checked_power_of_two(num_qubits).is_none() {
            return Err(
                Error::BraidingError(
                    String::from_str("The register has too many qubits for its operator"),
                ),
            );
        }
        let unitary = compose_register(num_qubits, swap_qubit_index, &swap_matrix, model.identity());
        Ok(unitary)
    }
}

} // verus!
