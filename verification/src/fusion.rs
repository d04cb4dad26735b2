//! The fusion engine: fusion events, charge propagation and the qubit
//! encoding of a fusion tree.

use vstd::prelude::*;
use vstd::string::*;
use crate::anyon::{Anyon, AnyonView, TopoCharge};
use crate::charge::{
    cap, fuse, lemma_fuse_capped, lemma_fuse_components, tc_view, total_charge, CanonicalTC,
    Multiplicities,
};
use crate::error::Error;
use crate::state::{may_follow, valid_schedule, FusionNode, State, StateView};
use crate::text::{
    append_decimal, append_glyph, decimal, decimal_value, digits_end, is_numeral,
    lemma_decimal_is_numeral, lemma_digits_end, lemma_numeral_is_decimal, scan_numeral,
};

verus! {

/// Two anyons that fuse, as indices into the anyon list of the state they
/// belong to. The result of the fusion takes the place of the first.
#[derive(Copy, Clone, Debug, PartialEq, Eq, Hash, PartialOrd, Ord, Structural)]
pub struct FusionPair {
    /// The first anyon index used in the fusion event
    pub anyon_1: usize,
    /// The second anyon index used in the fusion event
    pub anyon_2: usize,
}

impl FusionPair {
    pub fn new(anyon_1: usize, anyon_2: usize) -> (pair: FusionPair)
        ensures
            pair == (FusionPair { anyon_1, anyon_2 }),
    {
        FusionPair { anyon_1, anyon_2 }
    }

    pub fn anyon_1(&self) -> (index: usize)
        ensures
            index == self.anyon_1,
    {
        self.anyon_1
    }

    pub fn anyon_2(&self) -> (index: usize)
        ensures
            index == self.anyon_2,
    {
        self.anyon_2
    }

    /// Whether one of the two indices is `index`.
    pub open spec fn touches(self, index: usize) -> bool {
        self.anyon_1 == index || self.anyon_2 == index
    }

    /// Whether the two pairs have an index in common.
    pub open spec fn overlaps(self, other: FusionPair) -> bool {
        self.touches(other.anyon_1) || self.touches(other.anyon_2)
    }

    /// The canonical order of pairs: by the first index, then by the second.
    pub open spec fn precedes(self, other: FusionPair) -> bool {
        self.anyon_1 < other.anyon_1 || (self.anyon_1 == other.anyon_1 && self.anyon_2
            < other.anyon_2)
    }

    /// The pair as text: the two indices as decimal numerals, with a blank
    /// between them, in round brackets.
    pub open spec fn rendered(self) -> Seq<char> {
        seq!['('] + decimal(self.anyon_1 as nat) + seq![' '] + decimal(self.anyon_2 as nat)
            + seq![')']
    }

    /// The pair that a text stands for, if it stands for one: the text is an
    /// opening bracket, a numeral, a blank, a numeral and a closing bracket,
    /// and a `usize` holds each of the two numbers.
    pub open spec fn parsed(text: Seq<char>) -> Option<FusionPair> {
        let first_end = digits_end(text, 1);
        let second_end = digits_end(text, first_end + 1);
        let first = text.subrange(1, first_end);
        let second = text.subrange(first_end + 1, second_end);
        if text.len() >= 1 && text[0] == '(' && first_end < text.len() && is_numeral(first)
            && decimal_value(first) <= usize::MAX && text[first_end] == ' ' && second_end + 1
            == text.len() && is_numeral(second) && decimal_value(second) <= usize::MAX
            && text[second_end] == ')' {
            Some(
                FusionPair {
                    anyon_1: decimal_value(first) as usize,
                    anyon_2: decimal_value(second) as usize,
                },
            )
        } else {
            None
        }
    }

    /// Writes the pair as text, as in `(0 1)`.
    pub fn to_string(&self) -> (text: String)
        ensures
            text@ == self.rendered(),
    {
        let mut text = String::new();
        proof {
            reveal_strlit("(");
            reveal_strlit(")");
        }
        text.append("(");
        append_decimal(&mut text, self.anyon_1);
        append_glyph(&mut text, ' ');
        append_decimal(&mut text, self.anyon_2);
        text.append(")");
        proof {
            assert("("@ =~= seq!['(']);
            assert(")"@ =~= seq![')']);
            assert(text@ =~= self.rendered());
        }
        text
    }

    /// Reads a pair back from its text. A text that no pair is written as
    /// stands for no pair.
    pub fn parse(text: &str) -> (pair: Option<FusionPair>)
        ensures
            pair == FusionPair::parsed(text@),
            match pair {
                Some(read) => text@ == read.rendered(),
                None => forall|other: FusionPair| text@ != #[trigger] other.rendered(),
            },
    {
        proof {
            FusionPair::lemma_parsed_is_rendered(text@);
            assert forall|other: FusionPair|
                text@ == #[trigger] other.rendered() implies FusionPair::parsed(text@) == Some(
                other,
            ) by {
                other.lemma_rendering_round_trip();
            }
        }
        let len = text.unicode_len();
        if len < 1 || text.get_char(0) != '(' {
            return None;
        }
        let (first, first_end) = scan_numeral(text, 1);
        let anyon_1 = match first {
            Some(value) => value,
            None => {
                return None;
            },
        };
        if first_end >= len || text.get_char(first_end) != ' ' {
            return None;
        }
        let (second, second_end) = scan_numeral(text, first_end + 1);
        let anyon_2 = match second {
            Some(value) => value,
            None => {
                return None;
            },
        };
        if second_end >= len || second_end + 1 != len || text.get_char(second_end) != ')' {
            return None;
        }
        Some(FusionPair { anyon_1, anyon_2 })
    }

    /// A text stands for a pair only if the pair is written as that text.
    pub proof fn lemma_parsed_is_rendered(text: Seq<char>)
        ensures
            FusionPair::parsed(text) matches Some(pair) ==> pair.rendered() == text,
    {
        if let Some(pair) = FusionPair::parsed(text) {
            let first_end = digits_end(text, 1);
            let second_end = digits_end(text, first_end + 1);
            let first = text.subrange(1, first_end);
            let second = text.subrange(first_end + 1, second_end);
            lemma_numeral_is_decimal(first);
            lemma_numeral_is_decimal(second);
            assert(pair.rendered() =~= text);
        }
    }

    /// Writing a pair and reading the text back gives the pair again.
    pub proof fn lemma_rendering_round_trip(self)
        ensures
            FusionPair::parsed(self.rendered()) == Some(self),
    {
        let first = decimal(self.anyon_1 as nat);
        let second = decimal(self.anyon_2 as nat);
        let text = self.rendered();
        lemma_decimal_is_numeral(self.anyon_1 as nat);
        lemma_decimal_is_numeral(self.anyon_2 as nat);
        let head = seq!['('];
        let middle = seq![' '] + second + seq![')'];
        assert(text =~= head + first + middle);
        lemma_digits_end(head, first, middle, 1);
        let first_end: int = 1 + first.len() as int;
        assert(digits_end(text, 1) == first_end);
        let front = head + first + seq![' '];
        let tail = seq![')'];
        assert(text =~= front + second + tail);
        lemma_digits_end(front, second, tail, first_end + 1);
        let second_end: int = first_end + 1 + second.len() as int;
        assert(digits_end(text, first_end + 1) == second_end);
        assert(text.subrange(1, first_end) =~= first);
        assert(text.subrange(first_end + 1, second_end) =~= second);
        assert(text[first_end] == ' ');
        assert(text[second_end] == ')');
    }
}

/// The pairs that fuse at one time step, in the order in which they were
/// scheduled.
pub type FusionEvent = Vec<FusionPair>;

/// The schedule cut into events: each run of entries with one time forms an
/// event, and the events stand in the order of the schedule.
pub open spec fn events_of(ops: Seq<FusionNode>) -> Seq<Seq<FusionPair>>
    decreases ops.len(),
{
    if ops.len() == 0 {
        seq![]
    } else {
        let before = events_of(ops.drop_last());
        if ops.len() >= 2 && ops[ops.len() - 2].0 == ops.last().0 {
            before.drop_last().push(before.last().push(ops.last().1))
        } else {
            before.push(seq![ops.last().1])
        }
    }
}

/// The charge that each anyon starts with.
pub open spec fn initial_charges(anyons: Seq<AnyonView>) -> Seq<Multiplicities> {
    anyons.map_values(|a: AnyonView| Multiplicities::unit(a.charge))
}

/// The charge at every anyon index once the whole schedule `ops` has run:
/// each entry writes the fusion of its two anyons at the index of the first.
pub open spec fn charges_after(init: Seq<Multiplicities>, ops: Seq<FusionNode>) -> Seq<
    Multiplicities,
>
    decreases ops.len(),
{
    if ops.len() == 0 {
        init
    } else {
        let before = charges_after(init, ops.drop_last());
        let pair = ops.last().1;
        before.update(
            pair.anyon_1 as int,
            fuse(before[pair.anyon_1 as int], before[pair.anyon_2 as int]),
        )
    }
}

/// The charge that entry `i` of the schedule produces: the fusion of its two
/// anyons as the entries before it left them.
pub open spec fn fused_charge(
    init: Seq<Multiplicities>,
    ops: Seq<FusionNode>,
    i: int,
) -> Multiplicities {
    let before = charges_after(init, ops.take(i));
    fuse(before[ops[i].1.anyon_1 as int], before[ops[i].1.anyon_2 as int])
}

/// Whether entry `i` is the last among the first `upto` entries of the
/// schedule that fuses `pair`.
pub open spec fn is_last_fusion_of(ops: Seq<FusionNode>, upto: int, i: int, pair: FusionPair) -> bool {
    &&& 0 <= i < upto
    &&& ops[i].1 == pair
    &&& forall|j: int| i < j < upto ==> (#[trigger] ops[j]).1 != pair
}

/// Whether `pair` stands for a logical qubit: the schedule fuses it, and the
/// charge that its last fusion produces holds no Sigma.
pub open spec fn encodes_qubit(
    init: Seq<Multiplicities>,
    ops: Seq<FusionNode>,
    pair: FusionPair,
) -> bool {
    exists|i: int| #[trigger]
        is_last_fusion_of(ops, ops.len() as int, i, pair) && fused_charge(init, ops, i).sigma == 0
}

/// Whether the pairs stand in canonical order, none of them twice.
pub open spec fn strictly_ascending(pairs: Seq<FusionPair>) -> bool {
    forall|i: int, j: int| 0 <= i < j < pairs.len() ==> pairs[i].precedes(pairs[j])
}

/// Whether one of the first `upto` events fuses `anyon` away: has a pair
/// with `anyon` as its second index.
pub open spec fn fused_away(events: Seq<Seq<FusionPair>>, upto: int, anyon: int) -> bool {
    exists|e: int, k: int|
        0 <= e < upto && e < events.len() && 0 <= k < events[e].len() && (
        #[trigger] events[e][k]).anyon_2 == anyon
}

/// Whether a pair of the event joins across place `place` of a line of the
/// tree. Anyon `a` stands at place `2 * a`; a pair joins the places after
/// its first anyon and before its second.
pub open spec fn joined_at(event: Seq<FusionPair>, place: int) -> bool {
    exists|k: int|
        0 <= k < event.len() && 2 * (#[trigger] event[k]).anyon_1 + 1 <= place < 2
            * event[k].anyon_2
}

/// What stands at a place of the line of event `e`: a dash where a pair of
/// the event joins, a bar at the place of an anyon that no earlier event has
/// fused away, a blank elsewhere.
pub open spec fn tree_cell(events: Seq<Seq<FusionPair>>, e: int, place: int) -> char {
    if joined_at(events[e], place) {
        '─'
    } else if place % 2 == 0 && !fused_away(events, e, place / 2) {
        '|'
    } else {
        ' '
    }
}

/// The line of event `e` in a tree over `anyons` anyons, with its line
/// break.
pub open spec fn tree_line(events: Seq<Seq<FusionPair>>, e: int, anyons: int) -> Seq<char> {
    Seq::new((2 * anyons) as nat, |place: int| tree_cell(events, e, place)).push('\n')
}

/// The lines of the first `upto` events.
pub open spec fn tree_body(events: Seq<Seq<FusionPair>>, anyons: int, upto: int) -> Seq<char>
    decreases upto,
{
    if upto <= 0 {
        Seq::empty()
    } else {
        tree_body(events, anyons, upto - 1) + tree_line(events, upto - 1, anyons)
    }
}

/// The names of the first `upto` anyons, each followed by a blank.
pub open spec fn tree_names(anyons: Seq<AnyonView>, upto: int) -> Seq<char>
    decreases upto,
{
    if upto <= 0 {
        Seq::empty()
    } else {
        tree_names(anyons, upto - 1) + anyons[upto - 1].name + seq![' ']
    }
}

/// A line with a bar at the place of every anyon that the first `upto`
/// events have not fused away.
pub open spec fn tree_bars(events: Seq<Seq<FusionPair>>, upto: int, anyons: int) -> Seq<char> {
    Seq::new(
        (2 * anyons) as nat,
        |place: int|
            if place % 2 == 0 && !fused_away(events, upto, place / 2) {
                '|'
            } else {
                ' '
            },
    )
}

/// The fusion tree as text: the names of the anyons, a line of bars, one
/// line per event, and a last line with a bar under every anyon that is
/// left.
pub open spec fn tree_text(anyons: Seq<AnyonView>, events: Seq<Seq<FusionPair>>) -> Seq<char> {
    tree_names(anyons, anyons.len() as int) + seq!['\n'] + tree_bars(
        events,
        0,
        anyons.len() as int,
    ) + seq!['\n'] + tree_body(events, anyons.len() as int, events.len() as int) + tree_bars(
        events,
        events.len() as int,
        anyons.len() as int,
    )
}

/// What a fusion engine is, as plain values.
pub struct FusionView {
    pub state: StateView,
    pub events: Seq<Seq<FusionPair>>,
}

impl FusionView {
    /// The invariant of an engine: a valid state, and its schedule cut into
    /// events.
    pub open spec fn wf(self) -> bool {
        &&& self.state.wf()
        &&& self.events == events_of(self.state.fusion_ops)
    }

    /// Whether the last fusion of the schedule leaves a charge that holds
    /// Sigma. Such a tree encodes no qubits.
    pub open spec fn terminal_charge_has_sigma(self) -> bool {
        let ops = self.state.fusion_ops;
        ops.len() > 0 && fused_charge(initial_charges(self.state.anyons), ops, ops.len() - 1).sigma
            > 0
    }

    /// Whether `enc` is the qubit encoding of the fusion tree: the pairs that
    /// stand for a qubit, each once, in canonical order.
    pub open spec fn is_qubit_encoding(self, enc: Seq<FusionPair>) -> bool {
        &&& strictly_ascending(enc)
        &&& forall|pair: FusionPair| #[trigger]
            enc.contains(pair) <==> encodes_qubit(
                initial_charges(self.state.anyons),
                self.state.fusion_ops,
                pair,
            )
    }

    /// The qubit encoding of the fusion tree.
    pub open spec fn qubit_encoding(self) -> Seq<FusionPair> {
        choose|enc: Seq<FusionPair>| self.is_qubit_encoding(enc)
    }
}

/// Two lists in canonical order that hold the same pairs are the same list.
pub proof fn lemma_ascending_unique(s: Seq<FusionPair>, t: Seq<FusionPair>)
    requires
        strictly_ascending(s),
        strictly_ascending(t),
        forall|pair: FusionPair| s.contains(pair) <==> t.contains(pair),
    ensures
        s == t,
    decreases s.len(),
{
    if s.len() == 0 {
        if t.len() > 0 {
            assert(t.contains(t[0]));
        }
        assert(s =~= t);
    } else {
        assert(s.contains(s[0]));
        assert(t.contains(s[0]));
        let k = choose|k: int| 0 <= k < t.len() && t[k] == s[0];
        assert(t.contains(t[0]));
        assert(s.contains(t[0]));
        let m = choose|m: int| 0 <= m < s.len() && s[m] == t[0];
        assert(k == 0) by {
            if k > 0 {
                assert(t[0].precedes(t[k]));
                if m > 0 {
                    assert(s[0].precedes(s[m]));
                }
            }
        }
        let s1 = s.drop_first();
        let t1 = t.drop_first();
        assert forall|pair: FusionPair| s1.contains(pair) <==> t1.contains(pair) by {
            if s1.contains(pair) {
                let i = choose|i: int| 0 <= i < s1.len() && s1[i] == pair;
                assert(s[i + 1] == pair);
                assert(s[0].precedes(s[i + 1]));
                assert(s.contains(pair));
                let j = choose|j: int| 0 <= j < t.len() && t[j] == pair;
                assert(j > 0);
                assert(t1[j - 1] == pair);
            }
            if t1.contains(pair) {
                let i = choose|i: int| 0 <= i < t1.len() && t1[i] == pair;
                assert(t[i + 1] == pair);
                assert(t[0].precedes(t[i + 1]));
                assert(t.contains(pair));
                let j = choose|j: int| 0 <= j < s.len() && s[j] == pair;
                assert(j > 0);
                assert(s1[j - 1] == pair);
            }
        }
        assert(strictly_ascending(s1)) by {
            assert forall|i: int, j: int| 0 <= i < j < s1.len() implies s1[i].precedes(s1[j]) by {
                assert(s[i + 1].precedes(s[j + 1]));
            }
        }
        assert(strictly_ascending(t1)) by {
            assert forall|i: int, j: int| 0 <= i < j < t1.len() implies t1[i].precedes(t1[j]) by {
                assert(t[i + 1].precedes(t[j + 1]));
            }
        }
        lemma_ascending_unique(s1, t1);
        assert(s =~= seq![s[0]] + s1);
        assert(t =~= seq![t[0]] + t1);
    }
}

/// The fusion engine of one state: a snapshot of the state and its fusion
/// events.
pub struct Fusion {
    state: State,
    events: Vec<FusionEvent>,
}

impl View for Fusion {
    type V = FusionView;

    closed spec fn view(&self) -> FusionView {
        FusionView {
            state: self.state@,
            events: self.events@.map_values(|event: FusionEvent| event@),
        }
    }
}

/// `x * y`, or `u64::MAX` where the product is larger.
fn saturating_product(x: u64, y: u64) -> (product: u64)
    ensures
        product == cap((x * y) as nat),
{
    match x.checked_mul(y) {
        Some(product) => product,
        None => u64::MAX,
    }
}

/// Whether `a` comes before `b` in the canonical order of pairs.
fn comes_before(a: FusionPair, b: FusionPair) -> (before: bool)
    ensures
        before == a.precedes(b),
{
    a.anyon_1 < b.anyon_1 || (a.anyon_1 == b.anyon_1 && a.anyon_2 < b.anyon_2)
}

/// A fused pair with the charge that its fusion produced.
type Recorded = (FusionPair, CanonicalTC);

/// Whether the recorded pairs stand in canonical order, none of them twice.
spec fn keys_ascending(recorded: Seq<Recorded>) -> bool {
    forall|i: int, j: int| 0 <= i < j < recorded.len() ==> recorded[i].0.precedes(recorded[j].0)
}

/// Whether `entry` holds what the last fusion of its pair among the first
/// `upto` entries of the schedule produced.
spec fn records_last_fusion(
    init: Seq<Multiplicities>,
    ops: Seq<FusionNode>,
    upto: int,
    entry: Recorded,
) -> bool {
    exists|i: int| #[trigger]
        is_last_fusion_of(ops, upto, i, entry.0) && holds_fused(init, ops, i, entry.1)
}

/// Whether `tc` holds the charge that entry `i` of the schedule produces, cut
/// off at what a `u64` holds.
#[verifier::opaque]
spec fn holds_fused(init: Seq<Multiplicities>, ops: Seq<FusionNode>, i: int, tc: CanonicalTC) -> bool {
    tc_view(tc) == fused_charge(init, ops, i).capped()
}

/// Whether every entry holds what the last fusion of its pair produced.
spec fn all_recorded(
    init: Seq<Multiplicities>,
    ops: Seq<FusionNode>,
    upto: int,
    recorded: Seq<Recorded>,
) -> bool {
    forall|j: int|
        0 <= j < recorded.len() ==> records_last_fusion(init, ops, upto, #[trigger] recorded[j])
}

/// Whether something is recorded for `pair`.
spec fn has_key(recorded: Seq<Recorded>, pair: FusionPair) -> bool {
    exists|j: int| 0 <= j < recorded.len() && (#[trigger] recorded[j]).0 == pair
}

/// Whether something is recorded for each of the first `upto` fusions.
spec fn all_covered(ops: Seq<FusionNode>, upto: int, recorded: Seq<Recorded>) -> bool {
    forall|i: int| 0 <= i < upto ==> has_key(recorded, (#[trigger] ops[i]).1)
}

/// Whether `pair` is recorded with a charge that holds no Sigma.
spec fn recorded_sigma_free(recorded: Seq<Recorded>, pair: FusionPair) -> bool {
    exists|r: int|
        0 <= r < recorded.len() && (#[trigger] recorded[r]).0 == pair && recorded[r].1[2] == 0
}

/// One more entry of the schedule changes the charge at the first index of
/// its pair, and nothing else.
proof fn lemma_charges_step(init: Seq<Multiplicities>, ops: Seq<FusionNode>, k: int)
    requires
        0 <= k < ops.len(),
    ensures
        charges_after(init, ops.take(k + 1)) == charges_after(init, ops.take(k)).update(
            ops[k].1.anyon_1 as int,
            fused_charge(init, ops, k),
        ),
{
    let next = ops.take(k + 1);
    assert(next.drop_last() =~= ops.take(k));
    assert(next.last() == ops[k]);
}

/// What is recorded stays right when entry `k` of the schedule is recorded.
proof fn lemma_record_step(
    init: Seq<Multiplicities>,
    ops: Seq<FusionNode>,
    k: int,
    before: Seq<Recorded>,
    after: Seq<Recorded>,
    pair: FusionPair,
    tc: CanonicalTC,
)
    requires
        0 <= k < ops.len(),
        ops[k].1 == pair,
        holds_fused(init, ops, k, tc),
        keys_ascending(after),
        after.contains((pair, tc)),
        forall|j: int|
            0 <= j < after.len() ==> (#[trigger] after[j]) == (pair, tc) || before.contains(
                after[j],
            ),
        forall|j: int|
            0 <= j < before.len() && (#[trigger] before[j]).0 != pair ==> after.contains(
                before[j],
            ),
        all_recorded(init, ops, k, before),
        all_covered(ops, k, before),
    ensures
        all_recorded(init, ops, k + 1, after),
        all_covered(ops, k + 1, after),
{
    let at = choose|at: int| 0 <= at < after.len() && after[at] == (pair, tc);
    assert forall|j: int| 0 <= j < after.len() implies records_last_fusion(
        init,
        ops,
        k + 1,
        #[trigger] after[j],
    ) by {
        let entry = after[j];
        if entry == (pair, tc) {
            assert(is_last_fusion_of(ops, k + 1, k, entry.0));
            assert(holds_fused(init, ops, k, entry.1));
        } else {
            // one pair is recorded once
            assert(entry.0 != pair) by {
                if at < j {
                    assert(after[at].0.precedes(after[j].0));
                } else if j < at {
                    assert(after[j].0.precedes(after[at].0));
                }
            }
            assert(before.contains(entry));
            let was = choose|was: int| 0 <= was < before.len() && before[was] == entry;
            assert(records_last_fusion(init, ops, k, before[was]));
            let i = choose|i: int| #[trigger]
                is_last_fusion_of(ops, k, i, entry.0) && holds_fused(init, ops, i, entry.1);
            assert(is_last_fusion_of(ops, k + 1, i, entry.0));
            assert(holds_fused(init, ops, i, entry.1));
        }
    }
    assert forall|i: int| 0 <= i < k + 1 implies has_key(after, (#[trigger] ops[i]).1) by {
        if ops[i].1 == pair {
            assert(after[at].0 == ops[i].1);
        } else {
            assert(has_key(before, ops[i].1));
            let was = choose|was: int|
                0 <= was < before.len() && (#[trigger] before[was]).0 == ops[i].1;
            assert(after.contains(before[was]));
            let now = choose|now: int| 0 <= now < after.len() && after[now] == before[was];
            assert(after[now].0 == ops[i].1);
        }
    }
}

/// Something is recorded exactly when something was fused.
proof fn lemma_covered_nonempty(ops: Seq<FusionNode>, recorded: Seq<Recorded>)
    requires
        all_covered(ops, ops.len() as int, recorded),
        exists|init: Seq<Multiplicities>| all_recorded(init, ops, ops.len() as int, recorded),
    ensures
        recorded.len() > 0 <==> ops.len() > 0,
{
    if ops.len() > 0 {
        assert(has_key(recorded, ops[0].1));
    }
    if recorded.len() > 0 {
        let init = choose|init: Seq<Multiplicities>|
            all_recorded(init, ops, ops.len() as int, recorded);
        assert(records_last_fusion(init, ops, ops.len() as int, recorded[0]));
    }
}

/// The recorded pairs whose charge holds no Sigma are the qubit encoding.
proof fn lemma_selected_is_encoding(
    init: Seq<Multiplicities>,
    ops: Seq<FusionNode>,
    recorded: Seq<Recorded>,
    enc: Seq<FusionPair>,
)
    requires
        keys_ascending(recorded),
        all_recorded(init, ops, ops.len() as int, recorded),
        all_covered(ops, ops.len() as int, recorded),
        forall|pair: FusionPair| #[trigger] enc.contains(pair) <==> recorded_sigma_free(recorded, pair),
    ensures
        forall|pair: FusionPair| #[trigger] enc.contains(pair) <==> encodes_qubit(init, ops, pair),
{
    let upto = ops.len() as int;
    assert forall|pair: FusionPair| #[trigger] enc.contains(pair) <==> encodes_qubit(
        init,
        ops,
        pair,
    ) by {
        if enc.contains(pair) {
            assert(recorded_sigma_free(recorded, pair));
            let r = choose|r: int|
                0 <= r < recorded.len() && (#[trigger] recorded[r]).0 == pair && recorded[r].1[2]
                    == 0;
            assert(records_last_fusion(init, ops, upto, recorded[r]));
            let i = choose|i: int| #[trigger]
                is_last_fusion_of(ops, upto, i, pair) && holds_fused(init, ops, i, recorded[r].1);
            assert(fused_charge(init, ops, i).sigma == 0) by {
                reveal(holds_fused);
            }
        }
        if encodes_qubit(init, ops, pair) {
            let i = choose|i: int| #[trigger]
                is_last_fusion_of(ops, upto, i, pair) && fused_charge(init, ops, i).sigma == 0;
            assert(has_key(recorded, ops[i].1));
            let r = choose|r: int| 0 <= r < recorded.len() && (#[trigger] recorded[r]).0 == pair;
            assert(records_last_fusion(init, ops, upto, recorded[r]));
            let i2 = choose|i2: int| #[trigger]
                is_last_fusion_of(ops, upto, i2, pair) && holds_fused(init, ops, i2, recorded[r].1);
            assert(i2 == i) by {
                if i2 < i {
                    assert(ops[i].1 != pair);
                } else if i < i2 {
                    assert(ops[i2].1 != pair);
                }
            }
            assert(recorded[r].1[2] == 0) by {
                reveal(holds_fused);
            }
            assert(recorded_sigma_free(recorded, pair));
        }
    }
}

/// The recorded pairs whose charge holds no Sigma, in the order in which
/// they are recorded.
fn sigma_free(recorded: &Vec<Recorded>) -> (selected: Vec<FusionPair>)
    requires
        keys_ascending(recorded@),
    ensures
        strictly_ascending(selected@),
        forall|pair: FusionPair| #[trigger]
            selected@.contains(pair) <==> recorded_sigma_free(recorded@, pair),
{
    let mut selected: Vec<FusionPair> = Vec::new();
    let mut j: usize = 0;
    while j < recorded.len()
        invariant
            j <= recorded.len(),
            keys_ascending(recorded@),
            strictly_ascending(selected@),
            forall|pair: FusionPair| #[trigger]
                selected@.contains(pair) <==> recorded_sigma_free(recorded@.take(j as int), pair),
        decreases recorded.len() - j,
    {
        let (pair, tc) = recorded[j];
        let ghost before = selected@;
        let ghost seen = recorded@.take(j as int);
        let ghost next = recorded@.take(j + 1);
        if tc[2] == 0 {
            selected.push(pair);
        }
        proof {
            let after = selected@;
            assert forall|x: int, y: int| 0 <= x < y < after.len() implies after[x].precedes(
                after[y],
            ) by {
                if y < before.len() {
                    assert(before[x].precedes(before[y]));
                } else {
                    assert(before.contains(before[x]));
                    assert(recorded_sigma_free(seen, before[x]));
                    let r = choose|r: int|
                        0 <= r < seen.len() && (#[trigger] seen[r]).0 == before[x] && seen[r].1[2]
                            == 0;
                    assert(recorded@[r].0.precedes(recorded@[j as int].0));
                }
            }
            assert forall|q: FusionPair| #[trigger] after.contains(q) <==> recorded_sigma_free(
                next,
                q,
            ) by {
                if after.contains(q) {
                    let e = choose|e: int| 0 <= e < after.len() && after[e] == q;
                    if e < before.len() {
                        assert(before.contains(q));
                        assert(recorded_sigma_free(seen, q));
                        let r = choose|r: int|
                            0 <= r < seen.len() && (#[trigger] seen[r]).0 == q && seen[r].1[2]
                                == 0;
                        assert(next[r].0 == q && next[r].1[2] == 0);
                    } else {
                        assert(next[j as int].0 == q && next[j as int].1[2] == 0);
                    }
                }
                if recorded_sigma_free(next, q) {
                    let r = choose|r: int|
                        0 <= r < next.len() && (#[trigger] next[r]).0 == q && next[r].1[2] == 0;
                    if r < j {
                        assert(seen[r].0 == q && seen[r].1[2] == 0);
                        assert(recorded_sigma_free(seen, q));
                        assert(before.contains(q));
                        let e = choose|e: int| 0 <= e < before.len() && before[e] == q;
                        assert(after[e] == q);
                    } else {
                        assert(after[before.len() as int] == q);
                    }
                }
            }
        }
        j += 1;
    }
    proof {
        assert(recorded@.take(recorded@.len() as int) =~= recorded@);
    }
    selected
}

/// Records the charge that a fusion of `pair` produced, in place of what was
/// recorded for the pair before, keeping the canonical order.
fn record(recorded: &mut Vec<Recorded>, pair: FusionPair, tc: CanonicalTC)
    requires
        keys_ascending(old(recorded)@),
    ensures
        keys_ascending(final(recorded)@),
        final(recorded)@.contains((pair, tc)),
        forall|j: int|
            0 <= j < final(recorded)@.len() ==> (#[trigger] final(recorded)@[j]) == (pair, tc)
                || old(recorded)@.contains(final(recorded)@[j]),
        forall|j: int|
            0 <= j < old(recorded)@.len() && (#[trigger] old(recorded)@[j]).0 != pair
                ==> final(recorded)@.contains(old(recorded)@[j]),
{
    let mut at: usize = 0;
    while at < recorded.len() && comes_before(recorded[at].0, pair)
        invariant
            at <= recorded.len(),
            *recorded == *old(recorded),
            forall|j: int| 0 <= j < at ==> (#[trigger] recorded@[j]).0.precedes(pair),
        decreases recorded.len() - at,
    {
        at += 1;
    }
    if at < recorded.len() && recorded[at].0 == pair {
        recorded[at] = (pair, tc);
        proof {
            let before = old(recorded)@;
            let after = recorded@;
            assert(after[at as int] == (pair, tc));
            assert forall|j: int| 0 <= j < after.len() implies (#[trigger] after[j]) == (pair, tc)
                || before.contains(after[j]) by {
                if j != at {
                    assert(after[j] == before[j]);
                }
            }
            assert forall|j: int| 0 <= j < before.len() && (#[trigger] before[j]).0
                != pair implies after.contains(before[j]) by {
                assert(after[j] == before[j]);
            }
            assert forall|i: int, j: int| 0 <= i < j < after.len() implies after[i].0.precedes(
                after[j].0,
            ) by {
                assert(before[i].0.precedes(before[j].0));
            }
        }
    } else {
        recorded.insert(at, (pair, tc));
        proof {
            let before = old(recorded)@;
            let after = recorded@;
            assert(after[at as int] == (pair, tc));
            assert forall|j: int| 0 <= j < after.len() implies (#[trigger] after[j]) == (pair, tc)
                || before.contains(after[j]) by {
                if j < at {
                    assert(after[j] == before[j]);
                } else if j > at {
                    assert(after[j] == before[j - 1]);
                }
            }
            assert forall|j: int| 0 <= j < before.len() && (#[trigger] before[j]).0
                != pair implies after.contains(before[j]) by {
                if j < at {
                    assert(after[j] == before[j]);
                } else {
                    assert(after[j + 1] == before[j]);
                }
            }
            assert forall|i: int, j: int| 0 <= i < j < after.len() implies after[i].0.precedes(
                after[j].0,
            ) by {
                let bi = if i < at { i } else { i - 1 };
                let bj = if j < at { j } else { j - 1 };
                if i != at && j != at {
                    assert(before[bi].0.precedes(before[bj].0));
                } else if i == at {
                    // what follows the new entry neither precedes nor equals it
                    assert(after[j] == before[j - 1]);
                    if at < before.len() {
                        assert(!before[at as int].0.precedes(pair));
                        assert(before[at as int].0 != pair);
                        if j - 1 > at {
                            assert(before[at as int].0.precedes(before[j - 1].0));
                        }
                    }
                } else {
                    assert(before[i].0.precedes(pair));
                }
            }
        }
    }
}

/// Whether a pair of the event joins across a place of its line.
fn is_joined(event: &Vec<FusionPair>, place: usize) -> (joined: bool)
    ensures
        joined == joined_at(event@, place as int),
{
    if place == 0 {
        return false;
    }
    let mut k: usize = 0;
    while k < event.len()
        invariant
            k <= event.len(),
            place > 0,
            forall|j: int|
                0 <= j < k ==> !(2 * (#[trigger] event@[j]).anyon_1 + 1 <= place < 2
                    * event@[j].anyon_2),
        decreases event.len() - k,
    {
        let pair = &event[k];
        if pair.anyon_1 <= (place - 1) / 2 && place / 2 < pair.anyon_2 {
            return true;
        }
        k += 1;
    }
    false
}

/// Appends a line with a bar at the place of every anyon that is marked,
/// without a line break.
fn append_bars(
    text: &mut String,
    active: &Vec<bool>,
    events: Ghost<Seq<Seq<FusionPair>>>,
    upto: Ghost<int>,
)
    requires
        2 * active@.len() <= usize::MAX,
        forall|a: int| 0 <= a < active@.len() ==> active@[a] == !fused_away(events@, upto@, a),
    ensures
        final(text)@ == old(text)@ + tree_bars(events@, upto@, active@.len() as int),
{
    let width = 2 * active.len();
    let ghost wanted = tree_bars(events@, upto@, active@.len() as int);
    let mut place: usize = 0;
    while place < width
        invariant
            place <= width,
            width == 2 * active@.len(),
            wanted == tree_bars(events@, upto@, active@.len() as int),
            forall|a: int| 0 <= a < active@.len() ==> active@[a] == !fused_away(events@, upto@, a),
            text@ == old(text)@ + wanted.take(place as int),
        decreases width - place,
    {
        let cell = if place % 2 == 0 && active[place / 2] {
            '|'
        } else {
            ' '
        };
        append_glyph(text, cell);
        proof {
            assert(wanted.take(place + 1) =~= wanted.take(place as int).push(wanted[place as int]));
            assert(text@ =~= old(text)@ + wanted.take(place + 1));
        }
        place += 1;
    }
    proof {
        assert(wanted.take(width as int) =~= wanted);
    }
}

impl Fusion {
    /// The invariant of an engine.
    pub open spec fn wf(&self) -> bool {
        self@.wf()
    }

    /// Builds the engine of a state: takes the state over and cuts its
    /// schedule into events.
    pub fn new(state: State) -> (fusion: Fusion)
        requires
            state.wf(),
        ensures
            fusion.wf(),
            fusion@.state == state@,
    {
        let operations = state.fusion_ops();
        let mut events: Vec<FusionEvent> = Vec::new();
        let mut prev_time: u32 = 0;
        let mut i: usize = 0;
        while i < operations.len()
            invariant
                i <= operations.len(),
                events@.map_values(|event: FusionEvent| event@) == events_of(
                    operations@.take(i as int),
                ),
                i > 0 ==> prev_time == operations@[i - 1].0,
                i > 0 ==> events@.len() > 0,
            decreases operations.len() - i,
        {
            let (time, op) = operations[i];
            proof {
                let done = operations@.take(i as int);
                let next = operations@.take(i + 1);
                assert(next.drop_last() =~= done);
                assert(next.last() == operations@[i as int]);
                if i > 0 {
                    assert(next[next.len() - 2] == operations@[i - 1]);
                }
            }
            if i > 0 && prev_time == time {
                let last = events.len() - 1;
                let ghost before = events@.map_values(|event: FusionEvent| event@);
                let mut event = events.pop().unwrap();
                event.push(op);
                events.push(event);
                proof {
                    assert(events@.map_values(|event: FusionEvent| event@) =~= before.drop_last().push(
                        before.last().push(op),
                    ));
                }
            } else {
                let ghost before = events@.map_values(|event: FusionEvent| event@);
                let mut event: FusionEvent = Vec::new();
                event.push(op);
                events.push(event);
                prev_time = time;
                proof {
                    assert(event@ =~= seq![op]);
                    assert(events@.map_values(|event: FusionEvent| event@) =~= before.push(
                        seq![op],
                    ));
                }
            }
            i += 1;
        }
        proof {
            assert(operations@.take(operations@.len() as int) =~= operations@);
        }
        Fusion { state, events }
    }

    /// The fusion events, in the order of the schedule.
    pub fn events(&self) -> (events: Vec<FusionEvent>)
        ensures
            events@.map_values(|event: FusionEvent| event@) == self@.events,
    {
        let mut events: Vec<FusionEvent> = Vec::new();
        let mut e: usize = 0;
        while e < self.events.len()
            invariant
                e <= self.events.len(),
                events@.len() == e,
                forall|k: int| 0 <= k < e ==> (#[trigger] events@[k])@ == self.events@[k]@,
            decreases self.events.len() - e,
        {
            let event = self.events[e].clone();
            assert(event@ =~= self.events@[e as int]@);
            events.push(event);
            e += 1;
        }
        proof {
            assert(events@.map_values(|event: FusionEvent| event@) =~= self@.events);
        }
        events
    }

    /// The canonical charge vector of a charge: 1 at the place of the charge,
    /// 0 elsewhere.
    pub fn canonical_tc(&self, charge: TopoCharge) -> (tc: CanonicalTC)
        ensures
            tc_view(tc) == Multiplicities::unit(charge),
    {
        match charge {
            TopoCharge::Psi => [1, 0, 0],
            TopoCharge::Vacuum => [0, 1, 0],
            TopoCharge::Sigma => [0, 0, 1],
        }
    }

    /// Fuses two charge vectors by the Ising rules. A multiplicity that no
    /// `u64` holds comes out as `u64::MAX`.
    pub fn apply_fusion(&self, anyon_1: CanonicalTC, anyon_2: CanonicalTC) -> (fused: CanonicalTC)
        ensures
            tc_view(fused) == fuse(tc_view(anyon_1), tc_view(anyon_2)).capped(),
    {
        proof {
            lemma_fuse_components(tc_view(anyon_1), tc_view(anyon_2));
        }
        let psi_psi = saturating_product(anyon_1[0], anyon_2[0]);
        let psi_vacuum = saturating_product(anyon_1[0], anyon_2[1]);
        let psi_sigma = saturating_product(anyon_1[0], anyon_2[2]);
        let vacuum_psi = saturating_product(anyon_1[1], anyon_2[0]);
        let vacuum_vacuum = saturating_product(anyon_1[1], anyon_2[1]);
        let vacuum_sigma = saturating_product(anyon_1[1], anyon_2[2]);
        let sigma_psi = saturating_product(anyon_1[2], anyon_2[0]);
        let sigma_vacuum = saturating_product(anyon_1[2], anyon_2[1]);
        let sigma_sigma = saturating_product(anyon_1[2], anyon_2[2]);
        let psi = psi_vacuum.saturating_add(vacuum_psi).saturating_add(sigma_sigma);
        let vacuum = psi_psi.saturating_add(vacuum_vacuum).saturating_add(sigma_sigma);
        let sigma = psi_sigma.saturating_add(vacuum_sigma).saturating_add(
            sigma_psi,
        ).saturating_add(sigma_vacuum);
        [psi, vacuum, sigma]
    }

    /// The canonical charge vector of every anyon, in the order of the
    /// anyons.
    fn initial_tcs(&self) -> (tcs: Vec<CanonicalTC>)
        ensures
            tcs@.len() == self@.state.anyons.len(),
            forall|k: int|
                0 <= k < tcs@.len() ==> tc_view(#[trigger] tcs@[k]) == initial_charges(
                    self@.state.anyons,
                )[k],
    {
        let anyons = self.state.anyons();
        let mut tcs: Vec<CanonicalTC> = Vec::new();
        let mut a: usize = 0;
        while a < anyons.len()
            invariant
                a <= anyons@.len(),
                anyons@.map_values(|a: Anyon| a@) == self@.state.anyons,
                tcs@.len() == a,
                forall|k: int|
                    0 <= k < a ==> tc_view(#[trigger] tcs@[k]) == initial_charges(
                        self@.state.anyons,
                    )[k],
            decreases anyons.len() - a,
        {
            let tc = self.canonical_tc(anyons[a].charge());
            proof {
                assert(anyons@.map_values(|a: Anyon| a@)[a as int] == anyons@[a as int]@);
            }
            tcs.push(tc);
            a += 1;
        }
        tcs
    }

    /// Walks the schedule and records, for every pair that it fuses, the
    /// charge that the last fusion of the pair produced. Also hands back the
    /// charge that the last fusion of all produced.
    fn propagate(&self) -> (walked: (Vec<Recorded>, CanonicalTC))
        requires
            self.wf(),
        ensures
            keys_ascending(walked.0@),
            all_recorded(
                initial_charges(self@.state.anyons),
                self@.state.fusion_ops,
                self@.state.fusion_ops.len() as int,
                walked.0@,
            ),
            all_covered(self@.state.fusion_ops, self@.state.fusion_ops.len() as int, walked.0@),
            self@.state.fusion_ops.len() > 0 ==> tc_view(walked.1) == fused_charge(
                initial_charges(self@.state.anyons),
                self@.state.fusion_ops,
                self@.state.fusion_ops.len() - 1,
            ).capped(),
    {
        let ops = self.state.fusion_ops();
        let ghost init = initial_charges(self@.state.anyons);
        let mut tcs = self.initial_tcs();
        let count = tcs.len();
        let mut recorded: Vec<Recorded> = Vec::new();
        let mut final_tc: CanonicalTC = [0, 0, 0];
        let mut k: usize = 0;
        proof {
            assert(ops@.take(0) =~= Seq::<FusionNode>::empty());
            assert(charges_after(init, ops@.take(0)) == init);
            assert forall|x: int| 0 <= x < count implies tc_view(#[trigger] tcs@[x])
                == init[x].capped() by {
                assert(tc_view(tcs@[x]) == init[x]);
            }
        }
        while k < ops.len()
            invariant
                k <= ops.len(),
                init.len() == count,
                valid_schedule(ops@, count as nat),
                tcs@.len() == count,
                charges_after(init, ops@.take(k as int)).len() == count,
                forall|x: int|
                    0 <= x < count ==> tc_view(#[trigger] tcs@[x]) == charges_after(
                        init,
                        ops@.take(k as int),
                    )[x].capped(),
                keys_ascending(recorded@),
                all_recorded(init, ops@, k as int, recorded@),
                all_covered(ops@, k as int, recorded@),
                k > 0 ==> holds_fused(init, ops@, k - 1, final_tc),
            decreases ops.len() - k,
        {
            let pair = ops[k].1;
            let ghost before = charges_after(init, ops@.take(k as int));
            let ghost old_recorded = recorded@;
            proof {
                assert(may_follow(ops@.take(k as int), count as nat, ops@[k as int]));
            }
            let tc = self.apply_fusion(tcs[pair.anyon_1], tcs[pair.anyon_2]);
            proof {
                lemma_fuse_capped(before[pair.anyon_1 as int], before[pair.anyon_2 as int]);
                assert(holds_fused(init, ops@, k as int, tc)) by {
                    reveal(holds_fused);
                }
            }
            record(&mut recorded, pair, tc);
            tcs[pair.anyon_1] = tc;
            final_tc = tc;
            proof {
                lemma_charges_step(init, ops@, k as int);
                lemma_record_step(init, ops@, k as int, old_recorded, recorded@, pair, tc);
            }
            k += 1;
        }
        proof {
            assert(ops@.take(ops@.len() as int) =~= ops@);
            if ops@.len() > 0 {
                assert(tc_view(final_tc) == fused_charge(init, ops@, ops@.len() - 1).capped()) by {
                    reveal(holds_fused);
                }
            }
        }
        (recorded, final_tc)
    }

    /// Derives the qubit encoding of the fusion tree.
    ///
    /// The schedule is walked in order with one charge per anyon index; each
    /// fusion writes its result at the index of its first anyon. A pair
    /// belongs to the encoding when the charge produced by its last fusion
    /// holds no Sigma. The walk is refused when the charge produced by the
    /// last fusion of all holds Sigma. A state without fusions has the empty
    /// encoding.
    pub fn qubit_enc(&self) -> (outcome: Result<FusionEvent, Error>)
        requires
            self.wf(),
        ensures
            self@.terminal_charge_has_sigma() ==> outcome matches Err(Error::FusionError(_)),
            !self@.terminal_charge_has_sigma() ==> outcome is Ok && outcome->Ok_0@
                == self@.qubit_encoding() && self@.is_qubit_encoding(outcome->Ok_0@),
    {
        let (recorded, final_tc) = self.propagate();
        if recorded.len() > 0 && final_tc[2] != 0 {
            proof {
                lemma_covered_nonempty(self@.state.fusion_ops, recorded@);
            }
            return Err(
                Error::FusionError(
                    String::from_str("Final topological charge is not a valid qubit encoding"),
                ),
            );
        }
        let encoding_fusions = sigma_free(&recorded);
        proof {
            lemma_covered_nonempty(self@.state.fusion_ops, recorded@);
            lemma_selected_is_encoding(
                initial_charges(self@.state.anyons),
                self@.state.fusion_ops,
                recorded@,
                encoding_fusions@,
            );
            assert(self@.is_qubit_encoding(encoding_fusions@));
            lemma_ascending_unique(encoding_fusions@, self@.qubit_encoding());
        }
        Ok(encoding_fusions)
    }

    /// Draws the fusion tree.
    ///
    /// The first line names the anyons and the second has a bar under each.
    /// Then comes one line per event: a bar for every anyon that is still
    /// there, and dashes from the first to the second anyon of every pair of
    /// the event. The last line has a bar under every anyon that is left.
    pub fn to_string(&self) -> (text: String)
        requires
            self.wf(),
            2 * self@.state.anyons.len() <= usize::MAX,
        ensures
            text@ == tree_text(self@.state.anyons, self@.events),
    {
        let anyons = self.state.anyons();
        let count = anyons.len();
        let ghost names = self@.state.anyons;
        let ghost events = self@.events;
        let mut text = String::new();
        let mut active_anyons: Vec<bool> = Vec::new();
        let mut a: usize = 0;
        while a < count
            invariant
                a <= count,
                count == anyons@.len(),
                anyons@.map_values(|a: Anyon| a@) == names,
                text@ == tree_names(names, a as int),
                active_anyons@.len() == a,
                forall|i: int| 0 <= i < a ==> active_anyons@[i],
            decreases count - a,
        {
            proof {
                assert(anyons@.map_values(|a: Anyon| a@)[a as int] == anyons@[a as int]@);
            }
            text.append(anyons[a].name());
            append_glyph(&mut text, ' ');
            active_anyons.push(true);
            proof {
                assert(text@ =~= tree_names(names, a as int) + names[a as int].name + seq![' ']);
            }
            a += 1;
        }
        append_glyph(&mut text, '\n');
        append_bars(&mut text, &active_anyons, Ghost(events), Ghost(0));
        append_glyph(&mut text, '\n');
        let ghost head = tree_names(names, count as int) + seq!['\n'] + tree_bars(
            events,
            0,
            count as int,
        ) + seq!['\n'];
        assert(text@ =~= head + tree_body(events, count as int, 0));
        let width = 2 * count;
        let mut e: usize = 0;
        while e < self.events.len()
            invariant
                e <= self.events.len(),
                events == self@.events,
                width == 2 * count,
                active_anyons@.len() == count,
                forall|i: int|
                    0 <= i < count ==> active_anyons@[i] == !fused_away(events, e as int, i),
                text@ == head + tree_body(events, count as int, e as int),
            decreases self.events.len() - e,
        {
            let level = &self.events[e];
            proof {
                assert(events[e as int] == level@);
            }
            let ghost line = tree_line(events, e as int, count as int);
            let ghost before = text@;
            let mut place: usize = 0;
            while place < width
                invariant
                    place <= width,
                    e < self.events.len(),
                    events == self@.events,
                    events[e as int] == level@,
                    width == 2 * count,
                    active_anyons@.len() == count,
                    forall|i: int|
                        0 <= i < count ==> active_anyons@[i] == !fused_away(events, e as int, i),
                    line == tree_line(events, e as int, count as int),
                    text@ == before + line.take(place as int),
                decreases width - place,
            {
                let cell = if is_joined(level, place) {
                    '─'
                } else if place % 2 == 0 && active_anyons[place / 2] {
                    '|'
                } else {
                    ' '
                };
                append_glyph(&mut text, cell);
                proof {
                    assert(line[place as int] == tree_cell(events, e as int, place as int));
                    assert(line.take(place + 1) =~= line.take(place as int).push(
                        line[place as int],
                    ));
                    assert(text@ =~= before + line.take(place + 1));
                }
                place += 1;
            }
            append_glyph(&mut text, '\n');
            proof {
                assert(line.take(width as int).push('\n') =~= line);
                assert(text@ =~= before + line);
                assert(text@ =~= head + tree_body(events, count as int, e + 1)) by {
                    assert(tree_body(events, count as int, e + 1) == tree_body(
                        events,
                        count as int,
                        e as int,
                    ) + line);
                }
            }
            let mut k: usize = 0;
            while k < level.len()
                invariant
                    k <= level.len(),
                    e < self.events.len(),
                    events == self@.events,
                    events[e as int] == level@,
                    active_anyons@.len() == count,
                    forall|i: int|
                        0 <= i < count ==> active_anyons@[i] == !(fused_away(events, e as int, i)
                            || exists|j: int|
                            0 <= j < k && (#[trigger] level@[j]).anyon_2 == i),
                decreases level.len() - k,
            {
                let gone = level[k].anyon_2();
                if gone < count {
                    active_anyons[gone] = false;
                }
                proof {
                    assert forall|i: int| 0 <= i < count implies active_anyons@[i] == !(fused_away(
                        events,
                        e as int,
                        i,
                    ) || exists|j: int| 0 <= j < k + 1 && (#[trigger] level@[j]).anyon_2 == i) by {
                        if i == gone {
                            assert(level@[k as int].anyon_2 == i);
                        }
                    }
                }
                k += 1;
            }
            proof {
                assert forall|i: int| 0 <= i < count implies active_anyons@[i] == !fused_away(
                    events,
                    e + 1,
                    i,
                ) by {
                    if fused_away(events, e + 1, i) {
                        let (e0, k0) = choose|e0: int, k0: int|
                            0 <= e0 < e + 1 && e0 < events.len() && 0 <= k0 < events[e0].len() && (
                            #[trigger] events[e0][k0]).anyon_2 == i;
                        if e0 < e {
                            assert(fused_away(events, e as int, i));
                        } else {
                            assert(level@[k0].anyon_2 == i);
                        }
                    }
                    if fused_away(events, e as int, i) {
                        let (e0, k0) = choose|e0: int, k0: int|
                            0 <= e0 < e && e0 < events.len() && 0 <= k0 < events[e0].len() && (
                            #[trigger] events[e0][k0]).anyon_2 == i;
                        assert(events[e0][k0].anyon_2 == i);
                    }
                    if exists|j: int| 0 <= j < level@.len() && (#[trigger] level@[j]).anyon_2 == i {
                        let j = choose|j: int|
                            0 <= j < level@.len() && (#[trigger] level@[j]).anyon_2 == i;
                        assert(events[e as int][j].anyon_2 == i);
                    }
                }
            }
            e += 1;
        }
        append_bars(&mut text, &active_anyons, Ghost(events), Ghost(self.events.len() as int));
        proof {
            assert(text@ =~= tree_text(names, events));
        }
        text
    }

    /// Whether the charge of the whole system, all anyons fused, still holds
    /// the charge `init_charge`.
    pub fn verify_fusion_result(&self, init_charge: TopoCharge) -> (possible: bool)
        requires
            self.wf(),
        ensures
            possible == (total_charge(initial_charges(self@.state.anyons)).of(init_charge) > 0),
    {
        let anyons = self.state.anyons();
        let ghost charges = initial_charges(self@.state.anyons);
        let mut overall: CanonicalTC = self.canonical_tc(TopoCharge::Vacuum);
        let mut i: usize = 0;
        while i < anyons.len()
            invariant
                i <= anyons.len(),
                anyons@.map_values(|a: Anyon| a@) == self@.state.anyons,
                charges == initial_charges(self@.state.anyons),
                tc_view(overall) == total_charge(charges.take(i as int)).capped(),
            decreases anyons.len() - i,
        {
            let tc = self.canonical_tc(anyons[i].charge());
            proof {
                let done = charges.take(i as int);
                let next = charges.take(i + 1);
                assert(next.drop_last() =~= done);
                assert(anyons@.map_values(|a: Anyon| a@)[i as int] == anyons@[i as int]@);
                assert(next.last() == Multiplicities::unit(anyons@[i as int]@.charge));
                lemma_fuse_capped(total_charge(done), next.last());
            }
            overall = self.apply_fusion(overall, tc);
            i += 1;
        }
        proof {
            assert(charges.take(anyons.len() as int) =~= charges);
        }
        overall[init_charge.value()] > 0
    }

    /// The two numbers of Sigma anyons that encode exactly `qubits` qubits.
    pub fn possible_sigmas(&self, qubits: u32) -> (counts: Vec<u32>)
        requires
            2 * qubits + 2 <= u32::MAX,
        ensures
            counts@ == seq![(2 * qubits + 1) as u32, (2 * qubits + 2) as u32],
    {
        let mut counts: Vec<u32> = Vec::new();
        counts.push(2 * qubits + 1);
        counts.push(2 * qubits + 2);
        assert(counts@ =~= seq![(2 * qubits + 1) as u32, (2 * qubits + 2) as u32]);
        counts
    }
}

} // verus!
