//! The passive tone stack as a network: which element joins which nodes, how
//! that fills the nodal admittance matrix, which row is the pivot, and when a
//! new solution is needed.
//!
//! Both channels use the Fender/Marshall passive stack:
//!
//! | Node  | Junction                                          |
//! |-------|---------------------------------------------------|
//! | `IN`  | driving stage's plate (known voltage)              |
//! | `A`   | treble cap / treble pot top                        |
//! | `B`   | slope resistor / bass cap / mid cap                |
//! | `C`   | treble pot bottom / bass cap / bass rheostat top   |
//! | `D`   | bass rheostat bottom / mid pot top                 |
//! | `E`   | mid pot wiper / mid cap                            |
//! | `OUT` | treble pot wiper, loaded by the following stage    |

use vstd::prelude::*;

use crate::dsp::filters::ONE;
use crate::ieee;

verus! {

/// Number of unknown nodes: A, B, C, D, E, OUT.
pub const NODES: usize = 6;

/// Treble cap / treble pot top.
pub const NODE_A: usize = 0;

/// Slope resistor / bass cap / mid cap.
pub const NODE_B: usize = 1;

/// Treble pot bottom / bass cap / bass rheostat top.
pub const NODE_C: usize = 2;

/// Bass rheostat bottom / mid pot top.
pub const NODE_D: usize = 3;

/// Mid pot wiper / mid cap.
pub const NODE_E: usize = 4;

/// Treble pot wiper.
pub const NODE_OUT: usize = 5;

/// Number of capacitors, hence of companion current sources.
pub const CAPS: usize = 3;

/// Columns behind the admittance matrix: the input voltage and one per
/// capacitor.
pub const INPUTS: usize = 1 + CAPS;

/// Elements in the network.
pub const ELEMENTS: usize = 10;

/// Where an element ends.
#[derive(Debug, Clone, Copy, PartialEq, Eq, Structural)]
pub enum Terminal {
    /// The driving stage.
    Input,
    /// Ground.
    Ground,
    /// One of the unknown nodes.
    Node(usize),
}

/// One element of the network.
#[derive(Debug, Clone, Copy, PartialEq, Eq, Structural)]
pub struct Branch {
    /// Where it begins.
    pub from: Terminal,
    /// Where it ends.
    pub to: Terminal,
    /// Which capacitor it is, if it is one.
    pub capacitor: Option<usize>,
}

/// One addition to the augmented matrix.
#[derive(Debug, Clone, Copy, PartialEq, Eq, Structural)]
pub struct Stamp {
    /// Row, a node.
    pub row: usize,
    /// Column: a node, the input, or a capacitor's source.
    pub column: usize,
    /// The element whose conductance is added, or `None` for the unit current
    /// of a companion source.
    pub element: Option<usize>,
    /// Whether the value is subtracted instead.
    pub negative: bool,
}

/// The elements in the order they are stamped: upper and lower half of the
/// treble pot, bass rheostat, upper and lower half of the mid pot, load, slope
/// resistor, treble cap, bass cap, mid cap.
pub open spec fn branch(element: int) -> Branch {
    if element == 0 {
        Branch { from: Terminal::Node(NODE_A), to: Terminal::Node(NODE_OUT), capacitor: None }
    } else if element == 1 {
        Branch { from: Terminal::Node(NODE_OUT), to: Terminal::Node(NODE_C), capacitor: None }
    } else if element == 2 {
        Branch { from: Terminal::Node(NODE_C), to: Terminal::Node(NODE_D), capacitor: None }
    } else if element == 3 {
        Branch { from: Terminal::Node(NODE_D), to: Terminal::Node(NODE_E), capacitor: None }
    } else if element == 4 {
        Branch { from: Terminal::Node(NODE_E), to: Terminal::Ground, capacitor: None }
    } else if element == 5 {
        Branch { from: Terminal::Node(NODE_OUT), to: Terminal::Ground, capacitor: None }
    } else if element == 6 {
        Branch { from: Terminal::Input, to: Terminal::Node(NODE_B), capacitor: None }
    } else if element == 7 {
        Branch { from: Terminal::Input, to: Terminal::Node(NODE_A), capacitor: Some(0) }
    } else if element == 8 {
        Branch { from: Terminal::Node(NODE_B), to: Terminal::Node(NODE_C), capacitor: Some(1) }
    } else {
        Branch { from: Terminal::Node(NODE_B), to: Terminal::Node(NODE_E), capacitor: Some(2) }
    }
}

/// A capacitor's companion source: current enters where it begins and leaves
/// where it ends.
pub open spec fn source_stamps(branch: Branch) -> Seq<Stamp> {
    match branch.capacitor {
        None => seq![],
        Some(k) => {
            let column = (NODES + 1 + k) as usize;
            (match branch.from {
                Terminal::Node(p) => seq![
                    Stamp { row: p, column, element: None, negative: false },
                ],
                _ => seq![],
            }) + (match branch.to {
                Terminal::Node(n) => seq![Stamp { row: n, column, element: None, negative: true }],
                _ => seq![],
            })
        },
    }
}

/// What an element adds to the admittance matrix: its conductance on the
/// diagonal of each node it touches, against the other node off the diagonal,
/// and in the input column where it hangs from the input.
pub open spec fn conductance_stamps(branch: Branch, element: usize) -> Seq<Stamp> {
    let at = |row: usize, column: usize, negative: bool|
        Stamp { row, column, element: Some(element), negative };
    match (branch.from, branch.to) {
        (Terminal::Node(p), Terminal::Node(n)) => seq![
            at(p, p, false),
            at(n, n, false),
            at(p, n, true),
            at(n, p, true),
        ],
        (Terminal::Node(p), Terminal::Ground) => seq![at(p, p, false)],
        (Terminal::Input, Terminal::Node(n)) => seq![at(n, n, false), at(n, NODES, false)],
        _ => seq![],
    }
}

/// Everything the first `count` elements add, in order.
pub open spec fn network(count: nat) -> Seq<Stamp>
    decreases count,
{
    if count == 0 {
        seq![]
    } else {
        let element = count - 1;
        network(element as nat) + conductance_stamps(branch(element), element as usize)
            + source_stamps(branch(element))
    }
}

/// Looks up one element.
pub fn branch_of(element: usize) -> (found: Branch)
    requires
        element < ELEMENTS,
    ensures
        found == branch(element as int),
{
    if element == 0 {
        Branch { from: Terminal::Node(NODE_A), to: Terminal::Node(NODE_OUT), capacitor: None }
    } else if element == 1 {
        Branch { from: Terminal::Node(NODE_OUT), to: Terminal::Node(NODE_C), capacitor: None }
    } else if element == 2 {
        Branch { from: Terminal::Node(NODE_C), to: Terminal::Node(NODE_D), capacitor: None }
    } else if element == 3 {
        Branch { from: Terminal::Node(NODE_D), to: Terminal::Node(NODE_E), capacitor: None }
    } else if element == 4 {
        Branch { from: Terminal::Node(NODE_E), to: Terminal::Ground, capacitor: None }
    } else if element == 5 {
        Branch { from: Terminal::Node(NODE_OUT), to: Terminal::Ground, capacitor: None }
    } else if element == 6 {
        Branch { from: Terminal::Input, to: Terminal::Node(NODE_B), capacitor: None }
    } else if element == 7 {
        Branch { from: Terminal::Input, to: Terminal::Node(NODE_A), capacitor: Some(0) }
    } else if element == 8 {
        Branch { from: Terminal::Node(NODE_B), to: Terminal::Node(NODE_C), capacitor: Some(1) }
    } else {
        Branch { from: Terminal::Node(NODE_B), to: Terminal::Node(NODE_E), capacitor: Some(2) }
    }
}

/// Everything the network adds to the augmented matrix, in order.
pub fn stamps() -> (all: Vec<Stamp>)
    ensures
        all@ == network(ELEMENTS as nat),
        all@ == network(10),
{
    let mut all: Vec<Stamp> = Vec::new();
    let mut element: usize = 0;
    while element < ELEMENTS
        invariant
            element <= ELEMENTS,
            all@ == network(element as nat),
        decreases ELEMENTS - element,
    {
        let branch: Branch = branch_of(element);
        let ghost before = all@;
        match (branch.from, branch.to) {
            (Terminal::Node(p), Terminal::Node(n)) => {
                all.push(Stamp { row: p, column: p, element: Some(element), negative: false });
                all.push(Stamp { row: n, column: n, element: Some(element), negative: false });
                all.push(Stamp { row: p, column: n, element: Some(element), negative: true });
                all.push(Stamp { row: n, column: p, element: Some(element), negative: true });
            },
            (Terminal::Node(p), Terminal::Ground) => {
                all.push(Stamp { row: p, column: p, element: Some(element), negative: false });
            },
            (Terminal::Input, Terminal::Node(n)) => {
                all.push(Stamp { row: n, column: n, element: Some(element), negative: false });
                all.push(Stamp { row: n, column: NODES, element: Some(element), negative: false });
            },
            _ => {},
        }
        assert(all@ =~= before + conductance_stamps(branch, element));
        let ghost middle = all@;
        if let Some(k) = branch.capacitor {
            let column: usize = NODES + 1 + k;
            if let Terminal::Node(p) = branch.from {
                all.push(Stamp { row: p, column, element: None, negative: false });
            }
            if let Terminal::Node(n) = branch.to {
                all.push(Stamp { row: n, column, element: None, negative: true });
            }
        }
        assert(all@ =~= middle + source_stamps(branch));
        element = element + 1;
    }
    all
}

// ---------------------------------------------------------------------------
// Pivoting
// ---------------------------------------------------------------------------

/// A pivot smaller than this (`1e-18`) is degenerate.
pub const PIVOT_FLOOR: u64 = 0x3C32_725D_D1D2_43AC;

/// Whether `row` is the first row, from `column` on, with the largest of the
/// magnitudes that are numbers.
pub open spec fn is_pivot(sizes: Seq<u64>, column: int, row: int) -> bool {
    &&& column <= row < sizes.len()
    &&& sizes[row] <= ieee::WIDE_INFINITY
    &&& forall|r: int|
        column <= r < sizes.len() && #[trigger] sizes[r] <= ieee::WIDE_INFINITY ==> sizes[r]
            <= sizes[row]
    &&& forall|r: int|
        column <= r < row && #[trigger] sizes[r] <= ieee::WIDE_INFINITY ==> sizes[r] < sizes[row]
}

/// Picks the pivot row for `column` from the magnitudes of that column, as
/// double-precision patterns.
///
/// Returns `None` where the pivot would be degenerate. A magnitude that is no
/// number is never larger than another; on the diagonal it stands.
pub fn select_pivot(sizes: &[u64], column: usize) -> (pivot: Option<usize>)
    requires
        column < sizes@.len(),
    ensures
        sizes@[column as int] > ieee::WIDE_INFINITY ==> pivot == Some(column),
        pivot matches Some(row) ==> column <= row < sizes@.len(),
        sizes@[column as int] <= 0x7FF0_0000_0000_0000 ==> match pivot {
            Some(row) => sizes@[row as int] >= 0x3C32_725D_D1D2_43AC && forall|r: int|
                column <= r < sizes@.len() && #[trigger] sizes@[r] <= 0x7FF0_0000_0000_0000
                    ==> sizes@[r] <= sizes@[row as int],
            None => forall|r: int|
                column <= r < sizes@.len() && #[trigger] sizes@[r] <= 0x7FF0_0000_0000_0000
                    ==> sizes@[r] < 0x3C32_725D_D1D2_43AC,
        },
        sizes@[column as int] <= ieee::WIDE_INFINITY ==> match pivot {
            Some(row) => is_pivot(sizes@, column as int, row as int)
                && ieee::wide_magnitude_units(sizes@[row as int] as int)
                >= ieee::wide_magnitude_units(PIVOT_FLOOR as int),
            None => exists|row: int|
                #[trigger] is_pivot(sizes@, column as int, row) && ieee::wide_magnitude_units(
                    sizes@[row] as int,
                ) < ieee::wide_magnitude_units(PIVOT_FLOOR as int),
        },
{
    if sizes[column] > ieee::WIDE_INFINITY {
        return Some(column);
    }
    let mut row: usize = column;
    let mut candidate: usize = column + 1;
    while candidate < sizes.len()
        invariant
            column <= row < candidate <= sizes@.len(),
            sizes@[row as int] <= ieee::WIDE_INFINITY,
            forall|r: int|
                column <= r < candidate && #[trigger] sizes@[r] <= ieee::WIDE_INFINITY
                    ==> sizes@[r] <= sizes@[row as int],
            forall|r: int|
                column <= r < row && #[trigger] sizes@[r] <= ieee::WIDE_INFINITY ==> sizes@[r]
                    < sizes@[row as int],
        decreases sizes@.len() - candidate,
    {
        if sizes[candidate] <= ieee::WIDE_INFINITY && sizes[candidate] > sizes[row] {
            row = candidate;
        }
        candidate = candidate + 1;
    }
    assert(is_pivot(sizes@, column as int, row as int));
    proof {
        let size = sizes@[row as int];
        if size < PIVOT_FLOOR {
            ieee::lemma_wide_units_increase(size as int, PIVOT_FLOOR as int);
        }
        if PIVOT_FLOOR < size {
            ieee::lemma_wide_units_increase(PIVOT_FLOOR as int, size as int);
        }
    }
    if sizes[row] < PIVOT_FLOOR {
        None
    } else {
        Some(row)
    }
}

// ---------------------------------------------------------------------------
// When to solve
// ---------------------------------------------------------------------------

/// Pot rotations, single-precision patterns in `0.0..=1.0`.
#[derive(Debug, Clone, Copy, PartialEq, Eq, Structural)]
pub struct Rotations {
    /// Treble pot.
    pub treble: u32,
    /// Bass rheostat.
    pub bass: u32,
    /// Mid pot.
    pub mid: u32,
}

/// What a request for new rotations calls for.
#[derive(Debug, Clone, Copy, PartialEq, Eq, Structural)]
pub enum Request {
    /// The stack is not prepared: nothing can be solved.
    Refuse,
    /// The current solution is for these rotations already.
    Keep,
    /// The network has to be solved for these rotations.
    Solve(Rotations),
}

/// The rotations the current solution of a stack is for.
#[derive(Debug, Clone, Copy, PartialEq, Eq)]
pub struct ToneStack {
    solved: Option<Rotations>,
    prepared: bool,
}

/// Rotations held to the travel of the pots.
pub open spec fn in_travel(treble: u32, bass: u32, mid: u32) -> Rotations {
    Rotations {
        treble: ieee::clamped(treble, 0, ONE),
        bass: ieee::clamped(bass, 0, ONE),
        mid: ieee::clamped(mid, 0, ONE),
    }
}

/// Whether two rotations are the same numbers.
pub open spec fn same_rotations(a: Rotations, b: Rotations) -> bool {
    &&& ieee::equal(a.treble, b.treble)
    &&& ieee::equal(a.bass, b.bass)
    &&& ieee::equal(a.mid, b.mid)
}

/// What new rotations call for on a prepared stack with this solution.
pub open spec fn request_for(solution: Option<Rotations>, wanted: Rotations) -> Request {
    match solution {
        Some(current) if same_rotations(
            in_travel(wanted.treble, wanted.bass, wanted.mid),
            current,
        ) => Request::Keep,
        _ => Request::Solve(in_travel(wanted.treble, wanted.bass, wanted.mid)),
    }
}

impl ToneStack {
    /// The rotations the current solution is for.
    pub closed spec fn solution(&self) -> Option<Rotations> {
        self.solved
    }

    /// Whether the stack is prepared.
    pub closed spec fn ready(&self) -> bool {
        self.prepared
    }

    /// An unprepared stack.
    pub fn new() -> (stack: Self)
        ensures
            !stack.ready(),
            stack.solution() is None,
    {
        ToneStack { solved: None, prepared: false }
    }

    /// Marks the stack as prepared, with no solution yet.
    pub fn prepare(&mut self)
        ensures
            final(self).ready(),
            final(self).solution() is None,
    {
        self.prepared = true;
        self.solved = None;
    }

    /// Decides what new pot rotations call for.
    pub fn set_controls(&self, treble: u32, bass: u32, mid: u32) -> (request: Request)
        ensures
            request == (if !self.ready() {
                Request::Refuse
            } else {
                request_for(self.solution(), Rotations { treble, bass, mid })
            }),
            self.ready() && request == Request::Keep <==> (self.ready() && self.solution() is Some
                && ieee::equal(ieee::clamped(treble, 0, ONE), self.solution()->0.treble)
                && ieee::equal(ieee::clamped(bass, 0, ONE), self.solution()->0.bass)
                && ieee::equal(ieee::clamped(mid, 0, ONE), self.solution()->0.mid)),
            request matches Request::Solve(wanted) ==> wanted.treble == ieee::clamped(
                treble,
                0,
                ONE,
            ) && wanted.bass == ieee::clamped(bass, 0, ONE) && wanted.mid == ieee::clamped(
                mid,
                0,
                ONE,
            ),
    {
        if !self.prepared {
            return Request::Refuse;
        }
        let wanted: Rotations = Rotations {
            treble: ieee::clamp(treble, 0, ONE),
            bass: ieee::clamp(bass, 0, ONE),
            mid: ieee::clamp(mid, 0, ONE),
        };
        if let Some(current) = self.solved {
            if ieee::is_equal(wanted.treble, current.treble) && ieee::is_equal(
                wanted.bass,
                current.bass,
            ) && ieee::is_equal(wanted.mid, current.mid) {
                return Request::Keep;
            }
        }
        Request::Solve(wanted)
    }

    /// Notes how solving for `rotations` went: a singular network leaves the
    /// previous solution in place.
    pub fn note_solution(&mut self, rotations: Rotations, solvable: bool) -> (accepted: bool)
        ensures
            accepted == solvable,
            final(self).ready() == old(self).ready(),
            final(self).solution() == if solvable {
                Some(rotations)
            } else {
                old(self).solution()
            },
    {
        if solvable {
            self.solved = Some(rotations);
        }
        solvable
    }
}

// ---------------------------------------------------------------------------
// What the network guarantees
// ---------------------------------------------------------------------------

/// Value of one stamp under the conductances `g`.
pub open spec fn stamp_value(stamp: Stamp, g: spec_fn(int) -> int) -> int {
    let size = match stamp.element {
        Some(element) => g(element as int),
        None => 1,
    };
    if stamp.negative {
        -size
    } else {
        size
    }
}

/// Entry of the augmented matrix that `stamps` fill.
pub open spec fn entry(stamps: Seq<Stamp>, g: spec_fn(int) -> int, row: int, column: int) -> int
    decreases stamps.len(),
{
    if stamps.len() == 0 {
        0
    } else {
        entry(stamps.drop_last(), g, row, column) + (if stamps.last().row == row
            && stamps.last().column == column {
            stamp_value(stamps.last(), g)
        } else {
            0
        })
    }
}

/// Entries add up over concatenation.
proof fn lemma_entry_add(
    a: Seq<Stamp>,
    b: Seq<Stamp>,
    g: spec_fn(int) -> int,
    row: int,
    column: int,
)
    ensures
        entry(a + b, g, row, column) == entry(a, g, row, column) + entry(b, g, row, column),
    decreases b.len(),
{
    if b.len() == 0 {
        assert(a + b =~= a);
    } else {
        assert((a + b).drop_last() =~= a + b.drop_last());
        lemma_entry_add(a, b.drop_last(), g, row, column);
    }
}

/// What one element adds to an entry.
pub open spec fn share(element: int, g: spec_fn(int) -> int, row: int, column: int) -> int {
    let branch = branch(element);
    let touches_row = branch.from == Terminal::Node(row as usize) || branch.to == Terminal::Node(
        row as usize,
    );
    if column < NODES {
        if !touches_row {
            0
        } else if row == column {
            g(element)
        } else if branch.from == Terminal::Node(column as usize) || branch.to == Terminal::Node(
            column as usize,
        ) {
            -g(element)
        } else {
            0
        }
    } else if column == NODES {
        if touches_row && branch.from == Terminal::Input {
            g(element)
        } else {
            0
        }
    } else if branch.capacitor == Some((column - NODES - 1) as usize) {
        if branch.from == Terminal::Node(row as usize) {
            1
        } else if branch.to == Terminal::Node(row as usize) {
            -1
        } else {
            0
        }
    } else {
        0
    }
}

/// The stamps of an element add up to its share.
proof fn lemma_share(element: int, g: spec_fn(int) -> int, row: int, column: int)
    requires
        0 <= element < ELEMENTS,
        0 <= row < NODES,
        0 <= column < NODES + INPUTS,
    ensures
        entry(conductance_stamps(branch(element), element as usize), g, row, column) + entry(
            source_stamps(branch(element)),
            g,
            row,
            column,
        ) == share(element, g, row, column),
{
    reveal_with_fuel(entry, 5);
}

/// What the first `count` elements add to an entry.
pub open spec fn shares(count: nat, g: spec_fn(int) -> int, row: int, column: int) -> int
    decreases count,
{
    if count == 0 {
        0
    } else {
        shares((count - 1) as nat, g, row, column) + share(count - 1, g, row, column)
    }
}

/// The matrix is the sum of what its elements add.
proof fn lemma_shares(count: nat, g: spec_fn(int) -> int, row: int, column: int)
    requires
        count <= ELEMENTS,
        0 <= row < NODES,
        0 <= column < NODES + INPUTS,
    ensures
        entry(network(count), g, row, column) == shares(count, g, row, column),
    decreases count,
{
    if count > 0 {
        let element = count - 1;
        let conductances = conductance_stamps(branch(element), element as usize);
        let sources = source_stamps(branch(element));
        lemma_shares(element as nat, g, row, column);
        lemma_share(element, g, row, column);
        lemma_entry_add(network(element as nat), conductances, g, row, column);
        lemma_entry_add(network(element as nat) + conductances, sources, g, row, column);
    }
}

/// Current that leaves a node per volt on it, to ground.
pub open spec fn to_ground(g: spec_fn(int) -> int, row: int) -> int {
    if row == NODE_E {
        g(4)
    } else if row == NODE_OUT {
        g(5)
    } else {
        0
    }
}

/// The admittance matrix is symmetric: what one node takes from another it
/// gives back.
pub proof fn law_the_network_is_reciprocal(g: spec_fn(int) -> int, row: int, column: int)
    requires
        0 <= row < NODES,
        0 <= column < NODES,
    ensures
        entry(network(ELEMENTS as nat), g, row, column) == entry(
            network(ELEMENTS as nat),
            g,
            column,
            row,
        ),
{
    lemma_shares(ELEMENTS as nat, g, row, column);
    lemma_shares(ELEMENTS as nat, g, column, row);
    reveal_with_fuel(shares, 11);
}

/// Kirchhoff's current law: with every node and the input at the same voltage,
/// the only current that leaves a node is the one to ground.
#[verifier::spinoff_prover]
#[verifier::rlimit(60)]
pub proof fn law_currents_balance(g: spec_fn(int) -> int, row: int)
    requires
        0 <= row < NODES,
    ensures
        ({
            let matrix = network(ELEMENTS as nat);
            entry(matrix, g, row, 0) + entry(matrix, g, row, 1) + entry(matrix, g, row, 2) + entry(
                matrix,
                g,
                row,
                3,
            ) + entry(matrix, g, row, 4) + entry(matrix, g, row, 5) == entry(matrix, g, row, 6)
                + to_ground(g, row)
        }),
{
    lemma_shares(ELEMENTS as nat, g, row, 0);
    lemma_shares(ELEMENTS as nat, g, row, 1);
    lemma_shares(ELEMENTS as nat, g, row, 2);
    lemma_shares(ELEMENTS as nat, g, row, 3);
    lemma_shares(ELEMENTS as nat, g, row, 4);
    lemma_shares(ELEMENTS as nat, g, row, 5);
    lemma_shares(ELEMENTS as nat, g, row, 6);
    reveal_with_fuel(shares, 11);
}

/// Off the diagonal no entry is positive, on it every entry is.
pub proof fn law_only_the_diagonal_is_positive(g: spec_fn(int) -> int, row: int, column: int)
    requires
        0 <= row < NODES,
        0 <= column < NODES,
        forall|element: int| 0 <= element < ELEMENTS ==> #[trigger] g(element) > 0,
    ensures
        row == column ==> entry(network(ELEMENTS as nat), g, row, column) > 0,
        row != column ==> entry(network(ELEMENTS as nat), g, row, column) <= 0,
{
    lemma_shares(ELEMENTS as nat, g, row, column);
    reveal_with_fuel(shares, 11);
    assert(g(0) > 0 && g(1) > 0 && g(2) > 0 && g(3) > 0 && g(4) > 0);
    assert(g(5) > 0 && g(6) > 0 && g(7) > 0 && g(8) > 0 && g(9) > 0);
}

/// Rotations that were solved for need no new solution.
pub proof fn law_solved_rotations_are_kept(treble: u32, bass: u32, mid: u32)
    requires
        !ieee::not_a_number(treble),
        !ieee::not_a_number(bass),
        !ieee::not_a_number(mid),
    ensures
        same_rotations(in_travel(treble, bass, mid), in_travel(treble, bass, mid)),
{
}

/// A pot that was turned calls for a new solution: a prepared stack keeps its
/// solution exactly if treble, bass and mid are each the number it is solved
/// for, and solves for what is wanted otherwise.
pub proof fn law_a_turned_pot_is_solved_for(current: Rotations, wanted: Rotations)
    requires
        !ieee::not_a_number(current.treble),
        !ieee::not_a_number(current.bass),
        !ieee::not_a_number(current.mid),
        !ieee::not_a_number(wanted.treble),
        !ieee::not_a_number(wanted.bass),
        !ieee::not_a_number(wanted.mid),
        0 <= ieee::units(wanted.treble) <= ieee::units(0x3F80_0000),
        0 <= ieee::units(wanted.bass) <= ieee::units(0x3F80_0000),
        0 <= ieee::units(wanted.mid) <= ieee::units(0x3F80_0000),
    ensures
        ieee::units(wanted.treble) == ieee::units(current.treble) && ieee::units(wanted.bass)
            == ieee::units(current.bass) && ieee::units(wanted.mid) == ieee::units(current.mid)
            ==> request_for(Some(current), wanted) == Request::Keep,
        ieee::units(wanted.treble) != ieee::units(current.treble) || ieee::units(wanted.bass)
            != ieee::units(current.bass) || ieee::units(wanted.mid) != ieee::units(current.mid)
            ==> request_for(Some(current), wanted) == Request::Solve(wanted),
        request_for(None, wanted) == Request::Solve(wanted),
{
    assert(ieee::units(0) == 0);
}

/// A pot cannot be turned beyond its ends: rotations out of travel are solved
/// for as the end they lie beyond.
pub proof fn law_pots_have_ends(solution: Option<Rotations>, wanted: Rotations)
    requires
        !ieee::not_a_number(wanted.treble),
        !ieee::not_a_number(wanted.bass),
        !ieee::not_a_number(wanted.mid),
    ensures
        request_for(solution, wanted) matches Request::Solve(solved) ==> {
            &&& 0 <= ieee::units(solved.treble) <= ieee::units(0x3F80_0000)
            &&& 0 <= ieee::units(solved.bass) <= ieee::units(0x3F80_0000)
            &&& 0 <= ieee::units(solved.mid) <= ieee::units(0x3F80_0000)
            &&& ieee::units(wanted.treble) > ieee::units(0x3F80_0000) ==> solved.treble
                == 0x3F80_0000
            &&& ieee::units(wanted.bass) > ieee::units(0x3F80_0000) ==> solved.bass == 0x3F80_0000
            &&& ieee::units(wanted.mid) > ieee::units(0x3F80_0000) ==> solved.mid == 0x3F80_0000
            &&& ieee::units(wanted.treble) < 0 ==> solved.treble == 0
            &&& ieee::units(wanted.bass) < 0 ==> solved.bass == 0
            &&& ieee::units(wanted.mid) < 0 ==> solved.mid == 0
        },
{
    ieee::lemma_units_increase(0, 0x3F80_0000);
    assert(ieee::units(0) == 0);
    assert(ieee::magnitude(0x3F80_0000) == 0x3F80_0000);
}

/// The whole network: with the elements numbered upper and lower treble pot,
/// bass rheostat, upper and lower mid pot, load, slope resistor, treble cap,
/// bass cap and mid cap, every entry of the augmented matrix.
#[verifier::spinoff_prover]
#[verifier::rlimit(60)]
pub proof fn law_the_whole_network(g: spec_fn(int) -> int, row: int, column: int)
    requires
        0 <= row < 6,
        0 <= column < 10,
    ensures
        entry(network(10), g, row, column) == if row == 0 {
            if column == 0 {
                g(0) + g(7)
            } else if column == 5 {
                -g(0)
            } else if column == 6 {
                g(7)
            } else if column == 7 {
                -1
            } else {
                0
            }
        } else if row == 1 {
            if column == 1 {
                g(6) + g(8) + g(9)
            } else if column == 2 {
                -g(8)
            } else if column == 4 {
                -g(9)
            } else if column == 6 {
                g(6)
            } else if column == 8 || column == 9 {
                1
            } else {
                0
            }
        } else if row == 2 {
            if column == 1 {
                -g(8)
            } else if column == 2 {
                g(1) + g(2) + g(8)
            } else if column == 3 {
                -g(2)
            } else if column == 5 {
                -g(1)
            } else if column == 8 {
                -1
            } else {
                0
            }
        } else if row == 3 {
            if column == 2 {
                -g(2)
            } else if column == 3 {
                g(2) + g(3)
            } else if column == 4 {
                -g(3)
            } else {
                0
            }
        } else if row == 4 {
            if column == 1 {
                -g(9)
            } else if column == 3 {
                -g(3)
            } else if column == 4 {
                g(3) + g(4) + g(9)
            } else if column == 9 {
                -1
            } else {
                0
            }
        } else {
            if column == 0 {
                -g(0)
            } else if column == 2 {
                -g(1)
            } else if column == 5 {
                g(0) + g(1) + g(5)
            } else {
                0
            }
        },
{
    lemma_shares(10, g, row, column);
    reveal_with_fuel(shares, 11);
}

/// The upper half of the mid pot loads both neighbours, the bass rheostat's
/// end and the mid cap's, so turning it moves their branches too.
pub proof fn law_the_mid_pot_loads_bass_and_mid(g: spec_fn(int) -> int)
    ensures
        entry(network(ELEMENTS as nat), g, NODE_D as int, NODE_D as int) == g(2) + g(3),
        entry(network(ELEMENTS as nat), g, NODE_E as int, NODE_E as int) == g(3) + g(4) + g(9),
{
    lemma_shares(ELEMENTS as nat, g, NODE_D as int, NODE_D as int);
    lemma_shares(ELEMENTS as nat, g, NODE_E as int, NODE_E as int);
    reveal_with_fuel(shares, 11);
}

} // verus!
