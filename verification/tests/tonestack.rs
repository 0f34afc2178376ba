use amberhead_or100::dsp::tonestack::{
    branch_of, select_pivot, stamps, Request, Rotations, Terminal, ToneStack, CAPS, ELEMENTS,
    INPUTS, NODES, NODE_A, NODE_B, NODE_C, NODE_D, NODE_E, NODE_OUT, PIVOT_FLOOR,
};
use amberhead_or100::dsp::triode::{neighbours, TABLE_SIZE};

fn rotations(treble: f32, bass: f32, mid: f32) -> Rotations {
    Rotations {
        treble: treble.to_bits(),
        bass: bass.to_bits(),
        mid: mid.to_bits(),
    }
}

fn request(stack: &ToneStack, treble: f32, bass: f32, mid: f32) -> Request {
    stack.set_controls(treble.to_bits(), bass.to_bits(), mid.to_bits())
}

fn sizes(column: &[f64]) -> Vec<u64> {
    column.iter().map(|value| value.abs().to_bits()).collect()
}

/// The augmented matrix under the given conductances.
fn matrix(conductances: &[f64; ELEMENTS]) -> [[f64; NODES + INPUTS]; NODES] {
    let mut matrix = [[0.0; NODES + INPUTS]; NODES];
    for stamp in stamps() {
        let size = stamp.element.map_or(1.0, |element| conductances[element]);
        matrix[stamp.row][stamp.column] += if stamp.negative { -size } else { size };
    }
    matrix
}

#[test]
fn unchanged_rotations_need_no_new_solution() {
    let mut stack = ToneStack::new();
    stack.prepare();
    assert_eq!(
        request(&stack, 0.5, 0.5, 0.5),
        Request::Solve(rotations(0.5, 0.5, 0.5))
    );
    assert!(stack.note_solution(rotations(0.5, 0.5, 0.5), true));
    assert_eq!(request(&stack, 0.5, 0.5, 0.5), Request::Keep);
    assert_eq!(
        request(&stack, 0.9, 0.5, 0.5),
        Request::Solve(rotations(0.9, 0.5, 0.5))
    );
}

#[test]
fn rotations_are_held_to_the_travel_of_the_pots() {
    let mut stack = ToneStack::new();
    assert_eq!(request(&stack, 0.5, 0.5, 0.5), Request::Refuse);
    stack.prepare();
    assert_eq!(
        request(&stack, -3.0, 7.0, 0.25),
        Request::Solve(rotations(0.0, 1.0, 0.25))
    );
    assert!(stack.note_solution(rotations(0.0, 1.0, 0.25), true));
    assert_eq!(request(&stack, -9.0, 1.5, 0.25), Request::Keep);
    // A negative zero is the same rotation.
    assert_eq!(request(&stack, -0.0, 1.0, 0.25), Request::Keep);
}

#[test]
fn a_singular_network_leaves_the_solution_in_place() {
    let mut stack = ToneStack::new();
    stack.prepare();
    assert!(stack.note_solution(rotations(0.1, 0.2, 0.3), true));
    assert!(!stack.note_solution(rotations(0.4, 0.5, 0.6), false));
    assert_eq!(request(&stack, 0.1, 0.2, 0.3), Request::Keep);
    stack.prepare();
    assert_eq!(
        request(&stack, 0.1, 0.2, 0.3),
        Request::Solve(rotations(0.1, 0.2, 0.3))
    );
}

#[test]
fn the_pivot_is_the_first_largest_row() {
    assert_eq!(select_pivot(&sizes(&[9.0, 1.0, -4.0, 4.0]), 1), Some(2));
    assert_eq!(select_pivot(&sizes(&[1.0, 1.0]), 0), Some(0));
    assert_eq!(select_pivot(&sizes(&[1.0, f64::INFINITY]), 0), Some(1));
    assert_eq!(select_pivot(&sizes(&[1.0, f64::NAN]), 0), Some(0));
    assert_eq!(select_pivot(&sizes(&[f64::NAN, 1.0]), 0), Some(0));
    // Too small to divide by.
    assert_eq!(f64::from_bits(PIVOT_FLOOR), 1.0e-18);
    assert_eq!(select_pivot(&sizes(&[1.0, 0.0, 1.0e-19]), 1), None);
    assert_eq!(select_pivot(&sizes(&[1.0, 0.0, 1.0e-18]), 1), Some(2));
}

#[test]
fn every_row_of_the_network_balances() {
    let conductances = [1.0, 2.0, 4.0, 8.0, 16.0, 32.0, 64.0, 128.0, 256.0, 512.0];
    let matrix = matrix(&conductances);
    for (row, entries) in matrix.iter().enumerate() {
        for (column, other) in matrix.iter().enumerate() {
            assert_eq!(entries[column], other[row], "not reciprocal");
            assert_eq!(entries[column] > 0.0, row == column);
        }
        // What a node sends to the others, the input and ground is what it has.
        let to_ground = if row == NODE_E {
            conductances[4]
        } else if row == NODE_OUT {
            conductances[5]
        } else {
            0.0
        };
        let sum: f64 = entries[..NODES].iter().sum();
        assert_eq!(sum, entries[NODES] + to_ground, "row {row}");
    }
}

#[test]
fn the_driven_nodes_see_the_input() {
    let conductances = [1.0, 2.0, 4.0, 8.0, 16.0, 32.0, 64.0, 128.0, 256.0, 512.0];
    let matrix = matrix(&conductances);
    assert_eq!(matrix[NODE_A][NODES], 128.0);
    assert_eq!(matrix[NODE_B][NODES], 64.0);
    assert_eq!(matrix[NODE_C][NODES], 0.0);
    // Companion sources enter where a capacitor begins and leave where it ends.
    assert_eq!(matrix[NODE_A][NODES + 1], -1.0);
    assert_eq!(matrix[NODE_B][NODES + 2], 1.0);
    assert_eq!(matrix[NODE_C][NODES + 2], -1.0);
    assert_eq!(matrix[NODE_B][NODES + 3], 1.0);
    assert_eq!(matrix[NODE_E][NODES + 3], -1.0);
}

#[test]
fn the_mid_pot_loads_bass_and_mid() {
    let conductances = [1.0, 2.0, 4.0, 8.0, 16.0, 32.0, 64.0, 128.0, 256.0, 512.0];
    let matrix = matrix(&conductances);
    assert_eq!(matrix[NODE_D][NODE_D], 4.0 + 8.0);
    assert_eq!(matrix[NODE_E][NODE_E], 8.0 + 16.0 + 512.0);
}

#[test]
fn three_elements_are_capacitors() {
    let capacitors: Vec<Option<usize>> = (0..ELEMENTS)
        .map(|element| branch_of(element).capacitor)
        .collect();
    assert_eq!(capacitors.iter().flatten().count(), CAPS);
    assert_eq!(capacitors[7..], [Some(0), Some(1), Some(2)]);
    assert_eq!(branch_of(7).from, Terminal::Input);
    assert_eq!(branch_of(4).to, Terminal::Ground);
}

#[test]
fn interpolation_stays_inside_the_table() {
    assert_eq!(neighbours(0), (0, 0, 1, 2));
    assert_eq!(neighbours(10), (9, 10, 11, 12));
    assert_eq!(
        neighbours(TABLE_SIZE - 2),
        (TABLE_SIZE - 3, TABLE_SIZE - 2, TABLE_SIZE - 1, TABLE_SIZE - 1)
    );
}
