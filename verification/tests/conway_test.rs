use conway::{CellState, World};

fn simulate_and_check(input: &[u8], expected: &[u8], width: usize) {
    assert_eq!(input.len(), expected.len());

    let height = input.len() / width;
    let mut input = World::from(&input, width, height);

    input.update(); // Simulate one step

    let expected = World::from(&expected, width, height);

    assert_eq!(input, expected);
}

#[test]
fn empty_world() {
    simulate_and_check(&[0, 0, 0], &[0, 0, 0], 3);
}

// Any live cell with fewer than two live neighbours dies
#[test]
fn rule_1() {
    simulate_and_check(
        &[
            0, 0, 0, 0, //
            0, 0, 1, 0, //
            0, 0, 0, 0, //
            0, 0, 0, 0,
        ],
        &[
            0, 0, 0, 0, //
            0, 0, 0, 0, //
            0, 0, 0, 0, //
            0, 0, 0, 0,
        ],
        4,
    );
}

#[test]
fn rule_1_2_cells() {
    simulate_and_check(
        &[
            0, 0, 0, 0, //
            0, 0, 1, 1, //
            0, 0, 0, 0, //
            0, 0, 0, 0,
        ],
        &[
            0, 0, 0, 0, //
            0, 0, 0, 0, //
            0, 0, 0, 0, //
            0, 0, 0, 0,
        ],
        4,
    );
}

// Any live cell with two or three live neighbours lives on
#[test]
fn rule_2() {
    simulate_and_check(
        &[
            0, 0, 0, 1, //
            0, 0, 1, 0, //
            0, 1, 0, 0, //
            0, 0, 0, 0,
        ],
        &[
            0, 0, 0, 0, //
            0, 0, 1, 0, //
            0, 0, 0, 0, //
            0, 0, 0, 0,
        ],
        4,
    );
}

#[test]
fn rule_2_stable() {
    simulate_and_check(
        &[
            0, 0, 0, 0, //
            0, 1, 1, 0, //
            0, 1, 1, 0, //
            0, 0, 0, 0,
        ],
        &[
            0, 0, 0, 0, //
            0, 1, 1, 0, //
            0, 1, 1, 0, //
            0, 0, 0, 0,
        ],
        4,
    );
}

// Any live cell with more than three live neighbours dies
#[test]
fn rule_3() {
    simulate_and_check(
        &[
            0, 0, 1, 0, //
            0, 1, 1, 1, //
            0, 0, 1, 0, //
            0, 0, 0, 0,
        ],
        &[
            0, 1, 1, 1, //
            0, 1, 0, 1, //
            0, 1, 1, 1, //
            0, 0, 0, 0,
        ],
        4,
    );
}

// Any dead cell with exactly three live neighbours becomes a live cell
#[test]
fn rule_4() {
    simulate_and_check(
        &[
            0, 0, 1, 0, //
            0, 1, 0, 1, //
            0, 0, 0, 0, //
            0, 0, 0, 0,
        ],
        &[
            0, 0, 1, 0, //
            0, 0, 1, 0, //
            0, 0, 0, 0, //
            0, 0, 0, 0,
        ],
        4,
    );
}

#[test]
fn shape() {
    simulate_and_check(
        &[
            0, 0, 1, 0, 0, //
            0, 1, 1, 0, 0, //
            0, 0, 1, 1, 0, //
            0, 0, 0, 0, 0, //
            0, 0, 0, 0, 0,
        ],
        &[
            0, 1, 1, 0, 0, //
            0, 1, 0, 0, 0, //
            0, 1, 1, 1, 0, //
            0, 0, 0, 0, 0, //
            0, 0, 0, 0, 0,
        ],
        5,
    );
}

#[test]
fn compare_cell_states() {
    for i in 0..255 {
        for j in 0..255 {
            assert_ne!(CellState::Alive, CellState::Dead(i));
            assert_eq!(CellState::Dead(i), CellState::Dead(j));
        }
    }
}

#[test]
fn compare_worlds() {
    let cells = [0, 0, 0];

    let a = World::from(&cells, 3, 1);
    let b = World::from(&cells, 3, 1);

    assert_eq!(a, b);
}
