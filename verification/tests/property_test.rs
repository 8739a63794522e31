use conway::{CellState, World};

// The grid is a torus: the corner cells of a 4x4 grid are all adjacent to
// each other across the wrapped edges. Three live corners are three live
// neighbours of (0, 0), so (0, 0) is born, and each live corner sees the
// other two and survives.
#[test]
fn toroidal_wraparound_corners() {
    let input = [
        0, 0, 0, 1, //
        0, 0, 0, 0, //
        0, 0, 0, 0, //
        1, 0, 0, 1,
    ];
    let expected = [
        1, 0, 0, 1, //
        0, 0, 0, 0, //
        0, 0, 0, 0, //
        1, 0, 0, 1,
    ];
    let mut world = World::from(&input, 4, 4);
    world.update();
    assert_eq!(world, World::from(&expected, 4, 4));
}

// A lone live cell in a single row still counts its horizontal neighbour
// through the wrapped vertical offsets, never a cell out of bounds.
#[test]
fn world_accessors() {
    let input = [
        1, 0, //
        0, 0, //
        0, 1,
    ];
    let world = World::from(&input, 2, 3);
    assert_eq!(world.width(), 2);
    assert_eq!(world.height(), 3);
    assert_eq!(*world.cell_at(0, 0), CellState::Alive);
    assert_eq!(*world.cell_at(1, 0), CellState::Dead(0));
    assert_eq!(*world.cell_at(1, 2), CellState::Alive);
}

// A live cell renders opaque white, a fully dark dead cell renders opaque
// black.
#[test]
fn render_alive_and_dead() {
    let input = [
        0, 0, 0, 0, //
        0, 0, 1, 0, //
        0, 0, 0, 0, //
        0, 0, 0, 0,
    ];
    let mut world = World::from(&input, 4, 4);
    let mut frame = vec![0u8; 64];
    world.render(&mut frame);
    assert_eq!(&frame[24..28], &[255, 255, 255, 255]);
    assert_eq!(&frame[0..4], &[0, 0, 0, 255]);
}

// A cell that dies starts its afterglow at level 254 and fades by exactly
// one level per generation; the level shows in the green and blue bytes.
#[test]
fn render_afterglow_levels() {
    let input = [
        0, 0, 0, 0, //
        0, 0, 1, 0, //
        0, 0, 0, 0, //
        0, 0, 0, 0,
    ];
    let mut world = World::from(&input, 4, 4);
    let mut frame = vec![0u8; 64];

    world.update();
    world.render(&mut frame);
    assert_eq!(&frame[24..28], &[0, 254, 254, 255]);

    world.update();
    world.render(&mut frame);
    assert_eq!(&frame[24..28], &[0, 253, 253, 255]);

    // a cell that was already fully dark stays at level 0
    assert_eq!(&frame[0..4], &[0, 0, 0, 255]);
}

// Cooling drops every afterglow to fully dark at once; it is separate from
// update and does not advance the generation.
#[test]
fn cooling_resets_afterglow() {
    let input = [
        0, 0, 0, 0, //
        0, 0, 1, 1, //
        0, 0, 0, 0, //
        0, 0, 0, 0,
    ];
    let mut world = World::from(&input, 4, 4);
    world.update(); // both cells die and glow at level 254
    let mut frame = vec![0u8; 64];
    world.render(&mut frame);
    assert_eq!(&frame[24..28], &[0, 254, 254, 255]);

    world.cool();
    world.render(&mut frame);
    for i in 0..16 {
        assert_eq!(&frame[4 * i..4 * i + 4], &[0, 0, 0, 255]);
    }
}

// An all-dead world of any size is a fixed point of the simulation.
#[test]
fn empty_world_many_steps() {
    let input = vec![0u8; 30];
    let mut world = World::from(&input, 6, 5);
    let expected = World::from(&input, 6, 5);
    for _ in 0..10 {
        world.update();
    }
    assert_eq!(world, expected);
}
