use stratego::game::Action;
use stratego::game::Direction;
use stratego::game::Position;
use stratego::game::ALL_DIRECTIONS;

fn action(from: (u8, u8), to: (u8, u8)) -> Action {
    Action { from: Position { x: from.0, y: from.1 }, to: Position { x: to.0, y: to.1 } }
}

#[test]
fn direction_of_straight_moves() {
    assert_eq!(action((4, 4), (4, 1)).direction(), Direction::Up);
    assert_eq!(action((4, 4), (9, 4)).direction(), Direction::Right);
    assert_eq!(action((4, 4), (4, 5)).direction(), Direction::Down);
    assert_eq!(action((4, 4), (0, 4)).direction(), Direction::Left);
}

#[test]
fn direction_goes_by_the_columns_first() {
    assert_eq!(action((4, 4), (5, 9)).direction(), Direction::Right);
    assert_eq!(action((4, 4), (3, 0)).direction(), Direction::Left);
    assert_eq!(action((4, 4), (4, 4)).direction(), Direction::Up);
}

#[test]
fn distance_counts_single_steps() {
    assert_eq!(action((4, 4), (4, 4)).distance(), 0);
    assert_eq!(action((4, 4), (4, 1)).distance(), 3);
    assert_eq!(action((0, 9), (9, 0)).distance(), 18);
    assert_eq!(action((0, 0), (255, 255)).distance(), 510);
}

#[test]
fn reversed_turns_both_ends() {
    assert_eq!(action((0, 3), (0, 4)).reversed(), action((9, 6), (9, 5)));
    let a = action((2, 7), (8, 7));
    assert_eq!(a.reversed().reversed(), a);
    assert_eq!(a.reversed().distance(), a.distance());
    assert_eq!(a.direction(), Direction::Right);
    assert_eq!(a.reversed().direction(), Direction::Left);
}

#[test]
fn directions_step_to_the_neighbours() {
    let p = Position { x: 4, y: 7 };
    assert_eq!(ALL_DIRECTIONS, [Direction::Up, Direction::Right, Direction::Down, Direction::Left]);
    for (k, d) in ALL_DIRECTIONS.iter().enumerate() {
        assert_eq!(d.step(&p), p.neighbours()[k]);
        let stepper = d.to_stepper();
        assert_eq!(stepper(&p), p.neighbours()[k]);
    }
}
