use snake_core::coord::Coordinate;
use snake_core::coord::Direction;
use snake_core::coord::KeyCode;
use snake_core::snake::Snake;

#[test]
fn coordinate_add_is_componentwise() {
    let a = Coordinate { x: 2, y: 3 };
    let b = Coordinate { x: 1, y: -1 };
    assert_eq!(a.add(b), Coordinate { x: 3, y: 2 });
    assert_eq!(b.add(a), Coordinate { x: 3, y: 2 });
}

#[test]
fn coordinate_sub_is_componentwise() {
    let a = Coordinate { x: 2, y: 3 };
    let b = Coordinate { x: 1, y: -1 };
    assert_eq!(a.sub(b), Coordinate { x: 1, y: 4 });
}

#[test]
fn coordinate_scalar_mul() {
    let a = Coordinate { x: 2, y: -3 };
    assert_eq!(a.mul(3), Coordinate { x: 6, y: -9 });
    assert_eq!(a.mul(0), Coordinate { x: 0, y: 0 });
}

#[test]
fn coordinate_from_pair() {
    let c = Coordinate::from((4, 5));
    assert_eq!(c, Coordinate { x: 4, y: 5 });
}

#[test]
fn direction_unit_vectors() {
    assert_eq!(Direction::Up.to_relative_coordinate(), Coordinate { x: 0, y: -1 });
    assert_eq!(Direction::Down.to_relative_coordinate(), Coordinate { x: 0, y: 1 });
    assert_eq!(Direction::Left.to_relative_coordinate(), Coordinate { x: -1, y: 0 });
    assert_eq!(Direction::Right.to_relative_coordinate(), Coordinate { x: 1, y: 0 });
}

#[test]
fn direction_from_key() {
    assert_eq!(Direction::from_key(KeyCode::Up), Some(Direction::Up));
    assert_eq!(Direction::from_key(KeyCode::Down), Some(Direction::Down));
    assert_eq!(Direction::from_key(KeyCode::Left), Some(Direction::Left));
    assert_eq!(Direction::from_key(KeyCode::Right), Some(Direction::Right));
    assert_eq!(Direction::from_key(KeyCode::Other), None);
}

#[test]
fn snake_new_lays_body_out_horizontally() {
    let s = Snake::new(Coordinate { x: 4, y: 2 }, 5);
    assert_eq!(s.body.len(), 5);
    for i in 0..5 {
        assert_eq!(s.body[i], Coordinate { x: 4 - i as isize, y: 2 });
    }
    assert_eq!(s.direction, Direction::Right);
}

#[test]
fn snake_of_length_one_still_moves() {
    let mut s = Snake::new(Coordinate { x: 0, y: 0 }, 1);
    assert_eq!(s.body.len(), 1);
    assert_eq!(s.next_head(), Coordinate { x: 1, y: 0 });
    let (new_head, old_tail) = s.update(false);
    assert_eq!(new_head, Coordinate { x: 1, y: 0 });
    assert_eq!(old_tail, Some(Coordinate { x: 0, y: 0 }));
    assert_eq!(s.body.len(), 1);
}

#[test]
fn snake_next_head_follows_heading() {
    let s = Snake::new(Coordinate { x: 4, y: 2 }, 3);
    assert_eq!(s.next_head(), Coordinate { x: 5, y: 2 });
}

#[test]
fn snake_update_growing_keeps_tail() {
    let mut s = Snake::new(Coordinate { x: 4, y: 2 }, 3);
    let (new_head, old_tail) = s.update(true);
    assert_eq!(new_head, Coordinate { x: 5, y: 2 });
    assert_eq!(old_tail, None);
    assert_eq!(s.body.len(), 4);
    assert_eq!(s.body[0], Coordinate { x: 5, y: 2 });
    assert_eq!(s.body[3], Coordinate { x: 2, y: 2 });
}

#[test]
fn snake_update_moving_vacates_tail() {
    let mut s = Snake::new(Coordinate { x: 4, y: 2 }, 3);
    let (new_head, old_tail) = s.update(false);
    assert_eq!(new_head, Coordinate { x: 5, y: 2 });
    assert_eq!(old_tail, Some(Coordinate { x: 2, y: 2 }));
    assert_eq!(s.body.len(), 3);
    assert_eq!(s.body[0], Coordinate { x: 5, y: 2 });
    assert_eq!(s.body[2], Coordinate { x: 3, y: 2 });
}

#[test]
fn snake_reverse_redirect_is_ignored() {
    let mut s = Snake::new(Coordinate { x: 2, y: 2 }, 2);
    s.try_redirect(Direction::Left);
    assert_eq!(s.direction, Direction::Right);
}

#[test]
fn snake_other_redirects_take_effect() {
    let mut s = Snake::new(Coordinate { x: 2, y: 2 }, 2);
    s.try_redirect(Direction::Up);
    assert_eq!(s.direction, Direction::Up);
    let mut s2 = Snake::new(Coordinate { x: 2, y: 2 }, 2);
    s2.try_redirect(Direction::Down);
    assert_eq!(s2.direction, Direction::Down);
    let mut s3 = Snake::new(Coordinate { x: 2, y: 2 }, 2);
    s3.try_redirect(Direction::Right);
    assert_eq!(s3.direction, Direction::Right);
}
