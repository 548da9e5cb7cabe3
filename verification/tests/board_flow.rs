use snake_core::board::App;
use snake_core::board::Fate;
use snake_core::board::Grid;
use snake_core::board::Occupancy;
use snake_core::board::State;
use snake_core::coord::Coordinate;
use snake_core::coord::Direction;
use snake_core::coord::KeyCode;

fn body_cells(app: &App) -> Vec<Coordinate> {
    let mut cells = Vec::new();
    for i in 0..app.snake.body.len() {
        cells.push(app.snake.body[i]);
    }
    cells
}

fn assert_food_off_body(app: &App) {
    for i in 0..app.snake.body.len() {
        assert_ne!(app.snake.body[i], app.food);
    }
    assert!(app.food.x >= 0 && (app.food.x as usize) < app.grid.width);
    assert!(app.food.y >= 0 && (app.food.y as usize) < app.grid.height);
}

#[test]
fn grid_tracks_dirty_cells() {
    let mut g = Grid::new(3, 2);
    g.update(Coordinate { x: 1, y: 0 }, Occupancy::Snake);
    let painted = g.render(false);
    assert_eq!(painted.len(), 1);
    assert_eq!(painted[0], (Coordinate { x: 1, y: 0 }, Occupancy::Snake));
    let painted_again = g.render(false);
    assert_eq!(painted_again.len(), 0);
}

#[test]
fn grid_full_render_paints_every_cell() {
    let mut g = Grid::new(3, 2);
    g.update(Coordinate { x: 2, y: 1 }, Occupancy::Food);
    let painted = g.render(true);
    assert_eq!(painted.len(), 6);
    for x in 0..3isize {
        for y in 0..2isize {
            let c = Coordinate { x, y };
            let expected = if x == 2 && y == 1 { Occupancy::Food } else { Occupancy::Empty };
            assert!(painted.contains(&(c, expected)));
        }
    }
    assert_eq!(g.render(false).len(), 0);
}

#[test]
fn new_app_starts_playing_with_food_placed() {
    let app = App::new(5, 5, 3);
    assert_eq!(app.state, State::Playing);
    assert_eq!(app.snake.direction, Direction::Right);
    assert_eq!(
        body_cells(&app),
        vec![
            Coordinate { x: 2, y: 2 },
            Coordinate { x: 1, y: 2 },
            Coordinate { x: 0, y: 2 },
        ]
    );
    assert_food_off_body(&app);
}

#[test]
fn eat_tick_grows_snake_and_replaces_food() {
    let mut app = App::new(5, 5, 3);
    app.set_food(Coordinate { x: 3, y: 2 });
    assert_eq!(app.determine_fate(), Fate::Eat);
    app.update();
    assert_eq!(app.state, State::Playing);
    assert_eq!(
        body_cells(&app),
        vec![
            Coordinate { x: 3, y: 2 },
            Coordinate { x: 2, y: 2 },
            Coordinate { x: 1, y: 2 },
            Coordinate { x: 0, y: 2 },
        ]
    );
    assert_food_off_body(&app);
}

#[test]
fn move_tick_shifts_body_and_vacates_tail() {
    let mut app = App::new(5, 5, 3);
    app.set_food(Coordinate { x: 4, y: 4 });
    assert_eq!(app.determine_fate(), Fate::Move);
    app.update();
    assert_eq!(app.state, State::Playing);
    assert_eq!(
        body_cells(&app),
        vec![
            Coordinate { x: 3, y: 2 },
            Coordinate { x: 2, y: 2 },
            Coordinate { x: 1, y: 2 },
        ]
    );
}

#[test]
fn wall_exit_ends_the_game() {
    let mut app = App::new(3, 3, 2);
    app.set_food(Coordinate { x: 2, y: 2 });
    app.button_pressed(KeyCode::Up);
    app.update();
    assert_eq!(body_cells(&app), vec![Coordinate { x: 1, y: 0 }, Coordinate { x: 1, y: 1 }]);
    app.button_pressed(KeyCode::Left);
    app.update();
    assert_eq!(body_cells(&app), vec![Coordinate { x: 0, y: 0 }, Coordinate { x: 1, y: 0 }]);
    assert_eq!(app.determine_fate(), Fate::Die);
    app.update();
    assert_eq!(app.state, State::GameOver);
    assert_eq!(body_cells(&app), vec![Coordinate { x: 0, y: 0 }, Coordinate { x: 1, y: 0 }]);
}

#[test]
fn game_over_freezes_ticks_and_keys() {
    let mut app = App::new(3, 3, 2);
    app.set_food(Coordinate { x: 2, y: 2 });
    app.button_pressed(KeyCode::Up);
    app.update();
    app.button_pressed(KeyCode::Left);
    app.update();
    app.update();
    assert_eq!(app.state, State::GameOver);
    let body_before = body_cells(&app);
    let food_before = app.food;
    let dir_before = app.snake.direction;
    app.update();
    app.button_pressed(KeyCode::Down);
    assert_eq!(app.state, State::GameOver);
    assert_eq!(body_cells(&app), body_before);
    assert_eq!(app.food, food_before);
    assert_eq!(app.snake.direction, dir_before);
}

#[test]
fn reverse_steering_request_is_dropped() {
    let mut app = App::new(5, 5, 2);
    app.set_food(Coordinate { x: 4, y: 4 });
    app.update();
    assert_eq!(body_cells(&app), vec![Coordinate { x: 2, y: 2 }, Coordinate { x: 1, y: 2 }]);
    app.button_pressed(KeyCode::Left);
    assert_eq!(app.snake.direction, Direction::Right);
    app.update();
    assert_eq!(app.snake.body[0], Coordinate { x: 3, y: 2 });
    assert_eq!(app.state, State::Playing);
}

#[test]
fn unrecognized_keys_do_not_steer() {
    let mut app = App::new(5, 5, 2);
    app.button_pressed(KeyCode::Other);
    assert_eq!(app.snake.direction, Direction::Right);
}

#[test]
fn self_collision_ends_the_game() {
    let mut app = App::new(7, 7, 5);
    app.set_food(Coordinate { x: 6, y: 6 });
    app.button_pressed(KeyCode::Up);
    app.update();
    app.button_pressed(KeyCode::Left);
    app.update();
    app.button_pressed(KeyCode::Down);
    app.update();
    assert_eq!(app.determine_fate(), Fate::Die);
    app.update();
    assert_eq!(app.state, State::GameOver);
}

#[test]
fn repeated_eats_never_place_food_on_body() {
    let mut app = App::new(10, 5, 2);
    for x in 2..8isize {
        app.set_food(Coordinate { x, y: 2 });
        assert_eq!(app.determine_fate(), Fate::Eat);
        app.update();
        assert_eq!(app.snake.body[0], Coordinate { x, y: 2 });
        assert_food_off_body(&app);
    }
    assert_eq!(app.snake.body.len(), 8);
}

#[test]
fn repaint_is_idempotent_without_new_events() {
    let mut app = App::new(4, 4, 2);
    let first = app.render(false);
    assert_eq!(first.len(), 16);
    let second = app.render(false);
    assert_eq!(second.len(), 0);
    app.set_food(Coordinate { x: 3, y: 3 });
    app.update();
    let after_tick = app.render(false);
    assert!(after_tick.len() > 0);
    let drained = app.render(false);
    assert_eq!(drained.len(), 0);
}

fn assert_body_gapless_and_duplicate_free(app: &App) {
    let cells = body_cells(app);
    for w in cells.windows(2) {
        let dx = (w[0].x - w[1].x).abs();
        let dy = (w[0].y - w[1].y).abs();
        assert_eq!(dx + dy, 1);
    }
    for i in 0..cells.len() {
        for j in (i + 1)..cells.len() {
            assert_ne!(cells[i], cells[j]);
        }
    }
}

#[test]
fn body_stays_gapless_and_duplicate_free_across_ticks() {
    let mut app = App::new(8, 8, 3);
    assert_body_gapless_and_duplicate_free(&app);
    app.set_food(Coordinate { x: 3, y: 3 });
    let moves = [
        KeyCode::Other,
        KeyCode::Down,
        KeyCode::Other,
        KeyCode::Right,
        KeyCode::Up,
        KeyCode::Other,
        KeyCode::Left,
        KeyCode::Other,
    ];
    for &key in moves.iter() {
        app.button_pressed(key);
        app.update();
        assert_body_gapless_and_duplicate_free(&app);
        assert_food_off_body(&app);
    }
}

#[test]
fn full_repaint_paints_snake_food_and_empty_cells() {
    let mut app = App::new(4, 3, 2);
    app.render(false);
    let painted = app.render(true);
    assert_eq!(painted.len(), 12);
    for &(c, occupancy) in painted.iter() {
        let on_body = body_cells(&app).contains(&c);
        let expected = if on_body {
            Occupancy::Snake
        } else if c == app.food {
            Occupancy::Food
        } else {
            Occupancy::Empty
        };
        assert_eq!(occupancy, expected);
    }
}
