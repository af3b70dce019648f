use meowjelly::geom::Vec2;
use meowjelly::touch::{Input, Keys};

const NONE: Keys = Keys { up: false, left: false, down: false, right: false };

#[test]
fn keys_steer_only_after_a_key_press() {
    let mut i = Input::new();
    let up = Keys { up: true, ..NONE };
    assert_eq!(i.target(up, 1000, 100, 2000), (Vec2 { x: 0, y: 0 }, false));
    i.key_press();
    assert_eq!(i.target(up, 1000, 100, 2000), (Vec2 { x: 0, y: 1000 }, false));
}

#[test]
fn drag_accumulates_and_sets_target() {
    let mut i = Input::new();
    i.touch_start(Vec2 { x: 10, y: 10 });
    assert_eq!(i.target(NONE, 1000, 100, 2000), (Vec2 { x: 0, y: 0 }, true));
    i.touch_move(Vec2 { x: 40, y: 10 });
    i.touch_move(Vec2 { x: 60, y: 10 });
    let t = i.touch.unwrap();
    assert_eq!(t.move_delta, Vec2 { x: 50, y: 0 });
    assert_eq!(t.prev_pos, Vec2 { x: 60, y: 10 });
    // half of the small radius: half the touch speed
    assert_eq!(i.target(NONE, 1000, 100, 2000), (Vec2 { x: 1000, y: 0 }, true));
    // beyond the small radius the target stays at the touch speed
    i.touch_move(Vec2 { x: 360, y: 10 });
    assert_eq!(i.target(NONE, 1000, 100, 2000), (Vec2 { x: 2000, y: 0 }, true));
    i.touch_end();
    assert!(i.touch.is_none());
}

#[test]
fn drag_decays_by_half_the_distance_moved() {
    let mut i = Input::new();
    i.touch_start(Vec2 { x: 0, y: 0 });
    i.touch_move(Vec2 { x: 300, y: 0 });
    i.settle(Vec2 { x: 100, y: 0 }, 500, 1000);
    assert_eq!(i.touch.unwrap().move_delta, Vec2 { x: 250, y: 0 });
    // never beyond the outer radius
    i.settle(Vec2 { x: 0, y: 0 }, 500, 200);
    assert_eq!(i.touch.unwrap().move_delta, Vec2 { x: 200, y: 0 });
    // a displacement shorter than half the move is used up
    i.settle(Vec2 { x: 1000, y: 0 }, 500, 1000);
    assert_eq!(i.touch.unwrap().move_delta, Vec2 { x: 0, y: 0 });
}
