use autopilot_core::geometry::{Point, Scale, Size};
use autopilot_core::mouse::{
    click, location, move_to, scroll, smooth_move, toggle, Button, MouseError, MouseEvent,
    ScrollDirection,
};
use autopilot_core::key::KeyCode;
use autopilot_core::params::{KeyToggleParams, MouseClickParams, MouseClickParamsWrapper};

#[test]
fn move_to_gives_the_pixel_or_out_of_bounds() {
    let screen = Size::new(100, 50);
    let s = Scale::new(150).unwrap();
    assert_eq!(move_to(Point::new(10, 5), screen, s), Ok(Point::new(15, 8)));
    assert_eq!(move_to(Point::new(100, 0), screen, s), Err(MouseError::OutOfBounds));
    assert_eq!(move_to(Point::new(-1, 0), screen, s), Err(MouseError::OutOfBounds));
    assert_eq!(move_to(Point::new(0, 50), screen, s), Err(MouseError::OutOfBounds));
    assert_eq!(MouseError::OutOfBounds.message(), "Out of bounds");
}

#[test]
fn location_divides_by_the_scale() {
    let s = Scale::new(150).unwrap();
    assert_eq!(location(15, 8, s), Point::new(10, 5));
    assert_eq!(location(-3, 0, s), Point::new(-2, 0));
}

#[test]
fn test_move_to() {
    let screen = Size::new(400, 300);
    for h in [50u16, 75, 100, 125, 150, 175, 200, 250, 300] {
        let s = Scale::new(h).unwrap();
        for x in (0..400).step_by(7) {
            for y in (0..300).step_by(11) {
                let target = Point::new(x, y);
                let pixel = move_to(target, screen, s).expect("mouse::move_to call failed");
                let result = location(pixel.x as i32, pixel.y as i32, s);
                assert_eq!(target.scaled(s), result.scaled(s));
            }
        }
    }
}

#[test]
fn smooth_move_steps_along_the_line() {
    let screen = Size::new(100, 100);
    let m = smooth_move(Point::new(3, 4), Point::new(0, 0), Some(1000), screen).unwrap();
    assert_eq!(
        m.steps,
        vec![Point::new(1, 1), Point::new(1, 2), Point::new(2, 2), Point::new(2, 3), Point::new(3, 4)]
    );
    assert_eq!(m.interval_ms, 200);
    let n = smooth_move(Point::new(2, 0), Point::new(0, 0), Some(5), screen).unwrap();
    assert_eq!(n.steps, vec![Point::new(1, 0), Point::new(2, 0)]);
    assert_eq!(n.interval_ms, 3);
    let d = smooth_move(Point::new(1, 1), Point::new(0, 0), None, screen).unwrap();
    assert_eq!(d.steps, vec![Point::new(1, 1), Point::new(1, 1)]);
    assert_eq!(d.interval_ms, 1);
    let still = smooth_move(Point::new(7, 7), Point::new(7, 7), Some(100), screen).unwrap();
    assert!(still.steps.is_empty());
}

#[test]
fn smooth_move_rejects_an_off_screen_destination() {
    let r = smooth_move(Point::new(100, 0), Point::new(0, 0), None, Size::new(100, 100));
    assert!(matches!(r, Err(MouseError::OutOfBounds)));
}

#[test]
fn click_toggle_and_scroll_events() {
    assert_eq!(
        click(Button::Left, None),
        vec![MouseEvent::Press(Button::Left), MouseEvent::Sleep(100), MouseEvent::Release(Button::Left)]
    );
    assert_eq!(click(Button::Right, Some(10))[1], MouseEvent::Sleep(10));
    assert_eq!(toggle(Button::Middle, true), MouseEvent::Press(Button::Middle));
    assert_eq!(toggle(Button::Middle, false), MouseEvent::Release(Button::Middle));
    assert_eq!(scroll(ScrollDirection::Down, 3), vec![MouseEvent::Wheel(ScrollDirection::Down); 3]);
    assert!(scroll(ScrollDirection::Up, 0).is_empty());
}

#[test]
fn click_params_name_buttons() {
    let w = MouseClickParamsWrapper { params: MouseClickParams::Middle };
    assert_eq!(Button::from(w.params), Button::Middle);
    assert_eq!(Button::from(MouseClickParams::Left), Button::Left);
    assert_eq!(Button::from(MouseClickParams::Right), Button::Right);
}

#[test]
fn key_toggle_params_hold_a_key_and_a_direction() {
    let p = KeyToggleParams { key: KeyCode::Return, down: true };
    assert_eq!(p, KeyToggleParams { key: KeyCode::Return, down: true });
    assert_ne!(p, KeyToggleParams { key: KeyCode::Return, down: false });
}
