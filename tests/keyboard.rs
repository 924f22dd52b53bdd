use autopilot_core::key::{
    flags_for_char, tap, toggle, type_string, type_string_with_jitter, Character, Code, Flag,
    FlagMask, Key, KeyCode, KeyEvent, Platform,
};

const NONE: FlagMask = FlagMask { shift: false, control: false, alt: false, meta: false, help: false };

fn press(key: Key, down: bool) -> KeyEvent {
    KeyEvent::Press { key, down, flags: NONE }
}

#[test]
fn flags_for_char_implies_shift_on_linux() {
    assert_eq!(flags_for_char('A', Platform::Linux), vec![Flag::Shift]);
    assert_eq!(flags_for_char('\u{c9}', Platform::Linux), vec![Flag::Shift]);
    assert_eq!(flags_for_char('!', Platform::Linux), vec![Flag::Shift]);
    assert_eq!(flags_for_char('"', Platform::Linux), vec![Flag::Shift]);
    assert!(flags_for_char('a', Platform::Linux).is_empty());
    assert!(flags_for_char('1', Platform::Linux).is_empty());
    assert!(flags_for_char('A', Platform::MacOs).is_empty());
    assert!(flags_for_char('A', Platform::Windows).is_empty());
}

#[test]
fn toggle_presses_implied_modifiers_first() {
    assert_eq!(
        toggle(&Character('A'), true, &[], 5, Platform::Linux),
        vec![
            KeyEvent::Modifier { flag: Flag::Shift, down: true },
            KeyEvent::Sleep(5),
            press(Key::Char('A'), true),
        ]
    );
    assert_eq!(
        toggle(&Character('?'), true, &[Flag::Shift], 0, Platform::Linux),
        vec![KeyEvent::Modifier { flag: Flag::Shift, down: true }, KeyEvent::Sleep(0), press(Key::Char('?'), true)]
    );
    assert_eq!(
        toggle(&Character('A'), false, &[Flag::Control, Flag::Alt], 2, Platform::Windows),
        vec![
            KeyEvent::Modifier { flag: Flag::Control, down: false },
            KeyEvent::Sleep(2),
            KeyEvent::Modifier { flag: Flag::Alt, down: false },
            KeyEvent::Sleep(2),
            press(Key::Char('A'), false),
        ]
    );
}

#[test]
fn toggle_on_macos_carries_flags_on_the_event() {
    let mask = FlagMask { control: true, ..NONE };
    assert_eq!(
        toggle(&Character('a'), true, &[Flag::Control], 9, Platform::MacOs),
        vec![KeyEvent::Press { key: Key::Char('a'), down: true, flags: mask }]
    );
    assert_eq!(toggle(&Code(KeyCode::F5), false, &[], 9, Platform::MacOs), vec![press(Key::Named(KeyCode::F5), false)]);
}

#[test]
fn tap_holds_then_releases() {
    assert_eq!(
        tap(&Code(KeyCode::Return), &[], 10, 0, Platform::Windows),
        vec![press(Key::Named(KeyCode::Return), true), KeyEvent::Sleep(10), press(Key::Named(KeyCode::Return), false)]
    );
}

#[test]
fn type_string_at_zero_wpm_taps_each_character_without_delay() {
    let events = type_string("ab", &[], 0, 0, Platform::Linux);
    assert_eq!(
        events,
        vec![
            press(Key::Char('a'), true),
            KeyEvent::Sleep(0),
            press(Key::Char('a'), false),
            KeyEvent::Sleep(0),
            press(Key::Char('b'), true),
            KeyEvent::Sleep(0),
            press(Key::Char('b'), false),
            KeyEvent::Sleep(0),
        ]
    );
    let taps = events.iter().filter(|e| matches!(e, KeyEvent::Press { down: true, .. })).count();
    assert_eq!(taps, 2);
}

#[test]
fn type_string_paces_by_words_per_minute() {
    assert_eq!(
        type_string("x", &[], 60, 0, Platform::Linux),
        vec![press(Key::Char('x'), true), KeyEvent::Sleep(100), press(Key::Char('x'), false), KeyEvent::Sleep(100)]
    );
    assert_eq!(type_string("x", &[], 7, 0, Platform::Windows)[1], KeyEvent::Sleep(857));
    assert!(type_string("", &[], 60, 100, Platform::Linux).is_empty());
}

#[test]
fn type_string_adds_bounded_random_pauses() {
    let events = type_string("abc", &[], 60, 50, Platform::Linux);
    assert_eq!(events.len(), 12);
    for i in [3usize, 7, 11] {
        match events[i] {
            KeyEvent::Sleep(ms) => assert!((100..200).contains(&ms)),
            other => panic!("expected a pause, found {:?}", other),
        }
    }
}

#[test]
fn type_string_with_jitter_adds_the_given_pauses() {
    let events = type_string_with_jitter("aB", &[], 60, &vec![5, 7], Platform::Linux);
    assert_eq!(events[3], KeyEvent::Sleep(105));
    assert_eq!(events[4], KeyEvent::Modifier { flag: Flag::Shift, down: true });
    assert_eq!(events[events.len() - 1], KeyEvent::Sleep(107));
}
