use sol_os::keyboard::{
    ascii_for_set_1, dropped_chars, handle_scancode, letter_for_set_1, next_char, next_event,
    InputQueue, KeyEvent, Keyboard,
};

fn typed(scancodes: &[u8]) -> Vec<KeyEvent> {
    let mut keyboard = Keyboard::new();
    for &scancode in scancodes {
        handle_scancode(&mut keyboard, scancode);
    }
    let mut events = Vec::new();
    while let Some(event) = next_event(&mut keyboard) {
        events.push(event);
    }
    events
}

#[test]
fn letters_follow_the_layout() {
    let codes: [(u8, u8); 26] = [
        (0x1e, b'a'),
        (0x30, b'b'),
        (0x2e, b'c'),
        (0x20, b'd'),
        (0x12, b'e'),
        (0x21, b'f'),
        (0x22, b'g'),
        (0x23, b'h'),
        (0x17, b'i'),
        (0x24, b'j'),
        (0x25, b'k'),
        (0x26, b'l'),
        (0x32, b'm'),
        (0x31, b'n'),
        (0x18, b'o'),
        (0x19, b'p'),
        (0x10, b'q'),
        (0x13, b'r'),
        (0x1f, b's'),
        (0x14, b't'),
        (0x16, b'u'),
        (0x2f, b'v'),
        (0x11, b'w'),
        (0x2d, b'x'),
        (0x15, b'y'),
        (0x2c, b'z'),
    ];
    for (code, letter) in codes {
        assert_eq!(letter_for_set_1(code, false), Some(letter));
        assert_eq!(letter_for_set_1(code, true), Some(letter - 32));
        assert_eq!(ascii_for_set_1(code, false, false), Some(letter));
        assert_eq!(ascii_for_set_1(code, true, false), Some(letter - 32));
        assert_eq!(ascii_for_set_1(code, false, true), Some(letter - 32));
        assert_eq!(ascii_for_set_1(code, true, true), Some(letter));
    }
    assert_eq!(letter_for_set_1(0x02, false), None);
}

#[test]
fn digits_and_punctuation_follow_shift_alone() {
    let plain = b"1234567890-=";
    let shifted = b"!@#$%^&*()_+";
    for i in 0..12 {
        let code = 0x02 + i as u8;
        assert_eq!(ascii_for_set_1(code, false, true), Some(plain[i]));
        assert_eq!(ascii_for_set_1(code, true, false), Some(shifted[i]));
    }
    let others: [(u8, u8, u8); 9] = [
        (0x1a, b'[', b'{'),
        (0x1b, b']', b'}'),
        (0x27, b';', b':'),
        (0x28, b'\'', b'"'),
        (0x29, b'`', b'~'),
        (0x2b, b'\\', b'|'),
        (0x33, b',', b'<'),
        (0x34, b'.', b'>'),
        (0x35, b'/', b'?'),
    ];
    for (code, plain, shifted) in others {
        assert_eq!(ascii_for_set_1(code, false, false), Some(plain));
        assert_eq!(ascii_for_set_1(code, true, false), Some(shifted));
    }
    assert_eq!(ascii_for_set_1(0x39, false, false), Some(b' '));
    assert_eq!(ascii_for_set_1(0x01, false, false), None);
}

#[test]
fn line_keys_become_events() {
    assert_eq!(
        typed(&[0x1c, 0x0e, 0x0f]),
        vec![KeyEvent::Enter, KeyEvent::Backspace, KeyEvent::Tab]
    );
}

#[test]
fn shift_holds_until_it_is_released() {
    assert_eq!(
        typed(&[0x2a, 0x1e, 0xaa, 0x1e, 0x36, 0x02, 0xb6, 0x02]),
        vec![
            KeyEvent::Character(b'A'),
            KeyEvent::Character(b'a'),
            KeyEvent::Character(b'!'),
            KeyEvent::Character(b'1'),
        ]
    );
}

#[test]
fn caps_lock_turns_on_and_off() {
    assert_eq!(
        typed(&[0x3a, 0x1e, 0xba, 0x1e, 0x3a, 0x1e]),
        vec![
            KeyEvent::Character(b'A'),
            KeyEvent::Character(b'A'),
            KeyEvent::Character(b'a'),
        ]
    );
}

#[test]
fn releases_type_nothing() {
    assert_eq!(typed(&[0x9e, 0x9c, 0x81]), Vec::<KeyEvent>::new());
}

#[test]
fn extended_keys_edit_and_browse() {
    assert_eq!(
        typed(&[
            0xe0, 0x4b, 0xe0, 0x4d, 0xe0, 0x47, 0xe0, 0x4f, 0xe0, 0x53, 0xe0, 0x48, 0xe0, 0x50,
        ]),
        vec![
            KeyEvent::Left,
            KeyEvent::Right,
            KeyEvent::Home,
            KeyEvent::End,
            KeyEvent::Delete,
            KeyEvent::Up,
            KeyEvent::Down,
        ]
    );
    assert_eq!(typed(&[0xe0, 0xcb, 0xe0, 0x1e]), Vec::<KeyEvent>::new());
}

#[test]
fn prefix_covers_one_scancode() {
    assert_eq!(
        typed(&[0xe0, 0x1d, 0x1e]),
        vec![KeyEvent::Character(b'a')]
    );
}

#[test]
fn presses_come_out_in_order() {
    let word = [0x23, 0x12, 0x26, 0x26, 0x18];
    let events = typed(&word);
    let expected: Vec<KeyEvent> = b"hello".iter().map(|&b| KeyEvent::Character(b)).collect();
    assert_eq!(events, expected);
}

#[test]
fn full_queue_drops_and_counts() {
    let mut keyboard = Keyboard::new();
    for _ in 0..300 {
        handle_scancode(&mut keyboard, 0x1e);
    }
    assert_eq!(dropped_chars(&keyboard), 45);
    let mut taken = 0;
    while next_char(&mut keyboard).is_some() {
        taken += 1;
    }
    assert_eq!(taken, 255);
    handle_scancode(&mut keyboard, 0x30);
    assert_eq!(next_char(&mut keyboard), Some(b'b'));
    assert_eq!(next_char(&mut keyboard), None);
    assert_eq!(dropped_chars(&keyboard), 45);
}

#[test]
fn characters_are_bytes_of_the_line() {
    let mut keyboard = Keyboard::new();
    for scancode in [0xe0, 0x48, 0x1e, 0x1c, 0x0e, 0x0f] {
        handle_scancode(&mut keyboard, scancode);
    }
    assert_eq!(next_char(&mut keyboard), Some(b'a'));
    assert_eq!(next_char(&mut keyboard), Some(b'\n'));
    assert_eq!(next_char(&mut keyboard), Some(8));
    assert_eq!(next_char(&mut keyboard), Some(b'\t'));
    assert_eq!(next_char(&mut keyboard), None);
}

#[test]
fn queue_wraps_around() {
    let mut queue = InputQueue::new();
    for round in 0..1000u32 {
        queue.push(KeyEvent::Character((round % 251) as u8));
        assert_eq!(
            queue.pop(),
            Some(KeyEvent::Character((round % 251) as u8))
        );
    }
    assert_eq!(queue.pop(), None);
    assert_eq!(queue.dropped(), 0);
}
