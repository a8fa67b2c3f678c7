//! The PS/2 keyboard: set-1 scancodes in, key events out.

use vstd::prelude::*;

verus! {

/// Places in the ring of queued events. One of them stays free.
pub const INPUT_QUEUE_CAPACITY: usize = 256;

/// A key press, as the shell sees it.
#[derive(Debug, Clone, Copy, PartialEq, Eq, Structural)]
pub enum KeyEvent {
    Enter,
    Backspace,
    Delete,
    Tab,
    Character(u8),
    Left,
    Right,
    Home,
    End,
    Up,
    Down,
}

/// The keys of a row that starts at scancode `first`, typed as `plain`, or as
/// `shifted` while a shift key is held.
pub open spec fn row_byte(
    code: u8,
    first: int,
    plain: Seq<char>,
    shifted: Seq<char>,
    shift: bool,
) -> Option<u8> {
    if first <= code < first + plain.len() {
        Some(
            if shift {
                shifted[code - first] as u8
            } else {
                plain[code - first] as u8
            },
        )
    } else {
        None
    }
}

/// The lower-case letter on a key.
pub open spec fn letter_byte(code: u8) -> Option<u8> {
    if 0x10 <= code <= 0x19 {
        Some("qwertyuiop"@[code - 0x10] as u8)
    } else if 0x1e <= code <= 0x26 {
        Some("asdfghjkl"@[code - 0x1e] as u8)
    } else if 0x2c <= code <= 0x32 {
        Some("zxcvbnm"@[code - 0x2c] as u8)
    } else {
        None
    }
}

/// The byte that a key types. Caps lock turns the case of letters only.
pub open spec fn key_byte(code: u8, shift: bool, caps_lock: bool) -> Option<u8> {
    if code == 0x0e {
        Some(0x08u8)
    } else if code == 0x0f {
        Some(0x09u8)
    } else if code == 0x1c {
        Some(0x0au8)
    } else if code == 0x39 {
        Some(0x20u8)
    } else if 0x02 <= code <= 0x0d {
        row_byte(code, 0x02, "1234567890-="@, "!@#$%^&*()_+"@, shift)
    } else if 0x1a <= code <= 0x1b {
        row_byte(code, 0x1a, "[]"@, "{}"@, shift)
    } else if 0x27 <= code <= 0x29 {
        row_byte(code, 0x27, ";'`"@, ":\"~"@, shift)
    } else if code == 0x2b {
        row_byte(code, 0x2b, "\\"@, "|"@, shift)
    } else if 0x33 <= code <= 0x35 {
        row_byte(code, 0x33, ",./"@, "<>?"@, shift)
    } else {
        match letter_byte(code) {
            Some(letter) => Some(
                if shift != caps_lock {
                    (letter - 32) as u8
                } else {
                    letter
                },
            ),
            None => None,
        }
    }
}

/// The event for a typed byte.
pub open spec fn byte_event(byte: u8) -> KeyEvent {
    if byte == 0x08 {
        KeyEvent::Backspace
    } else if byte == 0x09 {
        KeyEvent::Tab
    } else if byte == 0x0a {
        KeyEvent::Enter
    } else {
        KeyEvent::Character(byte)
    }
}

/// The byte that an event stands for, where it stands for one.
pub open spec fn event_byte(event: KeyEvent) -> Option<u8> {
    match event {
        KeyEvent::Backspace => Some(0x08u8),
        KeyEvent::Tab => Some(0x09u8),
        KeyEvent::Enter => Some(0x0au8),
        KeyEvent::Character(byte) => Some(byte),
        _ => None,
    }
}

/// The navigation keys, whose scancodes come after the prefix `0xe0`.
pub open spec fn navigation_event(code: u8) -> Option<KeyEvent> {
    if code == 0x47 {
        Some(KeyEvent::Home)
    } else if code == 0x48 {
        Some(KeyEvent::Up)
    } else if code == 0x4b {
        Some(KeyEvent::Left)
    } else if code == 0x4d {
        Some(KeyEvent::Right)
    } else if code == 0x4f {
        Some(KeyEvent::End)
    } else if code == 0x50 {
        Some(KeyEvent::Down)
    } else if code == 0x53 {
        Some(KeyEvent::Delete)
    } else {
        None
    }
}

/// The lower-case or upper-case letter on a key.
pub fn letter_for_set_1(scancode: u8, uppercase: bool) -> (byte: Option<u8>)
    ensures
        byte == match letter_byte(scancode) {
            Some(letter) => Some(
                if uppercase {
                    (letter - 32) as u8
                } else {
                    letter
                },
            ),
            None => None,
        },
{
    proof {
        reveal_strlit("qwertyuiop");
        reveal_strlit("asdfghjkl");
        reveal_strlit("zxcvbnm");
    }
    let lowercase: u8 = match scancode {
        0x10 => 'q' as u8,
        0x11 => 'w' as u8,
        0x12 => 'e' as u8,
        0x13 => 'r' as u8,
        0x14 => 't' as u8,
        0x15 => 'y' as u8,
        0x16 => 'u' as u8,
        0x17 => 'i' as u8,
        0x18 => 'o' as u8,
        0x19 => 'p' as u8,
        0x1e => 'a' as u8,
        0x1f => 's' as u8,
        0x20 => 'd' as u8,
        0x21 => 'f' as u8,
        0x22 => 'g' as u8,
        0x23 => 'h' as u8,
        0x24 => 'j' as u8,
        0x25 => 'k' as u8,
        0x26 => 'l' as u8,
        0x2c => 'z' as u8,
        0x2d => 'x' as u8,
        0x2e => 'c' as u8,
        0x2f => 'v' as u8,
        0x30 => 'b' as u8,
        0x31 => 'n' as u8,
        0x32 => 'm' as u8,
        _ => return None,
    };
    Some(
        if uppercase {
            lowercase - 32
        } else {
            lowercase
        },
    )
}

/// The byte that a key types.
pub fn ascii_for_set_1(scancode: u8, shift: bool, caps_lock: bool) -> (byte: Option<u8>)
    ensures
        byte == key_byte(scancode, shift, caps_lock),
{
    proof {
        reveal_strlit("1234567890-=");
        reveal_strlit("!@#$%^&*()_+");
        reveal_strlit("[]");
        reveal_strlit("{}");
        reveal_strlit(";'`");
        reveal_strlit(":\"~");
        reveal_strlit("\\");
        reveal_strlit("|");
        reveal_strlit(",./");
        reveal_strlit("<>?");
    }
    let (plain, shifted): (u8, u8) = match scancode {
        0x02 => ('1' as u8, '!' as u8),
        0x03 => ('2' as u8, '@' as u8),
        0x04 => ('3' as u8, '#' as u8),
        0x05 => ('4' as u8, '$' as u8),
        0x06 => ('5' as u8, '%' as u8),
        0x07 => ('6' as u8, '^' as u8),
        0x08 => ('7' as u8, '&' as u8),
        0x09 => ('8' as u8, '*' as u8),
        0x0a => ('9' as u8, '(' as u8),
        0x0b => ('0' as u8, ')' as u8),
        0x0c => ('-' as u8, '_' as u8),
        0x0d => ('=' as u8, '+' as u8),
        0x0e => return Some(0x08),
        0x0f => return Some(0x09),
        0x1a => ('[' as u8, '{' as u8),
        0x1b => (']' as u8, '}' as u8),
        0x1c => return Some(0x0a),
        0x27 => (';' as u8, ':' as u8),
        0x28 => ('\'' as u8, '"' as u8),
        0x29 => ('`' as u8, '~' as u8),
        0x2b => ('\\' as u8, '|' as u8),
        0x33 => (',' as u8, '<' as u8),
        0x34 => ('.' as u8, '>' as u8),
        0x35 => ('/' as u8, '?' as u8),
        0x39 => return Some(0x20),
        code => return letter_for_set_1(code, shift != caps_lock),
    };
    Some(
        if shift {
            shifted
        } else {
            plain
        },
    )
}

fn event_for_byte(byte: u8) -> (event: KeyEvent)
    ensures
        event == byte_event(byte),
{
    match byte {
        0x08 => KeyEvent::Backspace,
        0x09 => KeyEvent::Tab,
        0x0a => KeyEvent::Enter,
        byte => KeyEvent::Character(byte),
    }
}

fn byte_for_event(event: KeyEvent) -> (byte: Option<u8>)
    ensures
        byte == event_byte(event),
{
    match event {
        KeyEvent::Backspace => Some(0x08),
        KeyEvent::Tab => Some(0x09),
        KeyEvent::Enter => Some(0x0a),
        KeyEvent::Character(byte) => Some(byte),
        _ => None,
    }
}

fn event_for_extended(scancode: u8) -> (event: Option<KeyEvent>)
    ensures
        event == navigation_event(scancode),
{
    match scancode {
        0x47 => Some(KeyEvent::Home),
        0x48 => Some(KeyEvent::Up),
        0x4b => Some(KeyEvent::Left),
        0x4d => Some(KeyEvent::Right),
        0x4f => Some(KeyEvent::End),
        0x50 => Some(KeyEvent::Down),
        0x53 => Some(KeyEvent::Delete),
        _ => None,
    }
}

/// A ring of key events, with a count of those that found it full.
pub struct InputQueue {
    events: [KeyEvent; INPUT_QUEUE_CAPACITY],
    head: usize,
    tail: usize,
    dropped: usize,
}

impl View for InputQueue {
    type V = Seq<KeyEvent>;

    /// The queued events, oldest first.
    closed spec fn view(&self) -> Seq<KeyEvent> {
        Seq::new(
            ring_length(self.head as int, self.tail as int) as nat,
            |i: int| self.events@[(self.tail + i) % 256],
        )
    }
}

/// How many places of the ring lie from `tail` up to `head`.
spec fn ring_length(head: int, tail: int) -> int {
    if head >= tail {
        head - tail
    } else {
        head + 256 - tail
    }
}

impl InputQueue {
    #[verifier::type_invariant]
    spec fn well_formed(self) -> bool {
        self.head < 256 && self.tail < 256
    }

    /// How many events were dropped because the ring was full.
    pub closed spec fn dropped_count(&self) -> usize {
        self.dropped
    }

    pub fn new() -> (queue: Self)
        ensures
            queue@ == Seq::<KeyEvent>::empty(),
            queue.dropped_count() == 0,
    {
        let queue = InputQueue {
            events: [KeyEvent::Enter; INPUT_QUEUE_CAPACITY],
            head: 0,
            tail: 0,
            dropped: 0,
        };
        assert(queue@ =~= Seq::<KeyEvent>::empty());
        queue
    }

    /// Queues an event, or counts it as dropped where the ring is full.
    pub fn push(&mut self, event: KeyEvent)
        ensures
            old(self)@.len() <= 255,
            old(self)@.len() < 255 ==> final(self)@ == old(self)@.push(event)
                && final(self).dropped_count() == old(self).dropped_count(),
            old(self)@.len() == 255 ==> final(self)@ == old(self)@ && final(self).dropped_count()
                == old(self).dropped_count().wrapping_add(1),
    {
        proof {
            use_type_invariant(&*self);
        }
        let next: usize = (self.head + 1) % INPUT_QUEUE_CAPACITY;
        if next == self.tail {
            self.dropped = self.dropped.wrapping_add(1);
            assert(self@ =~= old(self)@);
            return;
        }
        let mut events: [KeyEvent; INPUT_QUEUE_CAPACITY] = self.events;
        events[self.head] = event;
        self.events = events;
        self.head = next;
        assert(self@ =~= old(self)@.push(event));
    }

    /// Takes the oldest event.
    pub fn pop(&mut self) -> (event: Option<KeyEvent>)
        ensures
            final(self).dropped_count() == old(self).dropped_count(),
            old(self)@.len() == 0 ==> event is None && final(self)@ == old(self)@,
            old(self)@.len() > 0 ==> event == Some(old(self)@[0]) && final(self)@
                == old(self)@.skip(1),
    {
        proof {
            use_type_invariant(&*self);
        }
        if self.tail == self.head {
            return None;
        }
        let event: KeyEvent = self.events[self.tail];
        self.tail = (self.tail + 1) % INPUT_QUEUE_CAPACITY;
        assert(self@ =~= old(self)@.skip(1));
        Some(event)
    }

    pub fn dropped(&self) -> (count: usize)
        ensures
            count == self.dropped_count(),
    {
        self.dropped
    }
}

/// The keyboard as it is known: what is held, what is locked, what is queued.
#[verifier::ext_equal]
pub struct KeyboardModel {
    pub extended: bool,
    pub shift: bool,
    pub caps_lock: bool,
    pub queue: Seq<KeyEvent>,
    pub dropped: usize,
}

impl KeyboardModel {
    /// An event is queued, or counted as dropped where 255 events are waiting.
    pub open spec fn enqueue(self, event: KeyEvent) -> KeyboardModel {
        if self.queue.len() < 255 {
            KeyboardModel { queue: self.queue.push(event), ..self }
        } else {
            KeyboardModel { dropped: self.dropped.wrapping_add(1), ..self }
        }
    }

    /// What one scancode does.
    pub open spec fn after(self, scancode: u8) -> KeyboardModel {
        if scancode == 0xe0 {
            KeyboardModel { extended: true, ..self }
        } else if self.extended {
            let plain = KeyboardModel { extended: false, ..self };
            match navigation_event(scancode) {
                Some(event) => plain.enqueue(event),
                None => plain,
            }
        } else if scancode == 0x2a || scancode == 0x36 {
            KeyboardModel { shift: true, ..self }
        } else if scancode == 0xaa || scancode == 0xb6 {
            KeyboardModel { shift: false, ..self }
        } else if scancode == 0x3a {
            KeyboardModel { caps_lock: !self.caps_lock, ..self }
        } else if scancode >= 0x80 {
            self
        } else {
            match key_byte(scancode, self.shift, self.caps_lock) {
                Some(byte) => self.enqueue(byte_event(byte)),
                None => self,
            }
        }
    }
}

/// The state behind the keyboard interrupt.
pub struct Keyboard {
    queue: InputQueue,
    shift: bool,
    caps_lock: bool,
    extended_prefix: bool,
}

impl View for Keyboard {
    type V = KeyboardModel;

    closed spec fn view(&self) -> KeyboardModel {
        KeyboardModel {
            extended: self.extended_prefix,
            shift: self.shift,
            caps_lock: self.caps_lock,
            queue: self.queue@,
            dropped: self.queue.dropped_count(),
        }
    }
}

impl Keyboard {
    pub fn new() -> (keyboard: Self)
        ensures
            keyboard@ == (KeyboardModel {
                extended: false,
                shift: false,
                caps_lock: false,
                queue: Seq::empty(),
                dropped: 0,
            }),
    {
        Keyboard {
            queue: InputQueue::new(),
            shift: false,
            caps_lock: false,
            extended_prefix: false,
        }
    }
}

/// Consumes a raw set-1 scancode and queues the key press that it completes.
pub fn handle_scancode(keyboard: &mut Keyboard, scancode: u8)
    ensures
        final(keyboard)@ == old(keyboard)@.after(scancode),
{
    if scancode == 0xe0 {
        keyboard.extended_prefix = true;
        return;
    }
    if keyboard.extended_prefix {
        keyboard.extended_prefix = false;
        if let Some(event) = event_for_extended(scancode) {
            keyboard.queue.push(event);
        }
        return;
    }
    match scancode {
        0x2a | 0x36 => {
            keyboard.shift = true;
            return;
        },
        0xaa | 0xb6 => {
            keyboard.shift = false;
            return;
        },
        0x3a => {
            keyboard.caps_lock = !keyboard.caps_lock;
            return;
        },
        _ => {},
    }
    if scancode >= 0x80 {
        return;
    }
    if let Some(byte) = ascii_for_set_1(scancode, keyboard.shift, keyboard.caps_lock) {
        keyboard.queue.push(event_for_byte(byte));
    }
}

/// Takes the oldest key press.
pub fn next_event(keyboard: &mut Keyboard) -> (event: Option<KeyEvent>)
    ensures
        old(keyboard)@.queue.len() == 0 ==> event is None && final(keyboard)@ == old(keyboard)@,
        old(keyboard)@.queue.len() > 0 ==> event == Some(old(keyboard)@.queue[0])
            && final(keyboard)@ == (KeyboardModel {
            queue: old(keyboard)@.queue.skip(1),
            ..old(keyboard)@
        }),
{
    keyboard.queue.pop()
}

/// The first queued key press that stands for a byte: its place, or the length of the
/// queue where there is none.
pub open spec fn first_byte_position(queue: Seq<KeyEvent>) -> nat
    decreases queue.len(),
{
    if queue.len() == 0 || event_byte(queue[0]) is Some {
        0
    } else {
        1 + first_byte_position(queue.skip(1))
    }
}

/// Takes the oldest key press that stands for a byte, and gives the byte. Navigation
/// keys pressed before it are passed over.
pub fn next_char(keyboard: &mut Keyboard) -> (byte: Option<u8>)
    ensures
        ({
            let queue = old(keyboard)@.queue;
            let position = first_byte_position(queue);
            if position < queue.len() {
                &&& byte == event_byte(queue[position as int])
                &&& final(keyboard)@ == (KeyboardModel {
                    queue: queue.skip(position as int + 1),
                    ..old(keyboard)@
                })
            } else {
                &&& byte is None
                &&& final(keyboard)@ == (KeyboardModel { queue: Seq::empty(), ..old(keyboard)@ })
            }
        }),
{
    let ghost start = keyboard@;
    let ghost mut passed: int = 0;
    assert(start.queue.skip(0) =~= start.queue);
    loop
        invariant
            0 <= passed <= start.queue.len(),
            start == old(keyboard)@,
            keyboard@ == (KeyboardModel { queue: start.queue.skip(passed), ..start }),
            first_byte_position(start.queue) == passed + first_byte_position(
                start.queue.skip(passed),
            ),
        decreases start.queue.len() - passed,
    {
        let ghost rest = start.queue.skip(passed);
        let event: KeyEvent = match next_event(keyboard) {
            Some(event) => event,
            None => {
                assert(rest =~= Seq::<KeyEvent>::empty());
                return None;
            },
        };
        proof {
            assert(rest[0] == start.queue[passed]);
            assert(rest.skip(1) =~= start.queue.skip(passed + 1));
        }
        if let Some(byte) = byte_for_event(event) {
            return Some(byte);
        }
        proof {
            passed = passed + 1;
        }
    }
}

/// How many key presses were dropped because too many were waiting.
pub fn dropped_chars(keyboard: &Keyboard) -> (count: usize)
    ensures
        count == keyboard@.dropped,
{
    keyboard.queue.dropped()
}

/// What a list of scancodes does.
pub open spec fn after_all(keyboard: KeyboardModel, scancodes: Seq<u8>) -> KeyboardModel
    decreases scancodes.len(),
{
    if scancodes.len() == 0 {
        keyboard
    } else {
        after_all(keyboard, scancodes.drop_last()).after(scancodes.last())
    }
}

/// Key presses queue up in the order in which they came: what was waiting stays in
/// front, untouched. As long as there is room for a press per scancode, none is dropped.
pub proof fn law_presses_keep_their_order(keyboard: KeyboardModel, scancodes: Seq<u8>)
    ensures
        ({
            let later = after_all(keyboard, scancodes);
            &&& keyboard.queue.len() <= later.queue.len() <= keyboard.queue.len() + scancodes.len()
            &&& later.queue.take(keyboard.queue.len() as int) == keyboard.queue
            &&& keyboard.queue.len() + scancodes.len() <= 255 ==> later.dropped == keyboard.dropped
            &&& keyboard.queue.len() <= 255 ==> later.queue.len() <= 255
        }),
    decreases scancodes.len(),
{
    if scancodes.len() > 0 {
        law_presses_keep_their_order(keyboard, scancodes.drop_last());
        let before = after_all(keyboard, scancodes.drop_last());
        let later = after_all(keyboard, scancodes);
        assert(later.queue.take(keyboard.queue.len() as int) =~= before.queue.take(
            keyboard.queue.len() as int,
        ));
    } else {
        assert(keyboard.queue.take(keyboard.queue.len() as int) =~= keyboard.queue);
    }
}

/// Whether every queued character is printable ASCII.
pub open spec fn all_printable(queue: Seq<KeyEvent>) -> bool {
    forall|i: int|
        0 <= i < queue.len() ==> (#[trigger] queue[i] matches KeyEvent::Character(byte) ==> 0x20
            <= byte <= 0x7e)
}

/// Only printable ASCII is ever queued as a character.
pub proof fn law_characters_are_printable(keyboard: KeyboardModel, scancode: u8)
    requires
        all_printable(keyboard.queue),
    ensures
        all_printable(keyboard.after(scancode).queue),
{
    reveal_strlit("1234567890-=");
    reveal_strlit("!@#$%^&*()_+");
    reveal_strlit("[]");
    reveal_strlit("{}");
    reveal_strlit(";'`");
    reveal_strlit(":\"~");
    reveal_strlit("\\");
    reveal_strlit("|");
    reveal_strlit(",./");
    reveal_strlit("<>?");
    reveal_strlit("qwertyuiop");
    reveal_strlit("asdfghjkl");
    reveal_strlit("zxcvbnm");
}

/// Pressing and releasing a shift key leaves everything as it was, with no shift held.
/// Caps lock pressed twice leaves everything as it was.
pub proof fn law_modifiers_undo(keyboard: KeyboardModel)
    requires
        !keyboard.extended,
    ensures
        keyboard.after(0x2a).after(0xaa) == (KeyboardModel { shift: false, ..keyboard }),
        keyboard.after(0x36).after(0xb6) == (KeyboardModel { shift: false, ..keyboard }),
        keyboard.after(0x3a).after(0x3a) == keyboard,
{
}

/// Letting go of a key types nothing.
pub proof fn law_releases_type_nothing(keyboard: KeyboardModel, scancode: u8)
    requires
        scancode >= 0x80,
    ensures
        keyboard.after(scancode).queue == keyboard.queue,
        keyboard.after(scancode).dropped == keyboard.dropped,
        keyboard.after(scancode).caps_lock == keyboard.caps_lock,
{
}

/// The extended prefix covers the one scancode after it. That scancode changes no
/// modifier, and where it is no navigation key, the two of them change nothing at all.
pub proof fn law_prefix_covers_one_scancode(keyboard: KeyboardModel, scancode: u8)
    requires
        scancode != 0xe0,
    ensures
        ({
            let later = keyboard.after(0xe0).after(scancode);
            &&& !later.extended
            &&& later.shift == keyboard.shift
            &&& later.caps_lock == keyboard.caps_lock
            &&& navigation_event(scancode) is None ==> later == (KeyboardModel {
                extended: false,
                ..keyboard
            })
        }),
{
}

/// The letter keys: those of the three letter rows, from Q to P, A to L and Z to M.
pub open spec fn is_letter_key(code: u8) -> bool {
    0x10 <= code <= 0x19 || 0x1e <= code <= 0x26 || 0x2c <= code <= 0x32
}

proof fn lemma_reveal_keys()
    ensures
        "1234567890-="@.len() == 12 && "!@#$%^&*()_+"@.len() == 12,
        forall|c: u8, shift: bool, caps: bool|
            #![trigger key_byte(c, shift, caps)]
            key_byte(c, shift, caps) is Some <==> (0x02 <= c <= 0x1c || 0x1e <= c <= 0x29
                || 0x2b <= c <= 0x35 || c == 0x39),
{
    reveal_strlit("1234567890-=");
    reveal_strlit("!@#$%^&*()_+");
    reveal_strlit("[]");
    reveal_strlit(";'`");
    reveal_strlit("\\");
    reveal_strlit(",./");
    assert forall|c: u8, shift: bool, caps: bool|
        #![trigger key_byte(c, shift, caps)]
        key_byte(c, shift, caps) is Some <==> (0x02 <= c <= 0x1c || 0x1e <= c <= 0x29 || 0x2b
            <= c <= 0x35 || c == 0x39) by {}
}

/// Which keys type at all: with or without shift and caps lock they are the same.
pub proof fn law_typing_keys(code: u8, shift: bool, caps_lock: bool)
    ensures
        key_byte(code, shift, caps_lock) is Some <==> (0x02 <= code <= 0x1c || 0x1e <= code
            <= 0x29 || 0x2b <= code <= 0x35 || code == 0x39),
{
    lemma_reveal_keys();
}

/// Caps lock changes letters only: any other key types the same with caps lock on and off.
pub proof fn law_caps_lock_changes_letters_only(code: u8, shift: bool)
    ensures
        !is_letter_key(code) ==> key_byte(code, shift, true) == key_byte(code, shift, false),
        is_letter_key(code) ==> key_byte(code, shift, true) != key_byte(code, shift, false),
{
    reveal_strlit("qwertyuiop");
    reveal_strlit("asdfghjkl");
    reveal_strlit("zxcvbnm");
}

/// A letter key types its small letter, and with one of shift and caps lock, but not both,
/// the capital one.
pub proof fn law_letters_turn_their_case(code: u8, shift: bool, caps_lock: bool)
    requires
        is_letter_key(code),
    ensures
        key_byte(code, false, false) matches Some(small) && 0x61 <= small <= 0x7a && key_byte(
            code,
            shift,
            caps_lock,
        ) == Some(
            if shift == caps_lock {
                small
            } else {
                (small - 32) as u8
            },
        ),
{
    reveal_strlit("qwertyuiop");
    reveal_strlit("asdfghjkl");
    reveal_strlit("zxcvbnm");
}

/// The keyboard from left to right and from top to bottom, one place per scancode from 2
/// on, as it types without shift. Places of keys that type no character hold a space.
pub open spec fn plain_keys() -> Seq<char> {
    "1234567890-=  qwertyuiop[]  asdfghjkl;'` \\zxcvbnm,./"@
}

/// The same with shift.
pub open spec fn shifted_keys() -> Seq<char> {
    "!@#$%^&*()_+  QWERTYUIOP{}  ASDFGHJKL:\"~ |ZXCVBNM<>?"@
}

/// Every key with a character types that character, or with shift the other one on it.
pub proof fn law_keys_type_their_characters(code: u8, shift: bool)
    requires
        2 <= code < 2 + plain_keys().len(),
        plain_keys()[code - 2] != ' ',
    ensures
        plain_keys().len() == 52 && shifted_keys().len() == 52,
        key_byte(code, shift, false) == Some(
            if shift {
                shifted_keys()[code - 2] as u8
            } else {
                plain_keys()[code - 2] as u8
            },
        ),
{
    reveal_strlit("1234567890-=  qwertyuiop[]  asdfghjkl;'` \\zxcvbnm,./");
    reveal_strlit("!@#$%^&*()_+  QWERTYUIOP{}  ASDFGHJKL:\"~ |ZXCVBNM<>?");
    reveal_strlit("1234567890-=");
    reveal_strlit("!@#$%^&*()_+");
    reveal_strlit("[]");
    reveal_strlit("{}");
    reveal_strlit(";'`");
    reveal_strlit(":\"~");
    reveal_strlit("\\");
    reveal_strlit("|");
    reveal_strlit(",./");
    reveal_strlit("<>?");
    reveal_strlit("qwertyuiop");
    reveal_strlit("asdfghjkl");
    reveal_strlit("zxcvbnm");
}

/// Backspace, Tab, Enter and the space bar type the same whatever is held: each of the four
/// bytes comes from one key and no other.
pub proof fn law_control_keys(code: u8, shift: bool, caps_lock: bool)
    ensures
        key_byte(code, shift, caps_lock) == Some(0x08u8) <==> code == 0x0e,
        key_byte(code, shift, caps_lock) == Some(0x09u8) <==> code == 0x0f,
        key_byte(code, shift, caps_lock) == Some(0x0au8) <==> code == 0x1c,
        key_byte(code, shift, caps_lock) == Some(0x20u8) <==> code == 0x39,
{
    reveal_strlit("1234567890-=");
    reveal_strlit("!@#$%^&*()_+");
    reveal_strlit("[]");
    reveal_strlit("{}");
    reveal_strlit(";'`");
    reveal_strlit(":\"~");
    reveal_strlit("\\");
    reveal_strlit("|");
    reveal_strlit(",./");
    reveal_strlit("<>?");
    reveal_strlit("qwertyuiop");
    reveal_strlit("asdfghjkl");
    reveal_strlit("zxcvbnm");
}

/// Typed bytes and events tell each other: the three control bytes have events of their
/// own, any other byte is a character, and navigation keys stand for no byte.
pub proof fn law_events_tell_their_bytes(byte: u8, event: KeyEvent)
    ensures
        event_byte(byte_event(byte)) == Some(byte),
        byte_event(byte) is Backspace <==> byte == 0x08,
        byte_event(byte) is Tab <==> byte == 0x09,
        byte_event(byte) is Enter <==> byte == 0x0a,
        byte_event(byte) is Character <==> byte != 0x08 && byte != 0x09 && byte != 0x0a,
        event_byte(event) is None <==> event is Left || event is Right || event is Home
            || event is End || event is Up || event is Down || event is Delete,
{
}

/// Each of the seven navigation keys has its own scancode behind the prefix.
pub proof fn law_navigation_keys(code: u8)
    ensures
        navigation_event(code) == Some(KeyEvent::Home) <==> code == 0x47,
        navigation_event(code) == Some(KeyEvent::Up) <==> code == 0x48,
        navigation_event(code) == Some(KeyEvent::Left) <==> code == 0x4b,
        navigation_event(code) == Some(KeyEvent::Right) <==> code == 0x4d,
        navigation_event(code) == Some(KeyEvent::End) <==> code == 0x4f,
        navigation_event(code) == Some(KeyEvent::Down) <==> code == 0x50,
        navigation_event(code) == Some(KeyEvent::Delete) <==> code == 0x53,
        navigation_event(code) matches Some(event) ==> event_byte(event) is None,
{
}

/// The state that a scancode leaves: the prefix waits for the next scancode, shift is held
/// from the press of a shift key to its release, caps lock turns with each press, and no
/// other scancode touches any of them.
pub proof fn law_modifiers_follow_their_keys(keyboard: KeyboardModel, scancode: u8)
    ensures
        ({
            let later = keyboard.after(scancode);
            let plain = !keyboard.extended && scancode != 0xe0;
            &&& later.extended <==> scancode == 0xe0
            &&& later.shift == if plain && (scancode == 0x2a || scancode == 0x36) {
                true
            } else if plain && (scancode == 0xaa || scancode == 0xb6) {
                false
            } else {
                keyboard.shift
            }
            &&& later.caps_lock == if plain && scancode == 0x3a {
                !keyboard.caps_lock
            } else {
                keyboard.caps_lock
            }
        }),
{
}

/// A press is queued behind all others, where fewer than 255 wait, and is dropped and
/// counted else. What is pressed is the navigation key behind a prefix, and else the byte
/// that the key types with the modifiers as they stand. Nothing else is ever queued.
pub proof fn law_presses_are_queued(keyboard: KeyboardModel, scancode: u8)
    ensures
        ({
            let later = keyboard.after(scancode);
            let pressed = if scancode == 0xe0 {
                None
            } else if keyboard.extended {
                navigation_event(scancode)
            } else if scancode >= 0x80 {
                None
            } else {
                match key_byte(scancode, keyboard.shift, keyboard.caps_lock) {
                    Some(byte) => Some(byte_event(byte)),
                    None => None,
                }
            };
            match pressed {
                None => later.queue == keyboard.queue && later.dropped == keyboard.dropped,
                Some(event) => if keyboard.queue.len() < 255 {
                    later.queue == keyboard.queue.push(event) && later.dropped
                        == keyboard.dropped
                } else {
                    later.queue == keyboard.queue && (keyboard.dropped < usize::MAX
                        ==> later.dropped == keyboard.dropped + 1)
                },
            }
        }),
{
    lemma_reveal_keys();
}

/// Waiting for a byte passes over the presses before the first that stands for one.
pub proof fn law_first_byte_is_first(queue: Seq<KeyEvent>)
    ensures
        first_byte_position(queue) <= queue.len(),
        forall|i: int|
            0 <= i < first_byte_position(queue) ==> event_byte(#[trigger] queue[i]) is None,
        first_byte_position(queue) < queue.len() ==> event_byte(
            queue[first_byte_position(queue) as int],
        ) is Some,
    decreases queue.len(),
{
    if queue.len() > 0 && event_byte(queue[0]) is None {
        law_first_byte_is_first(queue.skip(1));
        let n = first_byte_position(queue.skip(1)) as int;
        assert forall|i: int| 0 <= i < first_byte_position(queue) implies event_byte(
            #[trigger] queue[i],
        ) is None by {
            if i > 0 {
                assert(queue[i] == queue.skip(1)[i - 1]);
            }
        }
        assert(n < queue.len() - 1 ==> queue.skip(1)[n] == queue[n + 1]);
    }
}

} // verus!
