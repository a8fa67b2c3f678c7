use sol_os::controller::{
    initialize_controller, reset_machine, ControllerAction, ControllerState, ResetAction,
};
use sol_os::pic;
use sol_os::ports::{Poll, PollStep, PortWrite, POLL_LIMIT};
use sol_os::serial;
use sol_os::timer;

fn write(port: u16, value: u8) -> PortWrite {
    PortWrite { port, value }
}

#[test]
fn interrupt_controllers_are_remapped_and_masked() {
    let writes = pic::initialize();
    assert_eq!(
        writes,
        [
            write(0x20, 0x11),
            write(0xa0, 0x11),
            write(0x21, 32),
            write(0xa1, 40),
            write(0x21, 4),
            write(0xa1, 2),
            write(0x21, 1),
            write(0xa1, 1),
            write(0x21, 0xfc),
            write(0xa1, 0xff),
        ]
    );
}

#[test]
fn interrupts_are_acknowledged_where_they_came_from() {
    for id in [32, 33, 39] {
        let writes = pic::end_of_interrupt(id);
        assert_eq!(writes.second, None);
        assert_eq!(writes.first, write(0x20, 0x20));
    }
    let writes = pic::end_of_interrupt(40);
    assert_eq!(writes.second, Some(write(0xa0, 0x20)));
    assert_eq!(writes.first, write(0x20, 0x20));
}

#[test]
fn only_timer_and_keyboard_are_unmasked() {
    let mask = pic::initialize()[8].value;
    assert_eq!(mask & 0x01, 0);
    assert_eq!(mask & 0x02, 0);
    assert_eq!(mask & 0xfc, 0xfc);
}

#[test]
fn timer_divides_down_to_a_hundred_ticks() {
    let writes = timer::initialize();
    assert_eq!(
        writes,
        [write(0x43, 0x36), write(0x40, 0x9b), write(0x40, 0x2e)]
    );
    assert_eq!(0x9b + 256 * 0x2e, 11_931);
}

#[test]
fn uptime_counts_whole_seconds() {
    let mut counter = timer::TickCounter::new();
    assert_eq!(timer::ticks(&counter), 0);
    for _ in 0..99 {
        timer::tick(&mut counter);
    }
    assert_eq!(timer::uptime_seconds(&counter), 0);
    timer::tick(&mut counter);
    assert_eq!(timer::uptime_seconds(&counter), 1);
    for _ in 0..13_086 {
        timer::tick(&mut counter);
    }
    assert_eq!(timer::ticks(&counter), 13_186);
    assert_eq!(timer::uptime_seconds(&counter), 131);
}

#[test]
fn serial_line_is_set_up() {
    assert_eq!(
        serial::init(),
        [
            write(0x3f9, 0x00),
            write(0x3fb, 0x80),
            write(0x3f8, 0x01),
            write(0x3f9, 0x00),
            write(0x3fb, 0x03),
            write(0x3fa, 0xc7),
            write(0x3fc, 0x0b),
        ]
    );
}

fn sent(text: &str) -> Vec<u8> {
    let mut line = Vec::new();
    serial::print(&mut line, text);
    line
}

#[test]
fn serial_lines_end_in_carriage_return_and_line_feed() {
    assert_eq!(sent("a\nb"), b"a\r\nb".to_vec());
    assert_eq!(sent(""), Vec::<u8>::new());
    assert_eq!(sent("\r\n"), b"\r\r\n".to_vec());
    assert_eq!(sent("—"), vec![0xe2, 0x80, 0x94]);
}

#[test]
fn serial_byte_waits_for_the_transmitter() {
    let mut poll = Poll::new(2);
    assert_eq!(
        serial::write_byte(&mut poll, 0x00, b'x'),
        serial::Transmit::ReadStatus
    );
    assert_eq!(
        serial::write_byte(&mut poll, 0x20, b'x'),
        serial::Transmit::Send(write(0x3f8, b'x'))
    );
    let mut poll = Poll::new(1);
    assert_eq!(
        serial::write_byte(&mut poll, 0x00, b'x'),
        serial::Transmit::Drop
    );
}

#[test]
fn waits_are_bounded() {
    let mut poll = Poll::new(2);
    assert_eq!(poll.look(false), PollStep::Again);
    assert_eq!(poll.look(false), PollStep::TimedOut);
    let mut poll = Poll::new(1);
    assert_eq!(poll.look(true), PollStep::Ready);
    let mut poll = Poll::new(0);
    assert_eq!(poll.look(false), PollStep::TimedOut);
}

/// Runs the setup against a controller with `stale` bytes in its output buffer and the
/// given configuration. Gives what was written and the outcome.
fn set_up(stale: u32, configuration: u8) -> (Vec<ControllerAction>, bool, u32) {
    let mut state = ControllerState::new();
    let mut action = state.action();
    let mut written = Vec::new();
    let mut waiting = stale;
    let mut drained = 0;
    let mut answers = false;
    loop {
        let reply = match action {
            ControllerAction::ReadStatus => {
                if waiting > 0 || answers {
                    0x01
                } else {
                    0x00
                }
            }
            ControllerAction::ReadData => {
                if answers && waiting == 0 {
                    answers = false;
                    configuration
                } else {
                    waiting -= 1;
                    drained += 1;
                    0xaa
                }
            }
            ControllerAction::WriteCommand(command) => {
                written.push(action);
                if command == 0x20 {
                    answers = true;
                    waiting = 0;
                }
                0
            }
            ControllerAction::WriteData(_) => {
                written.push(action);
                0
            }
            ControllerAction::Finished(responsive) => return (written, responsive, drained),
        };
        action = initialize_controller(&mut state, reply);
    }
}

#[test]
fn keyboard_controller_is_set_up_for_translation() {
    let (written, responsive, drained) = set_up(0, 0x30);
    assert!(responsive);
    assert_eq!(drained, 0);
    assert_eq!(
        written,
        vec![
            ControllerAction::WriteCommand(0xad),
            ControllerAction::WriteCommand(0x20),
            ControllerAction::WriteCommand(0x60),
            ControllerAction::WriteData(0x61),
            ControllerAction::WriteCommand(0xae),
        ]
    );
}

#[test]
fn stale_bytes_are_thrown_away() {
    let (_, responsive, drained) = set_up(5, 0x00);
    assert!(responsive);
    assert_eq!(drained, 5);
    let (written, responsive, drained) = set_up(100, 0xff);
    assert!(responsive);
    assert_eq!(drained, 32);
    assert_eq!(written[3], ControllerAction::WriteData(0xef));
}

#[test]
fn absent_controller_is_given_up() {
    let mut state = ControllerState::new();
    let mut action = state.action();
    let mut looks = 0;
    while action == ControllerAction::ReadStatus {
        looks += 1;
        action = initialize_controller(&mut state, 0xff);
    }
    assert_eq!(looks, POLL_LIMIT);
    assert_eq!(action, ControllerAction::Finished(false));
}

#[test]
fn controller_that_never_answers_is_given_up() {
    let mut state = ControllerState::new();
    let mut action = state.action();
    let mut written = 0;
    loop {
        match action {
            ControllerAction::Finished(responsive) => {
                assert!(!responsive);
                break;
            }
            ControllerAction::WriteCommand(_) | ControllerAction::WriteData(_) => written += 1,
            _ => {}
        }
        action = initialize_controller(&mut state, 0x00);
    }
    assert_eq!(written, 2);
}

#[test]
fn machine_is_reset_once_the_controller_listens() {
    let mut poll = Poll::new(POLL_LIMIT);
    assert_eq!(reset_machine(&mut poll, 0x02), ResetAction::ReadStatus);
    assert_eq!(
        reset_machine(&mut poll, 0x00),
        ResetAction::WriteCommand(0xfe)
    );
    let mut poll = Poll::new(1);
    assert_eq!(reset_machine(&mut poll, 0x02), ResetAction::GiveUp);
}

#[test]
fn nothing_is_lost_on_the_serial_line() {
    for text in ["plain", "a\nb\n\n", "\r\n", "\n\r"] {
        let sent = sent(text);
        let mut received: Vec<u8> = Vec::new();
        for byte in sent {
            if byte == b'\n' && received.last() == Some(&b'\r') {
                received.pop();
            }
            received.push(byte);
        }
        assert_eq!(received, text.as_bytes());
    }
}
