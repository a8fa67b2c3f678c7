//! The serial line.

use vstd::prelude::*;
use vstd::string::*;

use crate::ports::{Poll, PollStep, PortWrite};

verus! {

pub const COM1: u16 = 0x3f8;

/// The bit of the line-status register that says a byte can be sent.
pub const TRANSMITTER_EMPTY: u8 = 0x20;

/// The writes that set the line up: no interrupts, the highest speed, eight bits without
/// parity, cleared buffers, and the modem lines raised.
pub fn init() -> (writes: [PortWrite; 7])
    ensures
        writes@ == seq![
            PortWrite { port: 0x3f9, value: 0x00 },
            PortWrite { port: 0x3fb, value: 0x80 },
            PortWrite { port: 0x3f8, value: 0x01 },
            PortWrite { port: 0x3f9, value: 0x00 },
            PortWrite { port: 0x3fb, value: 0x03 },
            PortWrite { port: 0x3fa, value: 0xc7 },
            PortWrite { port: 0x3fc, value: 0x0b },
        ],
{
    [
        PortWrite { port: COM1 + 1, value: 0x00 },
        PortWrite { port: COM1 + 3, value: 0x80 },
        PortWrite { port: COM1, value: 0x01 },
        PortWrite { port: COM1 + 1, value: 0x00 },
        PortWrite { port: COM1 + 3, value: 0x03 },
        PortWrite { port: COM1 + 2, value: 0xc7 },
        PortWrite { port: COM1 + 4, value: 0x0b },
    ]
}

/// The bytes as they go over the line: a carriage return before each line feed.
pub open spec fn line_bytes(bytes: Seq<u8>) -> Seq<u8>
    decreases bytes.len(),
{
    if bytes.len() == 0 {
        Seq::empty()
    } else if bytes.last() == 0x0a {
        line_bytes(bytes.drop_last()).push(0x0d).push(0x0a)
    } else {
        line_bytes(bytes.drop_last()).push(bytes.last())
    }
}

/// Takes bytes, one by one, as the serial line does. Of a sink that does not say what it
/// has got, nothing is known.
pub trait ByteSink: Sized {
    /// The bytes that the sink has got.
    closed spec fn sent(&self) -> Seq<u8> {
        arbitrary()
    }

    /// Takes a byte.
    fn send(&mut self, byte: u8)
        ensures
            final(self).sent() == old(self).sent().push(byte),
    ;
}

impl ByteSink for Vec<u8> {
    open spec fn sent(&self) -> Seq<u8> {
        self@
    }

    fn send(&mut self, byte: u8) {
        self.push(byte);
    }
}

/// Sends a text over the line.
pub fn print<L: ByteSink>(line: &mut L, text: &str)
    ensures
        final(line).sent() == old(line).sent() + line_bytes(text.spec_bytes()),
{
    let bytes: &[u8] = text.as_bytes();
    let mut index: usize = 0;
    assert(line.sent() =~= old(line).sent() + line_bytes(bytes@.take(0)));
    while index < bytes.len()
        invariant
            index <= bytes@.len(),
            line.sent() == old(line).sent() + line_bytes(bytes@.take(index as int)),
        decreases bytes@.len() - index,
    {
        let byte: u8 = bytes[index];
        assert(bytes@.take(index + 1).drop_last() =~= bytes@.take(index as int));
        if byte == 0x0a {
            line.send(0x0d);
        }
        line.send(byte);
        index += 1;
        assert(line.sent() =~= old(line).sent() + line_bytes(bytes@.take(index as int)));
    }
    assert(bytes@.take(index as int) =~= bytes@);
}

/// What to do with a byte that waits to be sent.
#[derive(Debug, Clone, Copy, PartialEq, Eq, Structural)]
pub enum Transmit {
    Send(PortWrite),
    ReadStatus,
    Drop,
}

/// Decides on a byte after a look at the line status: send it once the transmitter is
/// empty, look again, or drop it after the last look.
pub fn write_byte(poll: &mut Poll, status: u8, byte: u8) -> (action: Transmit)
    ensures
        final(poll).looks_left() == if old(poll).looks_left() == 0 {
            0
        } else {
            old(poll).looks_left() - 1
        },
        action == if status & TRANSMITTER_EMPTY != 0 {
            Transmit::Send(PortWrite { port: COM1, value: byte })
        } else if old(poll).looks_left() > 1 {
            Transmit::ReadStatus
        } else {
            Transmit::Drop
        },
        action is Send <==> status as int / 32 % 2 == 1,
        action matches Transmit::Send(write) ==> write.port == 0x3f8 && write.value == byte,
        action is Drop ==> old(poll).looks_left() <= 1,
{
    assert(status & 0x20 != 0 <==> status / 32 % 2 == 1) by (bit_vector);
    match poll.look(status & TRANSMITTER_EMPTY != 0) {
        PollStep::Ready => Transmit::Send(PortWrite { port: COM1, value: byte }),
        PollStep::Again => Transmit::ReadStatus,
        PollStep::TimedOut => Transmit::Drop,
    }
}

/// The bytes without the carriage returns that stand right before a line feed.
pub open spec fn received_bytes(sent: Seq<u8>) -> Seq<u8>
    decreases sent.len(),
{
    if sent.len() == 0 {
        Seq::empty()
    } else if sent.len() >= 2 && sent.last() == 0x0a && sent[sent.len() - 2] == 0x0d {
        received_bytes(sent.drop_last().drop_last()).push(0x0a)
    } else {
        received_bytes(sent.drop_last()).push(sent.last())
    }
}

/// Nothing is lost on the line: who takes out the carriage return before each line feed
/// has the text back.
pub proof fn law_line_keeps_text(bytes: Seq<u8>)
    ensures
        received_bytes(line_bytes(bytes)) == bytes,
    decreases bytes.len(),
{
    if bytes.len() > 0 {
        let front = line_bytes(bytes.drop_last());
        let sent = line_bytes(bytes);
        law_line_keeps_text(bytes.drop_last());
        if bytes.last() == 0x0a {
            assert(sent.drop_last() =~= front.push(0x0d));
            assert(sent.drop_last().drop_last() =~= front);
        } else {
            assert(sent.drop_last() =~= front);
        }
        assert(received_bytes(sent) =~= bytes);
    }
}

/// Bytes go over the line one after the other, and a carriage return goes before each line
/// feed and nowhere else.
pub proof fn law_lines_end_in_carriage_return(first: Seq<u8>, second: Seq<u8>, byte: u8)
    ensures
        line_bytes(first + second) == line_bytes(first) + line_bytes(second),
        line_bytes(seq![byte]) == if byte == 10 {
            seq![13u8, 10u8]
        } else {
            seq![byte]
        },
    decreases second.len(),
{
    assert(line_bytes(seq![byte].drop_last()).len() == 0);
    assert(line_bytes(seq![byte]) =~= if byte == 10 {
        seq![13u8, 10u8]
    } else {
        seq![byte]
    });
    if second.len() > 0 {
        law_lines_end_in_carriage_return(first, second.drop_last(), byte);
        assert((first + second).drop_last() =~= first + second.drop_last());
    } else {
        assert(first + second =~= first);
    }
    assert(line_bytes(first + second) =~= line_bytes(first) + line_bytes(second));
}

} // verus!
