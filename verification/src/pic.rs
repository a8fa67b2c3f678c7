//! The two legacy interrupt controllers.

use vstd::prelude::*;

use crate::ports::PortWrite;

verus! {

/// The vectors of the first controller start after those of the CPU exceptions.
pub const PIC_1_OFFSET: u8 = 32;

pub const PIC_2_OFFSET: u8 = PIC_1_OFFSET + 8;

pub const TIMER_INTERRUPT_ID: u8 = PIC_1_OFFSET;

pub const KEYBOARD_INTERRUPT_ID: u8 = PIC_1_OFFSET + 1;

pub const PIC_1_COMMAND: u16 = 0x20;

pub const PIC_1_DATA: u16 = 0x21;

pub const PIC_2_COMMAND: u16 = 0xa0;

pub const PIC_2_DATA: u16 = 0xa1;

pub const PIC_EOI: u8 = 0x20;

/// The interrupt lines of the first controller that stay masked: all but the timer's
/// and the keyboard's.
pub const PIC_1_MASK: u8 = 0xfc;

/// The second controller stays fully masked.
pub const PIC_2_MASK: u8 = 0xff;

pub open spec fn port_write(port: u16, value: u8) -> PortWrite {
    PortWrite { port, value }
}

/// The writes that remap both controllers away from the CPU exception vectors and
/// unmask only the timer and the keyboard: start the sequence, set the vectors, wire the
/// controllers together, choose the mode, set the masks.
pub open spec fn setup_writes() -> Seq<PortWrite> {
    seq![
        port_write(PIC_1_COMMAND, 0x11),
        port_write(PIC_2_COMMAND, 0x11),
        port_write(PIC_1_DATA, PIC_1_OFFSET),
        port_write(PIC_2_DATA, PIC_2_OFFSET),
        port_write(PIC_1_DATA, 0x04),
        port_write(PIC_2_DATA, 0x02),
        port_write(PIC_1_DATA, 0x01),
        port_write(PIC_2_DATA, 0x01),
        port_write(PIC_1_DATA, PIC_1_MASK),
        port_write(PIC_2_DATA, PIC_2_MASK),
    ]
}

/// The writes that set both controllers up, in order.
pub fn initialize() -> (writes: [PortWrite; 10])
    ensures
        writes@ == setup_writes(),
{
    let writes: [PortWrite; 10] = [
        PortWrite { port: PIC_1_COMMAND, value: 0x11 },
        PortWrite { port: PIC_2_COMMAND, value: 0x11 },
        PortWrite { port: PIC_1_DATA, value: PIC_1_OFFSET },
        PortWrite { port: PIC_2_DATA, value: PIC_2_OFFSET },
        PortWrite { port: PIC_1_DATA, value: 0x04 },
        PortWrite { port: PIC_2_DATA, value: 0x02 },
        PortWrite { port: PIC_1_DATA, value: 0x01 },
        PortWrite { port: PIC_2_DATA, value: 0x01 },
        PortWrite { port: PIC_1_DATA, value: PIC_1_MASK },
        PortWrite { port: PIC_2_DATA, value: PIC_2_MASK },
    ];
    assert(writes@ =~= setup_writes());
    writes
}

/// The writes that acknowledge an interrupt, in order.
#[derive(Debug, Clone, Copy, PartialEq, Eq, Structural)]
pub struct Acknowledgement {
    pub second: Option<PortWrite>,
    pub first: PortWrite,
}

/// How to acknowledge an interrupt. An interrupt of the second controller came through
/// the first, so both are told, the second one before the first.
pub fn end_of_interrupt(interrupt_id: u8) -> (writes: Acknowledgement)
    ensures
        writes == (Acknowledgement {
            second: if interrupt_id >= PIC_2_OFFSET {
                Some(port_write(PIC_2_COMMAND, PIC_EOI))
            } else {
                None
            },
            first: port_write(PIC_1_COMMAND, PIC_EOI),
        }),
        writes.first.port == 0x20 && writes.first.value == 0x20,
        writes.second is Some <==> interrupt_id >= 40,
        writes.second matches Some(write) ==> write.port == 0xa0 && write.value == 0x20,
{
    Acknowledgement {
        second: if interrupt_id >= PIC_2_OFFSET {
            Some(PortWrite { port: PIC_2_COMMAND, value: PIC_EOI })
        } else {
            None
        },
        first: PortWrite { port: PIC_1_COMMAND, value: PIC_EOI },
    }
}

/// Of the sixteen interrupt lines only the timer's, line zero, and the keyboard's, line
/// one, are open once the controllers are set up, and their vectors are no CPU exception.
pub proof fn law_only_timer_and_keyboard_interrupt(line: u8)
    requires
        line < 8,
    ensures
        PIC_1_MASK & (1u8 << line) == 0 <==> PIC_1_OFFSET + line == TIMER_INTERRUPT_ID
            || PIC_1_OFFSET + line == KEYBOARD_INTERRUPT_ID,
        PIC_2_MASK & (1u8 << line) != 0,
        PIC_1_OFFSET + line >= 32,
        PIC_2_OFFSET + line >= 32,
{
    assert(0xfcu8 & (1u8 << line) == 0 <==> line == 0 || line == 1) by (bit_vector)
        requires
            line < 8,
    ;
    assert(0xffu8 & (1u8 << line) != 0) by (bit_vector)
        requires
            line < 8,
    ;
}

/// Both controllers are set up alike, in four words each, and then masked: the first line
/// of the one raises vector 32 and of the other vector 40, the second hangs on line two of
/// the first, and only the timer's and the keyboard's lines are open.
pub proof fn law_controllers_are_set_up()
    ensures
        setup_writes().len() == 10,
        forall|i: int|
            #![trigger setup_writes()[i]]
            0 <= i < 10 ==> setup_writes()[i].port == if i == 0 {
                0x20u16
            } else if i == 1 {
                0xa0
            } else if i % 2 == 0 {
                0x21
            } else {
                0xa1
            },
        setup_writes()[0].value == 0x11 && setup_writes()[1].value == 0x11,
        setup_writes()[2].value == 32 && setup_writes()[3].value == 40,
        setup_writes()[4].value == 4 && setup_writes()[5].value == 2,
        setup_writes()[6].value == 1 && setup_writes()[7].value == 1,
        setup_writes()[8].value == 255 - 1 - 2 && setup_writes()[9].value == 255,
        TIMER_INTERRUPT_ID == 32,
        KEYBOARD_INTERRUPT_ID == 33,
{
}

} // verus!
