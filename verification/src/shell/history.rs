//! The last commands, for browsing.

use vstd::array::array_as_slice;
use vstd::prelude::*;
use vstd::slice::slice_subrange;

verus! {

/// Bytes that a command line holds. An editable line stays on one row of the smallest
/// screen.
pub const LINE_CAPACITY: usize = 80;

/// Commands that the history keeps.
pub const HISTORY_CAPACITY: usize = 16;

/// The bytes that count as white space in a command line.
pub open spec fn is_blank_byte(byte: u8) -> bool {
    byte == 0x20 || byte == 0x09 || byte == 0x0a || byte == 0x0c || byte == 0x0d
}

/// A line without a command.
pub open spec fn is_blank(line: Seq<u8>) -> bool {
    forall|i: int| 0 <= i < line.len() ==> is_blank_byte(#[trigger] line[i])
}

/// The history, newest command first, after a line was entered: blank lines and repeats
/// of the newest command are not kept, and the oldest command makes room.
pub open spec fn remembered(history: Seq<Seq<u8>>, line: Seq<u8>) -> Seq<Seq<u8>> {
    if is_blank(line) || (history.len() > 0 && history[0] == line) {
        history
    } else if history.len() < HISTORY_CAPACITY {
        seq![line] + history
    } else {
        seq![line] + history.drop_last()
    }
}

/// The place of the command that Up shows.
pub open spec fn older(history: Seq<Seq<u8>>, current: Option<usize>) -> Option<usize> {
    if history.len() == 0 {
        None
    } else {
        match current {
            None => Some(0),
            Some(position) => if position + 1 < history.len() {
                Some((position + 1) as usize)
            } else {
                Some(position)
            },
        }
    }
}

/// The place of the command that Down shows, `Some(None)` where the draft comes back.
pub open spec fn newer(current: Option<usize>) -> Option<Option<usize>> {
    match current {
        None => None,
        Some(position) => if position > 0 {
            Some(Some((position - 1) as usize))
        } else {
            Some(None)
        },
    }
}

/// A ring of the last commands.
pub struct CommandHistory {
    entries: [[u8; LINE_CAPACITY]; HISTORY_CAPACITY],
    lengths: [usize; HISTORY_CAPACITY],
    count: usize,
    next: usize,
}

/// The slot of the ring that holds the command at `position`, where `next` is the slot
/// to be filled next.
spec fn slot_of(next: int, position: int) -> int {
    (next + HISTORY_CAPACITY - 1 - position) % (HISTORY_CAPACITY as int)
}

impl View for CommandHistory {
    type V = Seq<Seq<u8>>;

    closed spec fn view(&self) -> Seq<Seq<u8>> {
        Seq::new(
            if self.count <= HISTORY_CAPACITY {
                self.count as nat
            } else {
                HISTORY_CAPACITY as nat
            },
            |position: int|
                self.entries[slot_of(self.next as int, position)]@.take(
                    self.lengths[slot_of(self.next as int, position)] as int,
                ),
        )
    }
}

/// A history holds sixteen commands at most.
pub proof fn law_history_is_bounded(history: CommandHistory)
    ensures
        history@.len() <= HISTORY_CAPACITY,
{
}

impl CommandHistory {
    #[verifier::type_invariant]
    spec fn well_formed(self) -> bool {
        &&& self.count <= HISTORY_CAPACITY
        &&& self.next < HISTORY_CAPACITY
        &&& forall|i: int|
            0 <= i < HISTORY_CAPACITY ==> (#[trigger] self.lengths[i]) <= LINE_CAPACITY
        &&& forall|position: int|
            self.count <= position < HISTORY_CAPACITY ==> self.lengths[#[trigger] slot_of(
                self.next as int,
                position,
            )] == 0
    }

    /// A history without commands.
    pub fn new() -> (history: Self)
        ensures
            history@ == Seq::<Seq<u8>>::empty(),
    {
        let history: CommandHistory = CommandHistory {
            entries: [[0; LINE_CAPACITY]; HISTORY_CAPACITY],
            lengths: [0; HISTORY_CAPACITY],
            count: 0,
            next: 0,
        };
        assert(history@ =~= Seq::<Seq<u8>>::empty());
        history
    }

    /// Takes in a line that was entered.
    pub fn push(&mut self, line: &[u8])
        requires
            line@.len() <= LINE_CAPACITY,
        ensures
            final(self)@ == remembered(old(self)@, line@),
    {
        proof {
            use_type_invariant(&*self);
        }
        if all_blank(line) {
            return;
        }
        if self.count > 0 {
            let newest: usize = (self.next + HISTORY_CAPACITY - 1) % HISTORY_CAPACITY;
            if self.lengths[newest] == line.len() && starts_with(&self.entries[newest], line) {
                assert(self@[0] =~= line@);
                return;
            }
            assert(self@[0] != line@) by {
                if self@[0] == line@ {
                    assert(self.lengths[newest as int] == line@.len());
                    assert(self.entries[newest as int]@.take(line@.len() as int) == line@);
                }
            }
        }
        let ghost before = *self;
        let mut entries: [[u8; LINE_CAPACITY]; HISTORY_CAPACITY] = self.entries;
        let mut lengths: [usize; HISTORY_CAPACITY] = self.lengths;
        let mut entry: [u8; LINE_CAPACITY] = entries[self.next];
        copy_line(&mut entry, line);
        entries[self.next] = entry;
        lengths[self.next] = line.len();
        let count: usize = if self.count < HISTORY_CAPACITY {
            self.count + 1
        } else {
            HISTORY_CAPACITY
        };
        let next: usize = (self.next + 1) % HISTORY_CAPACITY;
        assert forall|position: int| count <= position < HISTORY_CAPACITY implies lengths[
        #[trigger] slot_of(next as int, position)] == 0 by {
            assert(slot_of(next as int, position) == slot_of(self.next as int, position - 1));
            assert(slot_of(next as int, position) != self.next);
        }
        *self = CommandHistory { entries, lengths, count, next };
        assert(self@ =~= remembered(before@, line@)) by {
            assert(self@[0] =~= line@);
            assert forall|position: int| 0 < position < count implies self@[position]
                == before@[position - 1] by {
                assert(slot_of(next as int, position) == slot_of(
                    before.next as int,
                    position - 1,
                ));
                assert(slot_of(next as int, position) != before.next);
            }
        }
    }
}

impl CommandHistory {
    /// Steps to an older command: the place of the command to show. Where browsing only
    /// starts, the line is kept at the start of the draft. The oldest command stays.
    pub fn previous(
        &self,
        current: Option<usize>,
        line: &[u8; LINE_CAPACITY],
        line_length: usize,
        draft: &mut [u8; LINE_CAPACITY],
        draft_length: &mut usize,
    ) -> (position: Option<usize>)
        requires
            line_length <= LINE_CAPACITY,
        ensures
            position == older(self@, current),
            if self@.len() > 0 && current is None {
                &&& final(draft)@.take(line_length as int) == line@.take(line_length as int)
                &&& final(draft)@.skip(line_length as int) == old(draft)@.skip(line_length as int)
                &&& *final(draft_length) == line_length
            } else {
                &&& *final(draft) == *old(draft)
                &&& *final(draft_length) == *old(draft_length)
            },
    {
        proof {
            use_type_invariant(self);
        }
        if self.count == 0 {
            return None;
        }
        match current {
            Some(position) => if position < self.count - 1 {
                Some(position + 1)
            } else {
                Some(position)
            },
            None => {
                copy_line(draft, slice_subrange(array_as_slice(line), 0, line_length));
                assert(line@.subrange(0, line_length as int) =~= line@.take(line_length as int));
                *draft_length = line_length;
                Some(0)
            },
        }
    }

    /// Steps to a newer command: nothing happens where nothing is browsed, and the draft
    /// comes after the newest command.
    pub fn next(&self, current: Option<usize>) -> (step: Option<Option<usize>>)
        ensures
            step == newer(current),
    {
        match current {
            Some(position) => if position > 0 {
                Some(Some(position - 1))
            } else {
                Some(None)
            },
            None => None,
        }
    }

    /// Copies the command at `position` to the start of a line buffer and gives its
    /// length: zero where there is no such command.
    pub fn copy_into(&self, position: usize, output: &mut [u8; LINE_CAPACITY]) -> (length: usize)
        requires
            position < HISTORY_CAPACITY,
        ensures
            position < self@.len() ==> length == self@[position as int].len()
                && final(output)@.take(length as int) == self@[position as int],
            final(output)@.skip(length as int) == old(output)@.skip(length as int),
            position >= self@.len() ==> length == 0 && *final(output) == *old(output),
            length <= LINE_CAPACITY,
    {
        proof {
            use_type_invariant(self);
        }
        let index: usize = (self.next + HISTORY_CAPACITY - 1 - position) % HISTORY_CAPACITY;
        assert(index == slot_of(self.next as int, position as int));
        let length: usize = self.lengths[index];
        copy_line(output, slice_subrange(array_as_slice(&self.entries[index]), 0, length));
        assert(self.entries[index as int]@.subrange(0, length as int)
            =~= self.entries[index as int]@.take(length as int));
        assert(length == 0 ==> output@ =~= old(output)@) by {
            assert(output@.skip(0) =~= output@);
            assert(old(output)@.skip(0) =~= old(output)@);
        }
        length
    }
}

/// Whether a line has nothing but white space.
fn all_blank(line: &[u8]) -> (blank: bool)
    ensures
        blank == is_blank(line@),
{
    let mut index: usize = 0;
    while index < line.len()
        invariant
            index <= line@.len(),
            forall|i: int| 0 <= i < index ==> is_blank_byte(#[trigger] line@[i]),
        decreases line@.len() - index,
    {
        let byte: u8 = line[index];
        if !(byte == 0x20 || byte == 0x09 || byte == 0x0a || byte == 0x0c || byte == 0x0d) {
            assert(!is_blank_byte(line@[index as int]));
            return false;
        }
        index += 1;
    }
    true
}

/// Whether a line buffer starts with the given bytes.
fn starts_with(buffer: &[u8; LINE_CAPACITY], line: &[u8]) -> (same: bool)
    requires
        line@.len() <= LINE_CAPACITY,
    ensures
        same == (buffer@.take(line@.len() as int) == line@),
{
    let mut index: usize = 0;
    while index < line.len()
        invariant
            index <= line@.len() <= LINE_CAPACITY,
            forall|i: int| 0 <= i < index ==> buffer@[i] == line@[i],
        decreases line@.len() - index,
    {
        if buffer[index] != line[index] {
            assert(buffer@.take(line@.len() as int)[index as int] != line@[index as int]);
            return false;
        }
        index += 1;
    }
    assert(buffer@.take(line@.len() as int) =~= line@);
    true
}

/// Copies bytes to the start of a line buffer. What follows them stays.
pub(crate) fn copy_line(buffer: &mut [u8; LINE_CAPACITY], line: &[u8])
    requires
        line@.len() <= LINE_CAPACITY,
    ensures
        final(buffer)@.take(line@.len() as int) == line@,
        final(buffer)@.skip(line@.len() as int) == old(buffer)@.skip(line@.len() as int),
{
    let mut index: usize = 0;
    while index < line.len()
        invariant
            index <= line@.len() <= LINE_CAPACITY,
            forall|i: int| 0 <= i < index ==> buffer@[i] == line@[i],
            forall|i: int| line@.len() <= i < LINE_CAPACITY ==> buffer@[i] == old(buffer)@[i],
        decreases line@.len() - index,
    {
        buffer[index] = line[index];
        index += 1;
    }
    assert(buffer@.take(line@.len() as int) =~= line@);
    assert(buffer@.skip(line@.len() as int) =~= old(buffer)@.skip(line@.len() as int));
}

} // verus!
