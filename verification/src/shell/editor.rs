//! The line editor: what each key does to the command line, and how the line is redrawn.

use vstd::array::array_as_slice;
use vstd::prelude::*;
use vstd::slice::slice_subrange;

use crate::fat32::model;
use crate::keyboard::KeyEvent;
use crate::shell::history;
use crate::shell::history::{CommandHistory, HISTORY_CAPACITY, LINE_CAPACITY};
use crate::text::TextSink;

verus! {

/// Spaces that Tab inserts.
pub const TAB_WIDTH: usize = 4;

/// The line being edited and what surrounds it: how much of the screen row the last
/// drawing covered, the history, the place in it that is browsed, and the line that was
/// there before browsing.
#[verifier::ext_equal]
pub struct EditorModel {
    pub line: Seq<u8>,
    pub cursor: int,
    pub displayed: int,
    pub history: Seq<Seq<u8>>,
    pub position: Option<usize>,
    pub draft: Seq<u8>,
}

/// A number of equal bytes.
pub open spec fn run_of(byte: u8, count: nat) -> Seq<u8> {
    Seq::new(count, |i: int| byte)
}

impl EditorModel {
    /// The editor before the first key.
    pub open spec fn empty() -> EditorModel {
        EditorModel {
            line: Seq::empty(),
            cursor: 0,
            displayed: 0,
            history: Seq::empty(),
            position: None,
            draft: Seq::empty(),
        }
    }

    /// The bounds that the editor keeps.
    pub open spec fn well_formed(self) -> bool {
        &&& self.line.len() <= LINE_CAPACITY
        &&& 0 <= self.cursor <= self.line.len()
        &&& 0 <= self.displayed <= LINE_CAPACITY
        &&& self.draft.len() <= LINE_CAPACITY
        &&& self.history.len() <= HISTORY_CAPACITY
        &&& forall|i: int|
            0 <= i < self.history.len() ==> (#[trigger] self.history[i]).len() <= LINE_CAPACITY
        &&& self.position matches Some(position) ==> position < self.history.len()
    }

    /// The line after an edit. Editing leaves the history.
    pub open spec fn edited(self, line: Seq<u8>, cursor: int) -> EditorModel {
        EditorModel { line, cursor, displayed: line.len() as int, position: None, ..self }
    }

    /// The line after the cursor moved.
    pub open spec fn moved(self, cursor: int) -> EditorModel {
        EditorModel { cursor, displayed: self.line.len() as int, ..self }
    }

    /// The line with `count` copies of a byte typed at the cursor, where they fit.
    pub open spec fn typed(self, byte: u8, count: nat) -> EditorModel {
        if self.line.len() + count <= LINE_CAPACITY {
            self.edited(
                self.line.take(self.cursor) + run_of(byte, count) + self.line.skip(self.cursor),
                self.cursor + count,
            )
        } else {
            self
        }
    }

    /// The line replaced by another from the history, or by the draft.
    pub open spec fn recalled(self, line: Seq<u8>, position: Option<usize>) -> EditorModel {
        EditorModel {
            line,
            cursor: line.len() as int,
            displayed: line.len() as int,
            position,
            ..self
        }
    }

    /// Whether a key makes the line be drawn again.
    pub open spec fn redraws(self, event: KeyEvent) -> bool {
        match event {
            KeyEvent::Enter => false,
            KeyEvent::Backspace => self.cursor > 0,
            KeyEvent::Delete => self.cursor < self.line.len(),
            KeyEvent::Tab => self.line.len() + TAB_WIDTH <= LINE_CAPACITY,
            KeyEvent::Character(_) => self.line.len() < LINE_CAPACITY,
            KeyEvent::Left => self.cursor > 0,
            KeyEvent::Right => self.cursor < self.line.len(),
            KeyEvent::Home => true,
            KeyEvent::End => true,
            KeyEvent::Up => history::older(self.history, self.position) is Some,
            KeyEvent::Down => history::newer(self.position) is Some,
        }
    }

    /// What a key does.
    pub open spec fn after(self, event: KeyEvent) -> EditorModel {
        match event {
            KeyEvent::Enter => EditorModel {
                line: Seq::empty(),
                cursor: 0,
                displayed: 0,
                history: history::remembered(self.history, self.line),
                position: None,
                ..self
            },
            KeyEvent::Backspace => if self.cursor > 0 {
                self.edited(self.line.remove(self.cursor - 1), self.cursor - 1)
            } else {
                self
            },
            KeyEvent::Delete => if self.cursor < self.line.len() {
                self.edited(self.line.remove(self.cursor), self.cursor)
            } else {
                self
            },
            KeyEvent::Tab => self.typed(0x20, TAB_WIDTH as nat),
            KeyEvent::Character(byte) => self.typed(byte, 1),
            KeyEvent::Left => if self.cursor > 0 {
                self.moved(self.cursor - 1)
            } else {
                self
            },
            KeyEvent::Right => if self.cursor < self.line.len() {
                self.moved(self.cursor + 1)
            } else {
                self
            },
            KeyEvent::Home => self.moved(0),
            KeyEvent::End => self.moved(self.line.len() as int),
            KeyEvent::Up => match history::older(self.history, self.position) {
                None => self,
                Some(position) => EditorModel {
                    draft: if self.position is None {
                        self.line
                    } else {
                        self.draft
                    },
                    ..self.recalled(self.history[position as int], Some(position))
                },
            },
            KeyEvent::Down => match history::newer(self.position) {
                None => self,
                Some(Some(position)) => self.recalled(
                    self.history[position as int],
                    Some(position),
                ),
                Some(None) => self.recalled(self.draft, None),
            },
        }
    }

    /// The text that draws the line over what was displayed before and leaves the cursor
    /// where it belongs.
    pub open spec fn redraw_text(self, displayed: int) -> Seq<char> {
        "\rsol> "@ + model::ascii_text(self.line) + Seq::new(
            if displayed > self.line.len() {
                (displayed - self.line.len()) as nat
            } else {
                0
            },
            |i: int| ' ',
        ) + "\rsol> "@ + model::ascii_text(self.line.take(self.cursor))
    }
}

/// The state of the line editor.
pub struct LineEditor {
    line: [u8; LINE_CAPACITY],
    length: usize,
    cursor: usize,
    displayed_length: usize,
    history: CommandHistory,
    history_position: Option<usize>,
    draft: [u8; LINE_CAPACITY],
    draft_length: usize,
}

impl View for LineEditor {
    type V = EditorModel;

    closed spec fn view(&self) -> EditorModel {
        EditorModel {
            line: self.line@.take(self.length as int),
            cursor: self.cursor as int,
            displayed: self.displayed_length as int,
            history: self.history@,
            position: self.history_position,
            draft: self.draft@.take(self.draft_length as int),
        }
    }
}

/// Takes one byte out of the first `length` bytes of a line buffer.
fn remove_byte(line: &mut [u8; LINE_CAPACITY], length: usize, index: usize)
    requires
        index < length <= LINE_CAPACITY,
    ensures
        final(line)@.take(length - 1) == old(line)@.take(length as int).remove(index as int),
{
    let mut at: usize = index;
    while at + 1 < length
        invariant
            index <= at < length <= LINE_CAPACITY,
            forall|i: int| 0 <= i < index ==> line@[i] == old(line)@[i],
            forall|i: int| index <= i < at ==> line@[i] == old(line)@[i + 1],
            forall|i: int| at < i < LINE_CAPACITY ==> line@[i] == old(line)@[i],
        decreases length - at,
    {
        let moved: u8 = line[at + 1];
        line[at] = moved;
        at += 1;
    }
    assert(line@.take(length - 1) =~= old(line)@.take(length as int).remove(index as int));
}

/// Puts `count` copies of a byte into the first `length` bytes of a line buffer.
fn insert_bytes(
    line: &mut [u8; LINE_CAPACITY],
    length: usize,
    index: usize,
    byte: u8,
    count: usize,
)
    requires
        index <= length,
        length + count <= LINE_CAPACITY,
    ensures
        final(line)@.take(length + count) == old(line)@.take(index as int) + run_of(
            byte,
            count as nat,
        ) + old(line)@.subrange(index as int, length as int),
{
    let mut at: usize = length;
    while at > index
        invariant
            index <= at <= length,
            length + count <= LINE_CAPACITY,
            forall|i: int| 0 <= i < at ==> line@[i] == old(line)@[i],
            forall|i: int| at + count <= i < length + count ==> line@[i] == old(line)@[i - count],
        decreases at,
    {
        at -= 1;
        let moved: u8 = line[at];
        line[at + count] = moved;
    }
    let mut filled: usize = 0;
    while filled < count
        invariant
            index <= length,
            filled <= count,
            length + count <= LINE_CAPACITY,
            forall|i: int| 0 <= i < index ==> line@[i] == old(line)@[i],
            forall|i: int| index <= i < index + filled ==> line@[i] == byte,
            forall|i: int|
                index + count <= i < length + count ==> line@[i] == old(line)@[i - count],
        decreases count - filled,
    {
        line[index + filled] = byte;
        filled += 1;
    }
    assert(line@.take(length + count) =~= old(line)@.take(index as int) + run_of(
        byte,
        count as nat,
    ) + old(line)@.subrange(index as int, length as int));
}

/// Prints bytes, one character each.
fn print_ascii<S: TextSink>(console: &mut S, bytes: &[u8])
    ensures
        final(console).written() == old(console).written() + model::ascii_text(bytes@),
{
    let mut index: usize = 0;
    assert(console.written() =~= old(console).written() + model::ascii_text(bytes@.take(0)));
    while index < bytes.len()
        invariant
            index <= bytes@.len(),
            console.written() == old(console).written() + model::ascii_text(
                bytes@.take(index as int),
            ),
        decreases bytes@.len() - index,
    {
        console.write_char(bytes[index] as char);
        index += 1;
        assert(console.written() =~= old(console).written() + model::ascii_text(
            bytes@.take(index as int),
        ));
    }
    assert(bytes@.take(index as int) =~= bytes@);
}

impl LineEditor {
    /// The bounds that the editor keeps.
    pub closed spec fn well_formed(&self) -> bool {
        &&& self.length <= LINE_CAPACITY
        &&& self.draft_length <= LINE_CAPACITY
        &&& self@.well_formed()
    }

    /// An editor with an empty line and no history.
    pub fn new() -> (editor: Self)
        ensures
            editor.well_formed(),
            editor@ == EditorModel::empty(),
    {
        let editor: LineEditor = LineEditor {
            line: [0; LINE_CAPACITY],
            length: 0,
            cursor: 0,
            displayed_length: 0,
            history: CommandHistory::new(),
            history_position: None,
            draft: [0; LINE_CAPACITY],
            draft_length: 0,
        };
        assert(editor@ =~= EditorModel::empty());
        editor
    }

    /// The line as it stands.
    pub fn line(&self) -> (line: &[u8])
        requires
            self.well_formed(),
        ensures
            line@ == self@.line,
    {
        assert(self.line@.subrange(0, self.length as int) =~= self.line@.take(self.length as int));
        slice_subrange(array_as_slice(&self.line), 0, self.length)
    }

    /// Draws the line over what was displayed before.
    fn redraw<S: TextSink>(&mut self, console: &mut S)
        requires
            old(self).length <= LINE_CAPACITY,
            old(self).cursor <= old(self).length,
        ensures
            final(console).written() == old(console).written() + old(self)@.redraw_text(
                old(self)@.displayed,
            ),
            *final(self) == (LineEditor { displayed_length: old(self).length, ..*old(self) }),
    {
        console.write_str("\rsol> ");
        print_ascii(console, slice_subrange(array_as_slice(&self.line), 0, self.length));
        assert(self.line@.subrange(0, self.length as int) =~= self@.line);
        let ghost drawn = console.written();
        let mut column: usize = self.length;
        assert(drawn =~= drawn + Seq::new(0, |i: int| ' '));
        while column < self.displayed_length
            invariant
                self.length <= column,
                column <= self.displayed_length || column == self.length,
                console.written() == drawn + Seq::new(
                    (column - self.length) as nat,
                    |i: int| ' ',
                ),
            decreases self.displayed_length - column,
        {
            console.write_char(' ');
            column += 1;
            assert(console.written() =~= drawn + Seq::new(
                (column - self.length) as nat,
                |i: int| ' ',
            ));
        }
        console.write_str("\rsol> ");
        print_ascii(console, slice_subrange(array_as_slice(&self.line), 0, self.cursor));
        assert(self.line@.subrange(0, self.cursor as int) =~= self@.line.take(
            self.cursor as int,
        ));
        self.displayed_length = self.length;
        assert(console.written() =~= old(console).written() + old(self)@.redraw_text(
            old(self)@.displayed,
        ));
    }
}

impl LineEditor {
    /// Shows the history's command at `position`.
    fn recall(&mut self, position: usize)
        requires
            old(self).well_formed(),
            position < old(self)@.history.len(),
        ensures
            final(self)@ == (EditorModel {
                displayed: old(self)@.displayed,
                ..old(self)@.recalled(old(self)@.history[position as int], Some(position))
            }),
            final(self).well_formed(),
    {
        self.history_position = Some(position);
        self.length = self.history.copy_into(position, &mut self.line);
        self.cursor = self.length;
        assert(self@.history == old(self)@.history);
    }

    /// Applies one key and redraws the line where it has to be redrawn, which it tells.
    pub fn edit<S: TextSink>(&mut self, event: KeyEvent, console: &mut S) -> (redrawn: bool)
        requires
            old(self).well_formed(),
        ensures
            final(self).well_formed(),
            final(self)@ == old(self)@.after(event),
            redrawn <==> old(self)@.redraws(event),
            final(console).written() == old(console).written() + (if redrawn {
                final(self)@.redraw_text(old(self)@.displayed)
            } else {
                Seq::empty()
            }),
    {
        let ghost before = self@;
        match event {
            KeyEvent::Enter => {
                self.history.push(
                    slice_subrange(array_as_slice(&self.line), 0, self.length),
                );
                assert(before.line =~= self.line@.subrange(0, self.length as int));
                self.length = 0;
                self.cursor = 0;
                self.displayed_length = 0;
                self.history_position = None;
                assert(self@ =~= before.after(event));
                return false;
            },
            KeyEvent::Backspace => {
                if self.cursor == 0 {
                    return false;
                }
                remove_byte(&mut self.line, self.length, self.cursor - 1);
                self.length = self.length - 1;
                self.cursor = self.cursor - 1;
                self.history_position = None;
            },
            KeyEvent::Delete => {
                if self.cursor >= self.length {
                    return false;
                }
                remove_byte(&mut self.line, self.length, self.cursor);
                self.length = self.length - 1;
                self.history_position = None;
            },
            KeyEvent::Tab => {
                if self.length + TAB_WIDTH > LINE_CAPACITY {
                    return false;
                }
                self.insert(0x20, TAB_WIDTH);
            },
            KeyEvent::Character(byte) => {
                if self.length >= LINE_CAPACITY {
                    return false;
                }
                self.insert(byte, 1);
            },
            KeyEvent::Left => {
                if self.cursor == 0 {
                    return false;
                }
                self.cursor = self.cursor - 1;
            },
            KeyEvent::Right => {
                if self.cursor >= self.length {
                    return false;
                }
                self.cursor = self.cursor + 1;
            },
            KeyEvent::Home => {
                self.cursor = 0;
            },
            KeyEvent::End => {
                self.cursor = self.length;
            },
            KeyEvent::Up => {
                match self.history.previous(
                    self.history_position,
                    &self.line,
                    self.length,
                    &mut self.draft,
                    &mut self.draft_length,
                ) {
                    None => return false,
                    Some(position) => self.recall(position),
                }
            },
            KeyEvent::Down => {
                match self.history.next(self.history_position) {
                    None => return false,
                    Some(Some(position)) => self.recall(position),
                    Some(None) => {
                        let length: usize = self.draft_length;
                        history::copy_line(
                            &mut self.line,
                            slice_subrange(array_as_slice(&self.draft), 0, length),
                        );
                        assert(self.draft@.subrange(0, length as int) =~= before.draft);
                        self.length = length;
                        self.cursor = length;
                        self.history_position = None;
                    },
                }
            },
        }
        self.redraw(console);
        assert(self@ =~= before.after(event));
        true
    }

    /// Types `count` copies of a byte at the cursor.
    fn insert(&mut self, byte: u8, count: usize)
        requires
            old(self).well_formed(),
            old(self)@.line.len() + count <= LINE_CAPACITY,
        ensures
            final(self)@ == (EditorModel {
                displayed: old(self)@.displayed,
                ..old(self)@.typed(byte, count as nat)
            }),
            final(self).well_formed(),
    {
        insert_bytes(&mut self.line, self.length, self.cursor, byte, count);
        self.length = self.length + count;
        self.cursor = self.cursor + count;
        self.history_position = None;
        assert(self@.line =~= old(self)@.line.take(old(self)@.cursor) + run_of(byte, count as nat)
            + old(self)@.line.skip(old(self)@.cursor));
    }
}

} // verus!
