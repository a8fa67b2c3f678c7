//! What holds of the line editor and the history as a whole.

use vstd::prelude::*;

use crate::allocator::HeapUsage;
use crate::fat32::model;
use crate::fat32::model::Geometry;
use crate::framebuffer;
use crate::framebuffer::{FrameBufferInfo, ScreenModel, ADVANCE, BORDER};
use crate::keyboard::KeyEvent;
use crate::shell;
use crate::shell::command;
use crate::shell::editor::{EditorModel, TAB_WIDTH};
use crate::shell::history;
use crate::shell::history::{HISTORY_CAPACITY, LINE_CAPACITY};
use crate::shell::SystemInfo;
use crate::storage::BlockDevice;

verus! {

/// No key takes the editor out of its bounds: the line stays within its capacity, the
/// cursor within the line, and the browsed command within the history.
pub proof fn law_keys_keep_bounds(editor: EditorModel, event: KeyEvent)
    requires
        editor.well_formed(),
    ensures
        editor.after(event).well_formed(),
{
}

/// What a number of presses of one key does.
pub open spec fn pressed(editor: EditorModel, event: KeyEvent, times: nat) -> EditorModel
    decreases times,
{
    if times == 0 {
        editor
    } else {
        pressed(editor, event, (times - 1) as nat).after(event)
    }
}

/// Up walks from the newest command to the oldest, and stays there.
pub proof fn law_up_walks_history(editor: EditorModel, times: nat)
    requires
        editor.well_formed(),
        editor.position is None,
        editor.history.len() > 0,
        times > 0,
    ensures
        ({
            let browsing = pressed(editor, KeyEvent::Up, times);
            let place = if times <= editor.history.len() {
                times - 1
            } else {
                editor.history.len() - 1
            };
            &&& browsing.position == Some(place as usize)
            &&& browsing.line == editor.history[place]
            &&& browsing.cursor == browsing.line.len()
            &&& browsing.draft == editor.line
            &&& browsing.history == editor.history
        }),
    decreases times,
{
    if times > 1 {
        law_up_walks_history(editor, (times - 1) as nat);
    } else {
        assert(pressed(editor, KeyEvent::Up, 0) == editor);
    }
}

/// Down walks back, and after the newest command the draft comes back.
proof fn lemma_down_reaches_draft(editor: EditorModel, place: nat)
    requires
        editor.well_formed(),
        editor.position == Some(place as usize),
        place < HISTORY_CAPACITY,
    ensures
        ({
            let back = pressed(editor, KeyEvent::Down, place + 1);
            &&& back.position is None
            &&& back.line == editor.draft
            &&& back.cursor == editor.draft.len()
            &&& back.history == editor.history
        }),
{
    lemma_down_steps(editor, place, place);
}

proof fn lemma_down_steps(editor: EditorModel, place: nat, times: nat)
    requires
        editor.well_formed(),
        editor.position == Some(place as usize),
        place < HISTORY_CAPACITY,
        times <= place,
    ensures
        ({
            let back = pressed(editor, KeyEvent::Down, times);
            &&& back.position == Some((place - times) as usize)
            &&& back.draft == editor.draft
            &&& back.history == editor.history
        }),
    decreases times,
{
    if times > 0 {
        lemma_down_steps(editor, place, (times - 1) as nat);
    }
}

/// Browsing loses nothing: after any number of presses of Up, as many presses of Down as
/// there were commands passed bring the unfinished line back.
pub proof fn law_down_restores_draft(editor: EditorModel, times: nat)
    requires
        editor.well_formed(),
        editor.position is None,
        editor.history.len() > 0,
        times > 0,
    ensures
        ({
            let passed = if times <= editor.history.len() {
                times
            } else {
                editor.history.len()
            };
            let back = pressed(
                pressed(editor, KeyEvent::Up, times),
                KeyEvent::Down,
                passed,
            );
            &&& back.line == editor.line
            &&& back.position is None
            &&& back.history == editor.history
        }),
{
    law_up_walks_history(editor, times);
    let browsing = pressed(editor, KeyEvent::Up, times);
    let place = if times <= editor.history.len() {
        times - 1
    } else {
        editor.history.len() - 1
    };
    lemma_pressed_keeps_bounds(editor, KeyEvent::Up, times);
    lemma_down_reaches_draft(browsing, place as nat);
}

proof fn lemma_pressed_keeps_bounds(editor: EditorModel, event: KeyEvent, times: nat)
    requires
        editor.well_formed(),
    ensures
        pressed(editor, event, times).well_formed(),
    decreases times,
{
    if times > 0 {
        lemma_pressed_keeps_bounds(editor, event, (times - 1) as nat);
        law_keys_keep_bounds(pressed(editor, event, (times - 1) as nat), event);
    }
}

/// Backspace takes back the character typed just before.
pub proof fn law_backspace_undoes_typing(editor: EditorModel, byte: u8)
    requires
        editor.well_formed(),
        editor.line.len() < LINE_CAPACITY,
    ensures
        ({
            let undone = editor.after(KeyEvent::Character(byte)).after(KeyEvent::Backspace);
            &&& undone.line == editor.line
            &&& undone.cursor == editor.cursor
        }),
{
    let typed = editor.after(KeyEvent::Character(byte));
    assert(typed.line.remove(typed.cursor - 1) =~= editor.line);
}

/// Delete does what moving right and Backspace do.
pub proof fn law_delete_is_right_then_backspace(editor: EditorModel)
    requires
        editor.well_formed(),
        editor.cursor < editor.line.len(),
    ensures
        editor.after(KeyEvent::Delete) == editor.after(KeyEvent::Right).after(
            KeyEvent::Backspace,
        ),
{
}

/// Tab is four spaces, wherever all four fit.
pub proof fn law_tab_is_four_spaces(editor: EditorModel)
    requires
        editor.well_formed(),
        editor.line.len() + TAB_WIDTH <= LINE_CAPACITY,
    ensures
        editor.after(KeyEvent::Tab) == pressed(editor, KeyEvent::Character(0x20), 4),
{
    let one = pressed(editor, KeyEvent::Character(0x20), 1);
    let two = pressed(editor, KeyEvent::Character(0x20), 2);
    let three = pressed(editor, KeyEvent::Character(0x20), 3);
    let four = pressed(editor, KeyEvent::Character(0x20), 4);
    let tab = editor.after(KeyEvent::Tab);
    assert(pressed(editor, KeyEvent::Character(0x20), 0) == editor);
    assert(one == editor.typed(0x20, 1));
    assert(two == one.typed(0x20, 1));
    assert(three == two.typed(0x20, 1));
    assert(four == three.typed(0x20, 1));
    assert(tab.line =~= four.line);
}

/// Moving the cursor changes nothing that was typed and leaves the place in the history.
pub proof fn law_moving_changes_no_text(editor: EditorModel, event: KeyEvent)
    requires
        event is Left || event is Right || event is Home || event is End,
    ensures
        ({
            let moved = editor.after(event);
            &&& moved.line == editor.line
            &&& moved.history == editor.history
            &&& moved.position == editor.position
            &&& moved.draft == editor.draft
        }),
{
}

/// A full line takes no more characters.
pub proof fn law_full_line_takes_nothing(editor: EditorModel, byte: u8)
    requires
        editor.well_formed(),
        editor.line.len() == LINE_CAPACITY,
    ensures
        editor.after(KeyEvent::Character(byte)) == editor,
        editor.after(KeyEvent::Tab) == editor,
{
}

/// What the history keeps to: at most sixteen commands, none of them blank, no two equal
/// ones in a row.
pub open spec fn proper_history(commands: Seq<Seq<u8>>) -> bool {
    &&& commands.len() <= HISTORY_CAPACITY
    &&& forall|i: int| 0 <= i < commands.len() ==> !history::is_blank(#[trigger] commands[i])
    &&& forall|i: int|
        0 < i < commands.len() ==> (#[trigger] commands[i]) != commands[i - 1]
}

/// Entering lines keeps the history proper.
pub proof fn law_history_stays_proper(commands: Seq<Seq<u8>>, line: Seq<u8>)
    requires
        proper_history(commands),
    ensures
        proper_history(history::remembered(commands, line)),
{
    let after = history::remembered(commands, line);
    if after != commands {
        assert forall|i: int| 0 < i < after.len() implies (#[trigger] after[i]) != after[i - 1] by {
            assert(after[i] == commands[i - 1]);
            if i > 1 {
                assert(after[i - 1] == commands[i - 2]);
            }
        }
    }
}

/// The history after a number of lines.
pub open spec fn entered(commands: Seq<Seq<u8>>, lines: Seq<Seq<u8>>) -> Seq<Seq<u8>>
    decreases lines.len(),
{
    if lines.len() == 0 {
        commands
    } else {
        history::remembered(entered(commands, lines.drop_last()), lines.last())
    }
}

/// The history holds the last sixteen commands, newest first.
pub proof fn law_history_holds_last_commands(lines: Seq<Seq<u8>>)
    requires
        forall|i: int| 0 <= i < lines.len() ==> !history::is_blank(#[trigger] lines[i]),
        forall|i: int| 0 < i < lines.len() ==> (#[trigger] lines[i]) != lines[i - 1],
    ensures
        ({
            let kept = entered(Seq::empty(), lines);
            &&& kept.len() == if lines.len() < HISTORY_CAPACITY {
                lines.len() as int
            } else {
                HISTORY_CAPACITY as int
            }
            &&& forall|i: int|
                0 <= i < kept.len() ==> (#[trigger] kept[i]) == lines[lines.len() - 1 - i]
        }),
    decreases lines.len(),
{
    if lines.len() > 0 {
        let before = lines.drop_last();
        assert forall|i: int| 0 <= i < before.len() implies !history::is_blank(
            #[trigger] before[i],
        ) by {
            assert(before[i] == lines[i]);
        }
        assert forall|i: int| 0 < i < before.len() implies (#[trigger] before[i]) != before[i
            - 1] by {
            assert(before[i] == lines[i]);
        }
        law_history_holds_last_commands(before);
        let kept = entered(Seq::empty(), before);
        assert(!history::is_blank(lines[lines.len() - 1]));
        if kept.len() > 0 {
            assert(kept[0] == before[before.len() - 1]);
            assert(lines[lines.len() - 1] != lines[lines.len() - 2]);
        }
    }
}

/// A row of a console: its cells, and the column that is written next.
pub struct Row {
    pub cells: Seq<char>,
    pub column: int,
}

/// A carriage return goes back to the start of the row; anything else fills a cell.
pub open spec fn put(row: Row, character: char) -> Row {
    if character == '\r' {
        Row { column: 0, ..row }
    } else {
        Row { cells: row.cells.update(row.column, character), column: row.column + 1 }
    }
}

/// What a text does to a row.
pub open spec fn put_text(row: Row, text: Seq<char>) -> Row
    decreases text.len(),
{
    if text.len() == 0 {
        row
    } else {
        put(put_text(row, text.drop_last()), text.last())
    }
}

proof fn lemma_put_parts(row: Row, first: Seq<char>, second: Seq<char>)
    ensures
        put_text(row, first + second) == put_text(put_text(row, first), second),
    decreases second.len(),
{
    if second.len() == 0 {
        assert(first + second =~= first);
    } else {
        assert((first + second).drop_last() =~= first + second.drop_last());
        lemma_put_parts(row, first, second.drop_last());
    }
}

/// Text without carriage returns fills the cells from the column on.
proof fn lemma_put_plain(row: Row, text: Seq<char>)
    requires
        0 <= row.column,
        row.column + text.len() <= row.cells.len(),
        forall|i: int| 0 <= i < text.len() ==> (#[trigger] text[i]) != '\r',
    ensures
        put_text(row, text) == (Row {
            cells: row.cells.take(row.column) + text + row.cells.skip(row.column + text.len()),
            column: row.column + text.len(),
        }),
    decreases text.len(),
{
    if text.len() == 0 {
        assert(row.cells.take(row.column) + text + row.cells.skip(row.column) =~= row.cells);
    } else {
        let before = text.drop_last();
        assert forall|i: int| 0 <= i < before.len() implies (#[trigger] before[i]) != '\r' by {
            assert(before[i] == text[i]);
        }
        lemma_put_plain(row, before);
        assert(text.last() != '\r');
        assert((row.cells.take(row.column) + before + row.cells.skip(
            row.column + before.len(),
        )).update(row.column + before.len(), text.last()) =~= row.cells.take(row.column) + text
            + row.cells.skip(row.column + text.len()));
    }
}

/// Text that starts with a carriage return fills the cells from the first on.
proof fn lemma_put_line(row: Row, text: Seq<char>)
    requires
        text.len() > 0,
        text[0] == '\r',
        text.len() - 1 <= row.cells.len(),
        forall|i: int| 0 < i < text.len() ==> (#[trigger] text[i]) != '\r',
    ensures
        put_text(row, text) == (Row {
            cells: text.skip(1) + row.cells.skip(text.len() - 1),
            column: text.len() - 1,
        }),
{
    let start = seq!['\r'];
    let rest = text.skip(1);
    assert(text =~= start + rest);
    lemma_put_parts(row, start, rest);
    assert(start.drop_last() =~= Seq::<char>::empty());
    assert(put_text(row, start.drop_last()) == row);
    assert(put_text(row, start) == Row { column: 0, ..row });
    assert forall|i: int| 0 <= i < rest.len() implies (#[trigger] rest[i]) != '\r' by {
        assert(rest[i] == text[i + 1]);
    }
    lemma_put_plain(Row { column: 0, ..row }, rest);
    assert(row.cells.take(0) + rest + row.cells.skip(rest.len() as int) =~= rest
        + row.cells.skip(text.len() - 1));
}

/// The row that shows a prompt and a line.
pub open spec fn shown_line(line: Seq<u8>, width: int) -> Seq<char> {
    "sol> "@ + model::ascii_text(line) + Seq::new(
        (width - 5 - line.len()) as nat,
        |i: int| ' ',
    )
}

/// Redrawing shows the line and nothing of what the row showed before, and leaves the
/// cursor at its place in the line.
pub proof fn law_redraw_shows_line(editor: EditorModel, row: Row, displayed: int)
    requires
        editor.well_formed(),
        0 <= displayed <= LINE_CAPACITY,
        row.cells.len() >= LINE_CAPACITY + 5,
        forall|i: int| 5 + displayed <= i < row.cells.len() ==> (#[trigger] row.cells[i]) == ' ',
        forall|i: int| 0 <= i < editor.line.len() ==> (#[trigger] editor.line[i]) != 0x0d,
    ensures
        put_text(row, editor.redraw_text(displayed)) == (Row {
            cells: shown_line(editor.line, row.cells.len() as int),
            column: 5 + editor.cursor,
        }),
{
    reveal_strlit("\rsol> ");
    reveal_strlit("sol> ");
    let line = model::ascii_text(editor.line);
    let blank = Seq::new(
        if displayed > editor.line.len() {
            (displayed - editor.line.len()) as nat
        } else {
            0
        },
        |i: int| ' ',
    );
    let head = model::ascii_text(editor.line.take(editor.cursor));
    let first = "\rsol> "@ + line + blank;
    let second = "\rsol> "@ + head;
    assert(editor.redraw_text(displayed) =~= first + second);
    lemma_put_parts(row, first, second);
    assert forall|i: int| 0 < i < first.len() implies (#[trigger] first[i]) != '\r' by {
        if 6 <= i < 6 + line.len() {
            assert(first[i] == line[i - 6]);
            assert(editor.line[i - 6] != 0x0d);
        }
    }
    lemma_put_line(row, first);
    let drawn = put_text(row, first);
    assert(drawn.cells =~= shown_line(editor.line, row.cells.len() as int));
    assert forall|i: int| 0 < i < second.len() implies (#[trigger] second[i]) != '\r' by {
        if 6 <= i {
            assert(second[i] == head[i - 6]);
            assert(editor.line[i - 6] != 0x0d);
        }
    }
    lemma_put_line(drawn, second);
    assert(second.skip(1) + drawn.cells.skip(second.len() - 1) =~= drawn.cells);
}

/// A line of printable ASCII.
pub open spec fn is_printable(line: Seq<u8>) -> bool {
    forall|i: int| 0 <= i < line.len() ==> 0x20 <= (#[trigger] line[i]) <= 0x7e
}

/// All that the editor holds is printable.
pub open spec fn holds_printable(editor: EditorModel) -> bool {
    &&& is_printable(editor.line)
    &&& is_printable(editor.draft)
    &&& forall|i: int|
        0 <= i < editor.history.len() ==> is_printable(#[trigger] editor.history[i])
}

/// As long as the keyboard gives printable characters, the editor holds nothing else, so
/// no line moves the cursor by itself.
pub proof fn law_editor_stays_printable(editor: EditorModel, event: KeyEvent)
    requires
        editor.well_formed(),
        holds_printable(editor),
        event matches KeyEvent::Character(byte) ==> 0x20 <= byte <= 0x7e,
    ensures
        holds_printable(editor.after(event)),
{
    let after = editor.after(event);
    match event {
        KeyEvent::Enter => {
            assert forall|i: int| 0 <= i < after.history.len() implies is_printable(
                #[trigger] after.history[i],
            ) by {
                if after.history != editor.history {
                    if i == 0 {
                        assert(after.history[0] == editor.line);
                    } else {
                        assert(after.history[i] == editor.history[i - 1]);
                    }
                }
            }
        },
        _ => {},
    }
}

/// A line that was typed is always text: the shell never refuses it as such.
pub proof fn law_typed_lines_are_text(editor: EditorModel)
    requires
        is_printable(editor.line),
    ensures
        !(command::command_of(editor.line) is NotText),
{
    crate::text::law_ascii_is_utf8(editor.line);
}

/// Text that fills a row from a column on and ends before the border.
proof fn lemma_text_stays_on_row(info: FrameBufferInfo, screen: ScreenModel, text: Seq<char>)
    requires
        screen.column + ADVANCE * text.len() + BORDER <= info.width,
        forall|i: int| 0 <= i < text.len() ==> ' ' <= (#[trigger] text[i]) <= '~',
    ensures
        ({
            let written = screen.with_text(info, text);
            &&& written.row == screen.row
            &&& written.column == screen.column + ADVANCE * text.len()
        }),
    decreases text.len(),
{
    assert(ADVANCE == 8);
    if text.len() > 0 {
        let before = text.drop_last();
        assert(ADVANCE * text.len() == ADVANCE * before.len() + ADVANCE) by (nonlinear_arith)
            requires
                text.len() == before.len() + 1,
        ;
        assert forall|i: int| 0 <= i < before.len() implies ' ' <= (#[trigger] before[i])
            <= '~' by {
            assert(before[i] == text[i]);
        }
        lemma_text_stays_on_row(info, screen, before);
        assert(' ' <= text.last() <= '~');
    }
}

/// A carriage return and text that fits leave the row alone.
proof fn lemma_line_stays_on_row(info: FrameBufferInfo, screen: ScreenModel, text: Seq<char>)
    requires
        text.len() > 0,
        text[0] == '\r',
        BORDER + ADVANCE * (text.len() - 1) + BORDER <= info.width,
        forall|i: int| 0 < i < text.len() ==> ' ' <= (#[trigger] text[i]) <= '~',
    ensures
        ({
            let written = screen.with_text(info, text);
            &&& written.row == screen.row
            &&& written.column == BORDER + ADVANCE * (text.len() - 1)
        }),
{
    let start = seq!['\r'];
    let rest = text.skip(1);
    assert(text =~= start + rest);
    framebuffer::laws::law_texts_are_printed_in_order(info, screen, start, rest);
    assert(start.drop_last() =~= Seq::<char>::empty());
    assert(screen.with_text(info, start.drop_last()) == screen);
    let home = screen.with_text(info, start);
    assert(home == ScreenModel { column: BORDER as int, ..screen });
    assert forall|i: int| 0 <= i < rest.len() implies ' ' <= (#[trigger] rest[i]) <= '~' by {
        assert(rest[i] == text[i + 1]);
    }
    lemma_text_stays_on_row(info, home, rest);
}

/// The narrowest screen that holds a prompt and a full line in one row.
pub const ROW_WIDTH: usize = 696;

/// An edited line stays on its row of the screen: redrawing neither wraps nor scrolls, on
/// any screen that holds a full line, and leaves the next letter at the cursor's place in
/// the line.
pub proof fn law_redraw_stays_on_row(
    editor: EditorModel,
    info: FrameBufferInfo,
    screen: ScreenModel,
    displayed: int,
)
    requires
        editor.well_formed(),
        is_printable(editor.line),
        0 <= displayed <= LINE_CAPACITY,
        info.width >= ROW_WIDTH,
    ensures
        ({
            let drawn = screen.with_text(info, editor.redraw_text(displayed));
            &&& drawn.row == screen.row
            &&& drawn.column == BORDER + ADVANCE * (5 + editor.cursor)
        }),
{
    reveal_strlit("\rsol> ");
    let line = model::ascii_text(editor.line);
    let blank = Seq::new(
        if displayed > editor.line.len() {
            (displayed - editor.line.len()) as nat
        } else {
            0
        },
        |i: int| ' ',
    );
    let head = model::ascii_text(editor.line.take(editor.cursor));
    let first = "\rsol> "@ + line + blank;
    let second = "\rsol> "@ + head;
    assert(editor.redraw_text(displayed) =~= first + second);
    framebuffer::laws::law_texts_are_printed_in_order(info, screen, first, second);
    assert forall|i: int| 0 < i < first.len() implies ' ' <= (#[trigger] first[i]) <= '~' by {
        if 6 <= i < 6 + line.len() {
            assert(first[i] == line[i - 6]);
            assert(0x20 <= editor.line[i - 6] <= 0x7e);
        }
    }
    lemma_line_stays_on_row(info, screen, first);
    assert forall|i: int| 0 < i < second.len() implies ' ' <= (#[trigger] second[i]) <= '~' by {
        if 6 <= i {
            assert(second[i] == head[i - 6]);
            assert(0x20 <= editor.line[i - 6] <= 0x7e);
        }
    }
    lemma_line_stays_on_row(info, screen.with_text(info, first), second);
}

/// A typed character stands where the cursor was, the cursor behind it, and all other
/// characters keep their order.
pub proof fn law_typing_inserts_at_cursor(editor: EditorModel, byte: u8, i: int)
    requires
        0 <= editor.cursor <= editor.line.len(),
        editor.line.len() < 80,
        0 <= i <= editor.line.len(),
    ensures
        ({
            let typed = editor.after(KeyEvent::Character(byte));
            &&& typed.line.len() == editor.line.len() + 1
            &&& typed.cursor == editor.cursor + 1
            &&& typed.line[i] == if i < editor.cursor {
                editor.line[i]
            } else if i == editor.cursor {
                byte
            } else {
                editor.line[i - 1]
            }
            &&& typed.position is None
            &&& typed.draft == editor.draft && typed.history == editor.history
        }),
{
}

/// Backspace takes out the character before the cursor, and Delete the one at the cursor;
/// all others keep their order. At the end of the line where there is none, nothing
/// happens.
pub proof fn law_deleting_takes_one_character(editor: EditorModel, i: int)
    requires
        0 <= editor.cursor <= editor.line.len(),
        0 <= i < editor.line.len() - 1,
    ensures
        ({
            let back = editor.after(KeyEvent::Backspace);
            let gone = editor.after(KeyEvent::Delete);
            &&& if editor.cursor == 0 {
                back == editor
            } else {
                &&& back.line.len() == editor.line.len() - 1 && back.cursor == editor.cursor - 1
                &&& back.line[i] == editor.line[if i < editor.cursor - 1 {
                    i
                } else {
                    i + 1
                }]
                &&& back.position is None && back.draft == editor.draft && back.history
                    == editor.history
            }
            &&& if editor.cursor == editor.line.len() {
                gone == editor
            } else {
                &&& gone.line.len() == editor.line.len() - 1 && gone.cursor == editor.cursor
                &&& gone.line[i] == editor.line[if i < editor.cursor {
                    i
                } else {
                    i + 1
                }]
                &&& gone.position is None && gone.draft == editor.draft && gone.history
                    == editor.history
            }
        }),
{
}

/// Deleting the only character leaves an empty line.
pub proof fn law_deleting_last_character_empties_line(editor: EditorModel)
    requires
        editor.line.len() == 1,
    ensures
        editor.cursor == 1 ==> editor.after(KeyEvent::Backspace).line.len() == 0
            && editor.after(KeyEvent::Backspace).cursor == 0,
        editor.cursor == 0 ==> editor.after(KeyEvent::Delete).line.len() == 0
            && editor.after(KeyEvent::Delete).cursor == 0,
{
}

/// Where each moving key takes the cursor: one to the left or to the right within the
/// line, to its start, to its end.
pub proof fn law_cursor_keys(editor: EditorModel)
    requires
        0 <= editor.cursor <= editor.line.len(),
    ensures
        editor.after(KeyEvent::Left).cursor == if editor.cursor > 0 {
            editor.cursor - 1
        } else {
            0
        },
        editor.after(KeyEvent::Right).cursor == if editor.cursor < editor.line.len() {
            editor.cursor + 1
        } else {
            editor.cursor
        },
        editor.after(KeyEvent::Home).cursor == 0,
        editor.after(KeyEvent::End).cursor == editor.line.len(),
{
}

/// Enter empties the line, leaves the history's browsing, and hands the line to the
/// history.
pub proof fn law_enter_empties_line(editor: EditorModel)
    ensures
        ({
            let entered = editor.after(KeyEvent::Enter);
            &&& entered.line.len() == 0 && entered.cursor == 0 && entered.displayed == 0
            &&& entered.position is None
            &&& entered.history == history::remembered(editor.history, editor.line)
        }),
{
}

/// A line is drawn again whenever it or the cursor's place changed, except on Enter, and
/// then what is displayed is the line; else what was displayed still is.
pub proof fn law_changes_are_drawn(editor: EditorModel, event: KeyEvent)
    requires
        editor.well_formed(),
        !(event is Enter),
    ensures
        ({
            let later = editor.after(event);
            &&& later.line != editor.line || later.cursor != editor.cursor ==> editor.redraws(
                event,
            )
            &&& editor.redraws(event) ==> later.displayed == later.line.len()
            &&& !editor.redraws(event) ==> later == editor
            &&& event is Home || event is End ==> editor.redraws(event)
        }),
{
}

/// A line that is entered is kept as the newest, unless it is blank, that is nothing but
/// spaces, tabs, line feeds, form feeds and carriage returns, or the newest already. What
/// was kept before stays behind it, up to fifteen commands.
pub proof fn law_entered_lines_are_kept(commands: Seq<Seq<u8>>, line: Seq<u8>)
    requires
        commands.len() <= 16,
    ensures
        ({
            let kept = history::remembered(commands, line);
            let blank = forall|i: int|
                0 <= i < line.len() ==> {
                    let byte = #[trigger] line[i];
                    byte == 0x20 || byte == 0x09 || byte == 0x0a || byte == 0x0c || byte == 0x0d
                };
            if blank || (commands.len() > 0 && commands[0] == line) {
                kept == commands
            } else {
                &&& kept.len() == if commands.len() < 16 {
                    commands.len() + 1
                } else {
                    16
                }
                &&& kept[0] == line
                &&& forall|i: int| 0 < i < kept.len() ==> (#[trigger] kept[i]) == commands[i - 1]
            }
        }),
{
    assert(history::is_blank(line) <==> forall|i: int|
        0 <= i < line.len() ==> {
            let byte = #[trigger] line[i];
            byte == 0x20 || byte == 0x09 || byte == 0x0a || byte == 0x0c || byte == 0x0d
        }) by {
        if history::is_blank(line) {
            assert forall|i: int| 0 <= i < line.len() implies {
                let byte = #[trigger] line[i];
                byte == 0x20 || byte == 0x09 || byte == 0x0a || byte == 0x0c || byte == 0x0d
            } by {
                assert(history::is_blank_byte(line[i]));
            }
        }
    }
}

/// Up shows the next older command, from the newest on, and stays at the oldest; Down the
/// next newer one, and behind the newest the draft. Without a history Up does nothing, and
/// without browsing Down does nothing.
pub proof fn law_browsing_steps(editor: EditorModel)
    requires
        editor.well_formed(),
    ensures
        ({
            let up = editor.after(KeyEvent::Up);
            let down = editor.after(KeyEvent::Down);
            &&& editor.history.len() == 0 ==> up == editor
            &&& editor.history.len() > 0 ==> {
                let place = match editor.position {
                    None => 0int,
                    Some(at) => if at + 1 < editor.history.len() {
                        at + 1
                    } else {
                        at as int
                    },
                };
                &&& up.position == Some(place as usize)
                &&& up.line == editor.history[place] && up.cursor == up.line.len()
                &&& up.draft == if editor.position is None {
                    editor.line
                } else {
                    editor.draft
                }
            }
            &&& match editor.position {
                None => down == editor,
                Some(at) => {
                    &&& at == 0 ==> down.line == editor.draft && down.position is None
                    &&& at > 0 ==> down.line == editor.history[at - 1] && down.position == Some(
                        (at - 1) as usize,
                    )
                    &&& down.cursor == down.line.len() && down.draft == editor.draft
                },
            }
            &&& up.history == editor.history && down.history == editor.history
        }),
{
}

/// What the shell does on Enter: a new line, the answer, what the answer has the machine
/// do, and a new prompt with the cursor, unless the machine stops. On any other key it
/// draws the line and shows the cursor, or does nothing at all.
pub proof fn law_reactions<D: BlockDevice>(
    device: D,
    geometry: Geometry,
    system: SystemInfo,
    ticks: u64,
    heap: HeapUsage,
    editor: EditorModel,
    event: KeyEvent,
)
    ensures
        ({
            let reaction = shell::reaction_to(
                device,
                geometry,
                system,
                ticks,
                heap,
                editor,
                event,
            );
            let response = command::response_to(
                device,
                geometry,
                system,
                ticks,
                heap,
                command::command_of(editor.line),
            );
            if event is Enter {
                &&& reaction.text.len() == 1 + response.text.len()
                &&& reaction.text[0] == '\n' && reaction.text.skip(1) == response.text
                &&& reaction.next.effect == response.effect
                &&& reaction.next.prompts == reaction.next.show_cursor
                &&& reaction.next.prompts <==> !(command::command_of(editor.line) is Reboot)
                    && !(command::command_of(editor.line) is Halt)
            } else {
                &&& reaction.next.effect is Nothing && !reaction.next.prompts
                &&& reaction.next.show_cursor <==> editor.redraws(event)
                &&& reaction.text == if editor.redraws(event) {
                    editor.after(event).redraw_text(editor.displayed)
                } else {
                    Seq::empty()
                }
            }
        }),
{
    reveal_strlit("\n");
    let response = command::response_to(
        device,
        geometry,
        system,
        ticks,
        heap,
        command::command_of(editor.line),
    );
    assert(("\n"@ + response.text).skip(1) =~= response.text);
}

/// Tab fits four spaces or does nothing, and a character fits as long as the line has fewer
/// than eighty bytes.
pub proof fn law_lines_hold_eighty_bytes(editor: EditorModel, byte: u8)
    requires
        0 <= editor.cursor <= editor.line.len(),
    ensures
        editor.line.len() > 76 ==> editor.after(KeyEvent::Tab) == editor,
        editor.line.len() <= 76 ==> editor.after(KeyEvent::Tab).line.len() == editor.line.len() + 4
            && editor.after(KeyEvent::Tab).cursor == editor.cursor + 4,
        editor.line.len() >= 80 ==> editor.after(KeyEvent::Character(byte)) == editor,
{
}

/// The editor starts with nothing to undo: there is nothing to delete, to browse or to blank
/// out, so that only a typed key changes what it holds.
pub proof fn law_editor_starts_with_nothing(event: KeyEvent)
    requires
        !(event is Character) && !(event is Tab) && !(event is Enter),
    ensures
        EditorModel::empty().displayed == 0,
        EditorModel::empty().after(event).line.len() == 0,
        EditorModel::empty().after(event).cursor == 0,
        EditorModel::empty().after(event).displayed == 0,
        EditorModel::empty().after(event).history.len() == 0,
        EditorModel::empty().after(event).position is None,
        EditorModel::empty().after(event).draft.len() == 0,
{
}

} // verus!
