//! The interactive shell: key by key, what it prints and what it asks of the machine. It
//! prints as it goes and keeps nothing but the line and the history.

pub mod command;
pub mod editor;
pub mod history;
pub mod laws;

use vstd::prelude::*;

use crate::allocator::HeapUsage;
use crate::fat32::model::Geometry;
use crate::fat32::Fat32;
use crate::keyboard::KeyEvent;
use crate::shell::command::{execute, Effect, ResponseModel};
use crate::shell::editor::{EditorModel, LineEditor};
use crate::storage::BlockDevice;
use crate::text::TextSink;
use crate::timer::TickCounter;

verus! {

/// What the boot code found out about physical memory.
#[derive(Debug, Clone, Copy, PartialEq, Eq, Structural)]
pub struct SystemInfo {
    pub usable_frames: usize,
    pub frames_consumed_at_boot: usize,
}

/// What is left to do once the shell has printed, in this order: the machine does
/// something, the prompt is printed, and the cursor is shown.
#[derive(Debug, Clone, Copy, PartialEq, Eq, Structural)]
pub struct Reaction {
    pub effect: Effect,
    pub prompts: bool,
    pub show_cursor: bool,
}

/// What the shell does on a key: it prints, and leaves the rest to the machine.
#[verifier::ext_equal]
pub struct ReactionModel {
    pub text: Seq<char>,
    pub next: Reaction,
}

/// Text that leaves the cursor on the line.
pub open spec fn drawing(text: Seq<char>) -> ReactionModel {
    ReactionModel {
        text,
        next: Reaction { effect: Effect::Nothing, prompts: false, show_cursor: true },
    }
}

/// Nothing at all.
pub open spec fn no_reaction() -> ReactionModel {
    ReactionModel {
        text: Seq::empty(),
        next: Reaction { effect: Effect::Nothing, prompts: false, show_cursor: false },
    }
}

/// An answer on a line of its own, and a new prompt where the machine still runs.
pub open spec fn answer(response: ResponseModel) -> ReactionModel {
    let stops = response.effect is Reboot || response.effect is Halt;
    ReactionModel {
        text: "\n"@ + response.text,
        next: Reaction { effect: response.effect, prompts: !stops, show_cursor: !stops },
    }
}

/// What the shell does on a key: Enter has the line carried out, other keys edit it.
pub open spec fn reaction_to<D: BlockDevice>(
    device: D,
    geometry: Geometry,
    system: SystemInfo,
    ticks: u64,
    heap: HeapUsage,
    editor: EditorModel,
    event: KeyEvent,
) -> ReactionModel {
    if event is Enter {
        answer(
            command::response_to(
                device,
                geometry,
                system,
                ticks,
                heap,
                command::command_of(editor.line),
            ),
        )
    } else if editor.redraws(event) {
        drawing(editor.after(event).redraw_text(editor.displayed))
    } else {
        no_reaction()
    }
}

/// Prints the prompt.
pub fn prompt<S: TextSink>(console: &mut S)
    ensures
        final(console).written() == old(console).written() + "sol> "@,
{
    console.write_str("sol> ");
}

/// Prints what stands before the first key: a greeting and the prompt.
pub fn start<S: TextSink>(console: &mut S)
    ensures
        final(console).written() == old(console).written()
            + "\nSol OS shell — type 'help' for commands.\n"@ + "sol> "@,
{
    console.write_str("\nSol OS shell — type 'help' for commands.\n");
    prompt(console);
}

/// Runs the shell by one key.
pub fn run<D: BlockDevice, S: TextSink>(
    editor: &mut LineEditor,
    filesystem: &Fat32<'_, D>,
    system: SystemInfo,
    counter: &TickCounter,
    heap: HeapUsage,
    event: KeyEvent,
    console: &mut S,
) -> (next: Reaction)
    requires
        old(editor).well_formed(),
    ensures
        final(editor).well_formed(),
        final(editor)@ == old(editor)@.after(event),
        ({
            let reaction = reaction_to(
                filesystem.device(),
                filesystem.geometry(),
                system,
                counter@,
                heap,
                old(editor)@,
                event,
            );
            &&& final(console).written() == old(console).written() + reaction.text
            &&& next == reaction.next
        }),
{
    if let KeyEvent::Enter = event {
        console.write_str("\n");
        let effect: Effect = execute(filesystem, system, counter, heap, editor.line(), console);
        let ghost printed = console.written();
        let _ = editor.edit(event, console);
        assert(console.written() =~= printed);
        let stops: bool = match effect {
            Effect::Reboot | Effect::Halt => true,
            Effect::Nothing | Effect::ClearScreen => false,
        };
        return Reaction { effect, prompts: !stops, show_cursor: !stops };
    }
    let redrawn: bool = editor.edit(event, console);
    Reaction { effect: Effect::Nothing, prompts: false, show_cursor: redrawn }
}

} // verus!
