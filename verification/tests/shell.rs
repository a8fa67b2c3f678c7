use sol_os::allocator::BumpAllocator;
use sol_os::fat32::{Fat32, FsError};
use sol_os::keyboard::KeyEvent;
use sol_os::shell::command::{
    execute, parse_command, print_file_chunk, print_fs_error, terminal_codes, Command, Effect,
};
use sol_os::shell::editor::LineEditor;
use sol_os::shell::history::CommandHistory;
use sol_os::shell::{prompt, run, start, Reaction, SystemInfo};
use sol_os::storage::{BlockDevice, StorageError, SECTOR_SIZE};
use sol_os::text::TextSink;
use sol_os::timer::{tick, TickCounter};

const RESERVED: u32 = 32;
const FAT_SECTORS: u32 = 600;
const CLUSTERS: u32 = 70_000;
const FIRST_DATA: u32 = RESERVED + FAT_SECTORS;

/// A small volume: the directory `DOCS`, `HELLO.TXT`, and `RAW.BIN` with bytes that are
/// not text. `DOCS` cannot be read.
struct SmallDisk;

fn slot(output: &mut [u8; SECTOR_SIZE], index: usize, name: &[u8; 11], attributes: u8, cluster: u8, size: u8) {
    let at = 32 * index;
    output[at..at + 11].copy_from_slice(name);
    output[at + 11] = attributes;
    output[at + 26] = cluster;
    output[at + 28] = size;
}

impl BlockDevice for SmallDisk {
    fn sector_count(&self) -> u64 {
        u64::from(FIRST_DATA + CLUSTERS)
    }

    fn read_sector(&self, lba: u32, output: &mut [u8; SECTOR_SIZE]) -> Result<(), StorageError> {
        *output = [0; SECTOR_SIZE];
        if lba == 0 {
            output[11..13].copy_from_slice(&512u16.to_le_bytes());
            output[13] = 1;
            output[14] = RESERVED as u8;
            output[16] = 1;
            output[32..36].copy_from_slice(&(FIRST_DATA + CLUSTERS).to_le_bytes());
            output[36..40].copy_from_slice(&FAT_SECTORS.to_le_bytes());
            output[44] = 2;
            output[510] = 0x55;
            output[511] = 0xaa;
        } else if lba == RESERVED {
            for entry in output.chunks_exact_mut(4) {
                entry.copy_from_slice(&0x0fff_ffffu32.to_le_bytes());
            }
        } else if lba == FIRST_DATA {
            slot(output, 0, b"DOCS       ", 0x10, 3, 0);
            slot(output, 1, b"HELLO   TXT", 0x20, 4, 6);
            slot(output, 2, b"RAW     BIN", 0x20, 5, 4);
        } else if lba == FIRST_DATA + 1 {
            return Err(StorageError::SectorOutOfRange);
        } else if lba == FIRST_DATA + 2 {
            output[..6].copy_from_slice("Hé—".as_bytes());
        } else if lba == FIRST_DATA + 3 {
            output[..4].copy_from_slice(&[b'a', 0xff, b'\n', 0x00]);
        }
        Ok(())
    }
}

const SYSTEM: SystemInfo = SystemInfo {
    usable_frames: 1000,
    frames_consumed_at_boot: 521,
};

fn ticks(count: u32) -> TickCounter {
    let mut counter = TickCounter::new();
    for _ in 0..count {
        tick(&mut counter);
    }
    counter
}

struct Answer {
    text: String,
    effect: Effect,
}

fn answer_with(system: SystemInfo, line: &[u8]) -> Answer {
    let disk = SmallDisk;
    let volume = Fat32::mount(&disk).ok().unwrap();
    let mut heap = BumpAllocator::new();
    heap.init(0x10_0000, 2 * 1024 * 1024);
    let _ = heap.allocate(5000, 8);
    let mut text = String::new();
    let effect = execute(&volume, system, &ticks(250), heap.usage(), line, &mut text);
    Answer { text, effect }
}

fn answer(line: &str) -> String {
    let response = answer_with(SYSTEM, line.as_bytes());
    assert_eq!(response.effect, Effect::Nothing);
    response.text
}

#[test]
fn help_lists_the_commands() {
    assert_eq!(
        answer("help"),
        "commands:\n  help             show this text\n  echo <text>      print text\n  \
         ls [path]        list a FAT32 directory\n  cat <file>       print a FAT32 file\n  \
         clear            clear the framebuffer console\n  uptime           show PIT-based \
         uptime\n  meminfo          show frame and heap statistics\n  reboot | halt    stop or \
         reset the machine\n"
    );
}

#[test]
fn echo_keeps_inner_spaces() {
    assert_eq!(answer("  echo  hello   from Sol OS "), "hello   from Sol OS\n");
    assert_eq!(answer("echo"), "\n");
}

#[test]
fn listing_shows_kind_size_and_name() {
    let expected = "<DIR>       0 DOCS\n            6 HELLO.TXT\n            4 RAW.BIN\n";
    assert_eq!(answer("ls"), expected);
    assert_eq!(answer("ls /"), expected);
    assert_eq!(answer("ls docs"), "ls: Device(SectorOutOfRange)\n");
    assert_eq!(answer("ls nowhere"), "ls: NotFound\n");
    assert_eq!(answer("ls hello.txt"), "ls: NotDirectory\n");
    assert_eq!(answer("ls a b"), "usage: ls [path]\n");
}

#[test]
fn files_are_shown_as_text_or_by_byte() {
    assert_eq!(answer("cat hello.txt"), "Hé—\n");
    assert_eq!(answer("cat RAW.BIN"), "a\\xff\n\\x00\n");
    assert_eq!(answer("cat docs"), "cat: IsDirectory\n");
    assert_eq!(answer("cat none"), "cat: NotFound\n");
    assert_eq!(answer("cat"), "usage: cat <file>\n");
    assert_eq!(answer("cat a b"), "usage: cat <file>\n");
}

#[test]
fn every_error_has_its_name() {
    for error in [
        FsError::Device(StorageError::MissingRamdisk),
        FsError::Device(StorageError::InvalidRamdisk),
        FsError::Device(StorageError::SectorOutOfRange),
        FsError::InvalidBootSector,
        FsError::UnsupportedVolume,
        FsError::InvalidCluster,
        FsError::CorruptFat,
        FsError::DirectoryLoop,
        FsError::NotFound,
        FsError::NotDirectory,
        FsError::IsDirectory,
        FsError::TruncatedFile,
    ] {
        let mut name = String::new();
        print_fs_error(&mut name, error);
        assert_eq!(name, format!("{error:?}"));
    }
}

#[test]
fn uptime_and_memory_are_reported() {
    assert_eq!(answer("uptime"), "uptime: 2 s (250 timer ticks)\n");
    assert_eq!(
        answer("meminfo"),
        "usable physical memory: 4000 KiB\nheap: 4 / 2048 KiB used (bump allocator)\nframes \
         consumed during bring-up: 521\n"
    );
    let huge = SystemInfo {
        usable_frames: usize::MAX,
        frames_consumed_at_boot: 0,
    };
    assert!(answer_with(huge, b"meminfo")
        .text
        .starts_with(&format!("usable physical memory: {} KiB\n", usize::MAX)));
}

#[test]
fn clearing_and_stopping_have_effects() {
    let clear = answer_with(SYSTEM, b"clear");
    assert_eq!(clear.text, "");
    assert_eq!(clear.effect, Effect::ClearScreen);
    assert_eq!(terminal_codes(clear.effect), "\x1b[2J\x1b[H");
    let reboot = answer_with(SYSTEM, b"reboot");
    assert_eq!(reboot.text, "rebooting through the PS/2 controller...\n");
    assert_eq!(reboot.effect, Effect::Reboot);
    for effect in [Effect::Nothing, Effect::Reboot, Effect::Halt] {
        assert_eq!(terminal_codes(effect), "");
    }
    let halt = answer_with(SYSTEM, b" halt ");
    assert_eq!(halt.text, "CPU halted.\n");
    assert_eq!(halt.effect, Effect::Halt);
}

#[test]
fn other_lines_are_answered() {
    assert_eq!(answer(""), "");
    assert_eq!(answer(" \t "), "");
    assert_eq!(answer("HELP"), "unknown command: HELP; type 'help'\n");
    let bad = answer_with(SYSTEM, &[0xff, 0xfe]);
    assert_eq!(bad.text, "input is not valid UTF-8\n");
}

#[test]
fn commands_are_read_from_their_words() {
    assert!(matches!(parse_command(b"help me"), Command::Help));
    assert!(matches!(parse_command(b" \x0c "), Command::Nothing));
    assert!(matches!(parse_command(b"\x80"), Command::NotText));
    assert!(matches!(parse_command(b"ls"), Command::List { path } if path == "/"));
    assert!(matches!(parse_command(b"ls  x"), Command::List { path } if path == "x"));
    assert!(matches!(parse_command(b"ls x y"), Command::ListUsage));
    assert!(matches!(parse_command(b"cat x"), Command::Print { path } if path == "x"));
    assert!(matches!(parse_command("\u{a0}halt".as_bytes()), Command::Halt));
}

#[test]
fn chunks_of_files_are_shown_whole() {
    let mut text = String::from(">");
    print_file_chunk(&mut text, "añb".as_bytes());
    print_file_chunk(&mut text, &[0xc3]);
    print_file_chunk(&mut text, b"");
    print_file_chunk(&mut text, &[b'~', 0x7f, b'\r', b'\t', 0x80]);
    assert_eq!(text, ">añb\\xc3~\\x7f\r\\x09\\x80");
}

/// Applies a key. Gives what was drawn, where the line was redrawn.
fn edit(editor: &mut LineEditor, event: KeyEvent) -> Option<String> {
    let mut text = String::new();
    if editor.edit(event, &mut text) {
        Some(text)
    } else {
        assert_eq!(text, "");
        None
    }
}

fn keys(editor: &mut LineEditor, text: &str) {
    for byte in text.bytes() {
        let _ = edit(editor, KeyEvent::Character(byte));
    }
}

fn line(editor: &LineEditor) -> String {
    String::from_utf8(editor.line().to_vec()).unwrap()
}

#[test]
fn editing_happens_at_the_cursor() {
    let mut editor = LineEditor::new();
    keys(&mut editor, "helo");
    let _ = edit(&mut editor, KeyEvent::Left);
    keys(&mut editor, "l");
    assert_eq!(line(&editor), "hello");
    let _ = edit(&mut editor, KeyEvent::Home);
    let _ = edit(&mut editor, KeyEvent::Delete);
    assert_eq!(line(&editor), "ello");
    let _ = edit(&mut editor, KeyEvent::End);
    let _ = edit(&mut editor, KeyEvent::Backspace);
    assert_eq!(line(&editor), "ell");
    let _ = edit(&mut editor, KeyEvent::Left);
    let _ = edit(&mut editor, KeyEvent::Left);
    let _ = edit(&mut editor, KeyEvent::Tab);
    assert_eq!(line(&editor), "e    ll");
    let _ = edit(&mut editor, KeyEvent::Right);
    let _ = edit(&mut editor, KeyEvent::Backspace);
    assert_eq!(line(&editor), "e    l");
}

#[test]
fn keys_without_effect_draw_nothing() {
    let mut editor = LineEditor::new();
    assert_eq!(edit(&mut editor, KeyEvent::Backspace), None);
    assert_eq!(edit(&mut editor, KeyEvent::Delete), None);
    assert_eq!(edit(&mut editor, KeyEvent::Left), None);
    assert_eq!(edit(&mut editor, KeyEvent::Right), None);
    assert_eq!(edit(&mut editor, KeyEvent::Up), None);
    assert_eq!(edit(&mut editor, KeyEvent::Down), None);
    assert_eq!(edit(&mut editor, KeyEvent::Home).as_deref(), Some("\rsol> \rsol> "));
}

#[test]
fn line_holds_eighty_bytes() {
    let mut editor = LineEditor::new();
    keys(&mut editor, &"x".repeat(79));
    assert_eq!(edit(&mut editor, KeyEvent::Tab), None);
    keys(&mut editor, "y");
    assert_eq!(edit(&mut editor, KeyEvent::Character(b'z')), None);
    assert_eq!(line(&editor), format!("{}y", "x".repeat(79)));
}

#[test]
fn redrawing_covers_the_old_line() {
    let mut editor = LineEditor::new();
    assert_eq!(
        edit(&mut editor, KeyEvent::Character(b'a')).as_deref(),
        Some("\rsol> a\rsol> a")
    );
    keys(&mut editor, "bc");
    assert_eq!(
        edit(&mut editor, KeyEvent::Left).as_deref(),
        Some("\rsol> abc\rsol> ab")
    );
    assert_eq!(
        edit(&mut editor, KeyEvent::Backspace).as_deref(),
        Some("\rsol> ac \rsol> a")
    );
}

fn enter(editor: &mut LineEditor, text: &str) {
    keys(editor, text);
    assert_eq!(edit(editor, KeyEvent::Enter), None);
    assert_eq!(line(editor), "");
}

#[test]
fn browsing_walks_and_restores_the_draft() {
    let mut editor = LineEditor::new();
    enter(&mut editor, "one");
    enter(&mut editor, "two");
    enter(&mut editor, "two");
    enter(&mut editor, "  ");
    keys(&mut editor, "draft");
    let _ = edit(&mut editor, KeyEvent::Up);
    assert_eq!(line(&editor), "two");
    let _ = edit(&mut editor, KeyEvent::Up);
    assert_eq!(line(&editor), "one");
    let _ = edit(&mut editor, KeyEvent::Up);
    assert_eq!(line(&editor), "one");
    let _ = edit(&mut editor, KeyEvent::Down);
    assert_eq!(line(&editor), "two");
    let drawn = edit(&mut editor, KeyEvent::Down);
    assert_eq!(line(&editor), "draft");
    assert_eq!(drawn.as_deref(), Some("\rsol> draft\rsol> draft"));
    assert_eq!(edit(&mut editor, KeyEvent::Down), None);
}

#[test]
fn editing_leaves_the_history() {
    let mut editor = LineEditor::new();
    enter(&mut editor, "one");
    let _ = edit(&mut editor, KeyEvent::Up);
    keys(&mut editor, "!");
    assert_eq!(line(&editor), "one!");
    assert_eq!(edit(&mut editor, KeyEvent::Down), None);
    let _ = edit(&mut editor, KeyEvent::Up);
    assert_eq!(line(&editor), "one");
    let _ = edit(&mut editor, KeyEvent::Down);
    assert_eq!(line(&editor), "one!");
}

#[test]
fn history_keeps_the_last_sixteen() {
    let mut editor = LineEditor::new();
    for number in 0..20 {
        enter(&mut editor, &format!("cmd{number}"));
    }
    for number in (4..20).rev() {
        let _ = edit(&mut editor, KeyEvent::Up);
        assert_eq!(line(&editor), format!("cmd{number}"));
    }
    let _ = edit(&mut editor, KeyEvent::Up);
    assert_eq!(line(&editor), "cmd4");
}

#[test]
fn history_is_a_ring() {
    let mut history = CommandHistory::new();
    let mut output = [0u8; 80];
    let mut draft = [0u8; 80];
    let mut draft_length = 0;
    assert_eq!(history.previous(None, &output, 0, &mut draft, &mut draft_length), None);
    assert_eq!(history.copy_into(3, &mut output), 0);
    history.push(b"first");
    history.push(b"second");
    assert_eq!(history.copy_into(0, &mut output), 6);
    assert_eq!(&output[..6], b"second");
    assert_eq!(history.copy_into(1, &mut output), 5);
    assert_eq!(&output[..6], b"firstd");
    assert_eq!(history.previous(None, &output, 5, &mut draft, &mut draft_length), Some(0));
    assert_eq!(&draft[..draft_length], b"first");
    assert_eq!(history.previous(Some(0), &output, 0, &mut draft, &mut draft_length), Some(1));
    assert_eq!(history.previous(Some(1), &output, 0, &mut draft, &mut draft_length), Some(1));
    assert_eq!(
        history.previous(Some(usize::MAX), &output, 0, &mut draft, &mut draft_length),
        Some(usize::MAX)
    );
    assert_eq!(draft_length, 5);
    assert_eq!(history.next(Some(1)), Some(Some(0)));
    assert_eq!(history.next(Some(0)), Some(None));
    assert_eq!(history.next(None), None);
    history.push(b" \t\x0c");
    history.push(b"second");
    assert_eq!(history.copy_into(2, &mut output), 0);
}

/// What a key printed, with what is left to do.
struct Shown {
    text: String,
    next: Reaction,
}

fn press(editor: &mut LineEditor, event: KeyEvent) -> Shown {
    let disk = SmallDisk;
    let volume = Fat32::mount(&disk).ok().unwrap();
    let heap = BumpAllocator::new();
    let counter = TickCounter::new();
    let mut text = String::new();
    let next = run(editor, &volume, SYSTEM, &counter, heap.usage(), event, &mut text);
    Shown { text, next }
}

const DRAWN: Reaction = Reaction {
    effect: Effect::Nothing,
    prompts: false,
    show_cursor: true,
};

#[test]
fn shell_greets_and_prompts() {
    let mut text = String::new();
    start(&mut text);
    assert_eq!(
        text,
        "\nSol OS shell — type 'help' for commands.\nsol> "
    );
    let mut text = String::from(">");
    prompt(&mut text);
    assert_eq!(text, ">sol> ");
}

#[test]
fn entered_lines_are_carried_out() {
    let mut editor = LineEditor::new();
    for byte in b"echo hi" {
        assert_eq!(press(&mut editor, KeyEvent::Character(*byte)).next, DRAWN);
    }
    let shown = press(&mut editor, KeyEvent::Enter);
    assert_eq!(shown.text, "\nhi\n");
    assert_eq!(
        shown.next,
        Reaction {
            effect: Effect::Nothing,
            prompts: true,
            show_cursor: true,
        }
    );
    let shown = press(&mut editor, KeyEvent::Up);
    assert_eq!(shown.text, "\rsol> echo hi\rsol> echo hi");
    assert_eq!(shown.next, DRAWN);
}

#[test]
fn stopping_shows_no_prompt() {
    let mut editor = LineEditor::new();
    keys(&mut editor, "halt");
    let shown = press(&mut editor, KeyEvent::Enter);
    assert_eq!(shown.text, "\nCPU halted.\n");
    assert_eq!(
        shown.next,
        Reaction {
            effect: Effect::Halt,
            prompts: false,
            show_cursor: false,
        }
    );
    keys(&mut editor, "reboot");
    let shown = press(&mut editor, KeyEvent::Enter);
    assert_eq!(shown.text, "\nrebooting through the PS/2 controller...\n");
    assert_eq!(shown.next.effect, Effect::Reboot);
    assert!(!shown.next.prompts);
    keys(&mut editor, "clear");
    let shown = press(&mut editor, KeyEvent::Enter);
    assert_eq!(shown.text, "\n");
    assert_eq!(
        shown.next,
        Reaction {
            effect: Effect::ClearScreen,
            prompts: true,
            show_cursor: true,
        }
    );
}

#[test]
fn ignored_keys_do_nothing() {
    let mut editor = LineEditor::new();
    let shown = press(&mut editor, KeyEvent::Down);
    assert_eq!(shown.text, "");
    assert_eq!(
        shown.next,
        Reaction {
            effect: Effect::Nothing,
            prompts: false,
            show_cursor: false,
        }
    );
}

/// A console that keeps the pieces that it gets apart.
struct PieceConsole {
    pieces: Vec<String>,
}

impl TextSink for PieceConsole {
    fn write_str(&mut self, text: &str) {
        self.pieces.push(text.to_string());
    }

    fn write_char(&mut self, character: char) {
        self.pieces.push(character.to_string());
    }
}

#[test]
fn answers_come_in_pieces() {
    let disk = SmallDisk;
    let volume = Fat32::mount(&disk).ok().unwrap();
    let heap = BumpAllocator::new();
    let counter = TickCounter::new();
    let mut console = PieceConsole { pieces: Vec::new() };
    let _ = execute(&volume, SYSTEM, &counter, heap.usage(), b"cat raw.bin", &mut console);
    assert_eq!(
        console.pieces,
        vec!["a", "\\x", "f", "f", "\n", "\\x", "0", "0", "\n"]
    );
    let mut console = PieceConsole { pieces: Vec::new() };
    let _ = execute(&volume, SYSTEM, &counter, heap.usage(), b"ls", &mut console);
    assert!(console.pieces.contains(&"HELLO.TXT".to_string()));
    assert_eq!(
        console.pieces.concat(),
        "<DIR>       0 DOCS\n            6 HELLO.TXT\n            4 RAW.BIN\n"
    );
}

#[test]
fn recalling_leaves_the_rest_of_the_buffers() {
    let mut history = CommandHistory::new();
    history.push(b"ls");
    let mut output = [b'#'; 80];
    assert_eq!(history.copy_into(0, &mut output), 2);
    assert_eq!(&output[..2], b"ls");
    assert!(output[2..].iter().all(|byte| *byte == b'#'));
    let mut draft = [b'*'; 80];
    let mut draft_length = 0;
    assert_eq!(
        history.previous(None, &output, 3, &mut draft, &mut draft_length),
        Some(0)
    );
    assert_eq!(&draft[..3], b"ls#");
    assert_eq!(draft_length, 3);
    assert!(draft[3..].iter().all(|byte| *byte == b'*'));
}

#[test]
fn typing_and_deleting_undo_each_other() {
    let mut editor = LineEditor::new();
    keys(&mut editor, "abcd");
    let _ = edit(&mut editor, KeyEvent::Left);
    let _ = edit(&mut editor, KeyEvent::Left);
    keys(&mut editor, "x");
    let _ = edit(&mut editor, KeyEvent::Backspace);
    assert_eq!(line(&editor), "abcd");
    let mut other = LineEditor::new();
    keys(&mut other, "abcd");
    let _ = edit(&mut other, KeyEvent::Left);
    let _ = edit(&mut other, KeyEvent::Left);
    let _ = edit(&mut editor, KeyEvent::Delete);
    let _ = edit(&mut other, KeyEvent::Right);
    let _ = edit(&mut other, KeyEvent::Backspace);
    assert_eq!(line(&editor), "abd");
    assert_eq!(line(&other), "abd");
    assert_eq!(edit(&mut editor, KeyEvent::Home), edit(&mut other, KeyEvent::Home));
}

#[test]
fn tab_is_four_spaces() {
    let mut tab = LineEditor::new();
    let mut spaces = LineEditor::new();
    keys(&mut tab, "ab");
    keys(&mut spaces, "ab");
    let _ = edit(&mut tab, KeyEvent::Left);
    let _ = edit(&mut spaces, KeyEvent::Left);
    let _ = edit(&mut tab, KeyEvent::Tab);
    keys(&mut spaces, "    ");
    assert_eq!(line(&tab), line(&spaces));
    assert_eq!(edit(&mut tab, KeyEvent::End), edit(&mut spaces, KeyEvent::End));
}

#[test]
fn moving_changes_no_text() {
    let mut editor = LineEditor::new();
    keys(&mut editor, "abc");
    for event in [KeyEvent::Left, KeyEvent::Home, KeyEvent::Right, KeyEvent::End] {
        assert!(edit(&mut editor, event).is_some());
        assert_eq!(line(&editor), "abc");
    }
}

#[test]
fn typed_lines_are_text() {
    for byte in 0x20..=0x7eu8 {
        assert!(!matches!(parse_command(&[byte]), Command::NotText));
    }
}
