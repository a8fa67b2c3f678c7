//! The commands: what a line asks for, and what it is answered.

use vstd::prelude::*;
use vstd::utf8::*;

use crate::allocator::HeapUsage;
use crate::fat32;
use crate::fat32::model;
use crate::fat32::model::{EntryModel, FileModel, Geometry, Listing};
use crate::fat32::{ChunkVisitor, DirEntry, EntryVisitor, Fat32, FsError};
use crate::shell::SystemInfo;
use crate::storage::{BlockDevice, StorageError};
use crate::text;
use crate::text::TextSink;
use crate::timer;
use crate::timer::TickCounter;

verus! {

/// What a line asks for.
#[verifier::ext_equal]
pub enum CommandModel {
    Nothing,
    NotText,
    Help,
    Echo { text: Seq<char> },
    List { path: Seq<char> },
    ListUsage,
    Print { path: Seq<char> },
    PrintUsage,
    Clear,
    Uptime,
    Memory,
    Reboot,
    Halt,
    Unknown { name: Seq<char> },
}

/// Reads a line: its first word names the command. `ls` takes at most one path and
/// means the root without one; `cat` takes exactly one.
pub open spec fn command_of(input: Seq<u8>) -> CommandModel {
    if !valid_utf8(input) {
        CommandModel::NotText
    } else {
        let line = text::trimmed(decode_utf8(input));
        let words = text::words(line);
        if words.len() == 0 {
            CommandModel::Nothing
        } else if words[0] == "help"@ {
            CommandModel::Help
        } else if words[0] == "echo"@ {
            CommandModel::Echo { text: text::arguments(line) }
        } else if words[0] == "ls"@ {
            if words.len() > 2 {
                CommandModel::ListUsage
            } else if words.len() == 2 {
                CommandModel::List { path: words[1] }
            } else {
                CommandModel::List { path: "/"@ }
            }
        } else if words[0] == "cat"@ {
            if words.len() == 2 {
                CommandModel::Print { path: words[1] }
            } else {
                CommandModel::PrintUsage
            }
        } else if words[0] == "clear"@ {
            CommandModel::Clear
        } else if words[0] == "uptime"@ {
            CommandModel::Uptime
        } else if words[0] == "meminfo"@ {
            CommandModel::Memory
        } else if words[0] == "reboot"@ {
            CommandModel::Reboot
        } else if words[0] == "halt"@ {
            CommandModel::Halt
        } else {
            CommandModel::Unknown { name: words[0] }
        }
    }
}

/// A line that was read. It holds on to the line's own text.
#[derive(Debug, Clone, Copy)]
pub enum Command<'a> {
    Nothing,
    NotText,
    Help,
    Echo { text: &'a str },
    List { path: &'a str },
    ListUsage,
    Print { path: &'a str },
    PrintUsage,
    Clear,
    Uptime,
    Memory,
    Reboot,
    Halt,
    Unknown { name: &'a str },
}

impl<'a> View for Command<'a> {
    type V = CommandModel;

    open spec fn view(&self) -> CommandModel {
        match *self {
            Command::Nothing => CommandModel::Nothing,
            Command::NotText => CommandModel::NotText,
            Command::Help => CommandModel::Help,
            Command::Echo { text } => CommandModel::Echo { text: text@ },
            Command::List { path } => CommandModel::List { path: path@ },
            Command::ListUsage => CommandModel::ListUsage,
            Command::Print { path } => CommandModel::Print { path: path@ },
            Command::PrintUsage => CommandModel::PrintUsage,
            Command::Clear => CommandModel::Clear,
            Command::Uptime => CommandModel::Uptime,
            Command::Memory => CommandModel::Memory,
            Command::Reboot => CommandModel::Reboot,
            Command::Halt => CommandModel::Halt,
            Command::Unknown { name } => CommandModel::Unknown { name: name@ },
        }
    }
}

/// Reads a line.
pub fn parse_command(input: &[u8]) -> (command: Command<'_>)
    ensures
        command@ == command_of(input@),
{
    let line: &str = match text::text_from_utf8(input) {
        Some(decoded) => text::trim(decoded),
        None => return Command::NotText,
    };
    let (name, rest) = match text::next_word(line) {
        Some(taken) => taken,
        None => return Command::Nothing,
    };
    let ghost words = text::words(line@);
    assert(words[0] == name@);
    if text::same_text(name, "help") {
        Command::Help
    } else if text::same_text(name, "echo") {
        Command::Echo { text: text::arguments_after_command(line) }
    } else if text::same_text(name, "ls") {
        match text::next_word(rest) {
            None => Command::List { path: "/" },
            Some((path, rest)) => {
                assert(words[1] == path@);
                match text::next_word(rest) {
                    None => Command::List { path },
                    Some(_) => Command::ListUsage,
                }
            },
        }
    } else if text::same_text(name, "cat") {
        match text::next_word(rest) {
            None => Command::PrintUsage,
            Some((path, rest)) => {
                assert(words[1] == path@);
                match text::next_word(rest) {
                    None => Command::Print { path },
                    Some(_) => Command::PrintUsage,
                }
            },
        }
    } else if text::same_text(name, "clear") {
        Command::Clear
    } else if text::same_text(name, "uptime") {
        Command::Uptime
    } else if text::same_text(name, "meminfo") {
        Command::Memory
    } else if text::same_text(name, "reboot") {
        Command::Reboot
    } else if text::same_text(name, "halt") {
        Command::Halt
    } else {
        Command::Unknown { name }
    }
}

/// What the machine is to do after an answer was printed.
#[derive(Debug, Clone, Copy, PartialEq, Eq, Structural)]
pub enum Effect {
    Nothing,
    ClearScreen,
    Reboot,
    Halt,
}

/// The answer to a line: text for the console, and what to do next.
#[verifier::ext_equal]
pub struct ResponseModel {
    pub text: Seq<char>,
    pub effect: Effect,
}

/// An answer that is text and nothing else.
pub open spec fn text_response(text: Seq<char>) -> ResponseModel {
    ResponseModel { text, effect: Effect::Nothing }
}

/// The control codes that go to the serial terminal alone: a screen that is cleared is
/// cleared there too.
pub open spec fn terminal_text(effect: Effect) -> Seq<char> {
    if effect is ClearScreen {
        "\x1b[2J\x1b[H"@
    } else {
        ""@
    }
}

/// The control codes for the serial terminal.
pub fn terminal_codes(effect: Effect) -> (codes: &'static str)
    ensures
        codes@ == terminal_text(effect),
{
    match effect {
        Effect::ClearScreen => "\x1b[2J\x1b[H",
        Effect::Nothing | Effect::Reboot | Effect::Halt => "",
    }
}

/// The text of `help`.
pub open spec fn help_text() -> Seq<char> {
    "commands:\n"@ + "  help             show this text\n"@ + "  echo <text>      print text\n"@
        + "  ls [path]        list a FAT32 directory\n"@
        + "  cat <file>       print a FAT32 file\n"@
        + "  clear            clear the framebuffer console\n"@
        + "  uptime           show PIT-based uptime\n"@
        + "  meminfo          show frame and heap statistics\n"@
        + "  reboot | halt    stop or reset the machine\n"@
}

/// The name of a storage error.
pub open spec fn storage_error_name(error: StorageError) -> Seq<char> {
    match error {
        StorageError::MissingRamdisk => "MissingRamdisk"@,
        StorageError::InvalidRamdisk => "InvalidRamdisk"@,
        StorageError::SectorOutOfRange => "SectorOutOfRange"@,
    }
}

/// The name of a filesystem error.
pub open spec fn fs_error_name(error: FsError) -> Seq<char> {
    match error {
        FsError::Device(error) => "Device("@ + storage_error_name(error) + ")"@,
        FsError::InvalidBootSector => "InvalidBootSector"@,
        FsError::UnsupportedVolume => "UnsupportedVolume"@,
        FsError::InvalidCluster => "InvalidCluster"@,
        FsError::CorruptFat => "CorruptFat"@,
        FsError::DirectoryLoop => "DirectoryLoop"@,
        FsError::NotFound => "NotFound"@,
        FsError::NotDirectory => "NotDirectory"@,
        FsError::IsDirectory => "IsDirectory"@,
        FsError::TruncatedFile => "TruncatedFile"@,
    }
}

/// The line that `ls` prints for an entry: its kind, its size in seven places, its name.
pub open spec fn entry_line(entry: EntryModel) -> Seq<char> {
    (if entry.is_directory() {
        "<DIR>"@
    } else {
        "     "@
    }) + " "@ + text::padded(text::decimal(entry.size as nat), 7) + " "@ + entry.name + "\n"@
}

/// The lines that `ls` prints for a list of entries.
pub open spec fn entry_lines(entries: Seq<EntryModel>) -> Seq<char>
    decreases entries.len(),
{
    if entries.len() == 0 {
        Seq::empty()
    } else {
        entry_lines(entries.drop_last()) + entry_line(entries.last())
    }
}

/// What `ls` prints: the entries that could be read, then the error, if there was one.
pub open spec fn listing_text(listing: Listing) -> Seq<char> {
    entry_lines(listing.entries) + match listing.end {
        Ok(_) => Seq::empty(),
        Err(error) => "ls: "@ + fs_error_name(error) + "\n"@,
    }
}

/// Bytes that the console shows as they are.
pub open spec fn is_plain_byte(byte: u8) -> bool {
    0x20 <= byte <= 0x7e || byte == 0x0a || byte == 0x0d
}

/// How a byte that may not be text is shown: as it is, or by its number.
pub open spec fn byte_text(byte: u8) -> Seq<char> {
    if is_plain_byte(byte) {
        seq![byte as char]
    } else {
        "\\x"@ + seq![
            text::hex_digit(byte as int / 16),
            text::hex_digit(byte as int % 16),
        ]
    }
}

/// How bytes that are not text are shown.
pub open spec fn bytes_text(bytes: Seq<u8>) -> Seq<char>
    decreases bytes.len(),
{
    if bytes.len() == 0 {
        Seq::empty()
    } else {
        bytes_text(bytes.drop_last()) + byte_text(bytes.last())
    }
}

/// How a piece of a file is shown: as text where it is UTF-8, else byte by byte.
pub open spec fn chunk_text(bytes: Seq<u8>) -> Seq<char> {
    if valid_utf8(bytes) {
        decode_utf8(bytes)
    } else {
        bytes_text(bytes)
    }
}

/// How the pieces of a file are shown.
pub open spec fn chunks_text(chunks: Seq<Seq<u8>>) -> Seq<char>
    decreases chunks.len(),
{
    if chunks.len() == 0 {
        Seq::empty()
    } else {
        chunks_text(chunks.drop_last()) + chunk_text(chunks.last())
    }
}

/// What `cat` prints: what could be read, then the end of the line or the error.
pub open spec fn file_text(file: FileModel) -> Seq<char> {
    chunks_text(file.chunks) + match file.end {
        Ok(_) => "\n"@,
        Err(error) => "cat: "@ + fs_error_name(error) + "\n"@,
    }
}

/// What `uptime` prints.
pub open spec fn uptime_text(ticks: u64) -> Seq<char> {
    "uptime: "@ + text::decimal((ticks / timer::TICKS_PER_SECOND) as nat) + " s ("@
        + text::decimal(ticks as nat) + " timer ticks)\n"@
}

/// Frames in KiB: four each, as far as a machine word counts.
pub open spec fn frames_kib(frames: usize) -> nat {
    if 4 * frames <= usize::MAX {
        4 * frames as nat
    } else {
        usize::MAX as nat
    }
}

/// What `meminfo` prints.
pub open spec fn memory_text(system: SystemInfo, heap: HeapUsage) -> Seq<char> {
    "usable physical memory: "@ + text::decimal(frames_kib(system.usable_frames)) + " KiB\n"@
        + "heap: "@ + text::decimal((heap.used / 1024) as nat) + " / "@
        + text::decimal((heap.capacity / 1024) as nat)
        + " KiB used (bump allocator)\n"@ + "frames consumed during bring-up: "@ + text::decimal(
        system.frames_consumed_at_boot as nat,
    ) + "\n"@
}

/// The answer to a command.
pub open spec fn response_to<D: BlockDevice>(
    device: D,
    geometry: Geometry,
    system: SystemInfo,
    ticks: u64,
    heap: HeapUsage,
    command: CommandModel,
) -> ResponseModel {
    match command {
        CommandModel::Nothing => text_response(Seq::empty()),
        CommandModel::NotText => text_response("input is not valid UTF-8\n"@),
        CommandModel::Help => text_response(help_text()),
        CommandModel::Echo { text } => text_response(text + "\n"@),
        CommandModel::List { path } => text_response(
            listing_text(model::listing_at(device, geometry, path)),
        ),
        CommandModel::ListUsage => text_response("usage: ls [path]\n"@),
        CommandModel::Print { path } => text_response(
            file_text(model::file_at(device, geometry, path)),
        ),
        CommandModel::PrintUsage => text_response("usage: cat <file>\n"@),
        CommandModel::Clear => ResponseModel {
            text: Seq::empty(),
            effect: Effect::ClearScreen,
        },
        CommandModel::Uptime => text_response(uptime_text(ticks)),
        CommandModel::Memory => text_response(memory_text(system, heap)),
        CommandModel::Reboot => ResponseModel {
            text: "rebooting through the PS/2 controller...\n"@,
            effect: Effect::Reboot,
        },
        CommandModel::Halt => ResponseModel {
            text: "CPU halted.\n"@,
            effect: Effect::Halt,
        },
        CommandModel::Unknown { name } => text_response(
            "unknown command: "@ + name + "; type 'help'\n"@,
        ),
    }
}

/// Prints the text of `help`.
fn help<S: TextSink>(console: &mut S)
    ensures
        final(console).written() == old(console).written() + help_text(),
{
    console.write_str("commands:\n");
    console.write_str("  help             show this text\n");
    console.write_str("  echo <text>      print text\n");
    console.write_str("  ls [path]        list a FAT32 directory\n");
    console.write_str("  cat <file>       print a FAT32 file\n");
    console.write_str("  clear            clear the framebuffer console\n");
    console.write_str("  uptime           show PIT-based uptime\n");
    console.write_str("  meminfo          show frame and heap statistics\n");
    console.write_str("  reboot | halt    stop or reset the machine\n");
    assert(console.written() =~= old(console).written() + help_text());
}

fn print_storage_error<S: TextSink>(console: &mut S, error: StorageError)
    ensures
        final(console).written() == old(console).written() + storage_error_name(error),
{
    match error {
        StorageError::MissingRamdisk => console.write_str("MissingRamdisk"),
        StorageError::InvalidRamdisk => console.write_str("InvalidRamdisk"),
        StorageError::SectorOutOfRange => console.write_str("SectorOutOfRange"),
    }
}

/// Prints the name of a filesystem error.
pub fn print_fs_error<S: TextSink>(console: &mut S, error: FsError)
    ensures
        final(console).written() == old(console).written() + fs_error_name(error),
{
    match error {
        FsError::Device(error) => {
            console.write_str("Device(");
            print_storage_error(console, error);
            console.write_str(")");
            assert(console.written() =~= old(console).written() + fs_error_name(
                FsError::Device(error),
            ));
        },
        FsError::InvalidBootSector => console.write_str("InvalidBootSector"),
        FsError::UnsupportedVolume => console.write_str("UnsupportedVolume"),
        FsError::InvalidCluster => console.write_str("InvalidCluster"),
        FsError::CorruptFat => console.write_str("CorruptFat"),
        FsError::DirectoryLoop => console.write_str("DirectoryLoop"),
        FsError::NotFound => console.write_str("NotFound"),
        FsError::NotDirectory => console.write_str("NotDirectory"),
        FsError::IsDirectory => console.write_str("IsDirectory"),
        FsError::TruncatedFile => console.write_str("TruncatedFile"),
    }
}

/// Prints the error behind the name of the command that met it, as a line.
fn print_failure<S: TextSink>(console: &mut S, command: &str, error: FsError)
    ensures
        final(console).written() == old(console).written() + (command@ + fs_error_name(error)
            + "\n"@),
{
    console.write_str(command);
    print_fs_error(console, error);
    console.write_str("\n");
    assert(console.written() =~= old(console).written() + (command@ + fs_error_name(error)
        + "\n"@));
}

/// Prints the line of a directory entry.
pub fn print_entry<S: TextSink>(console: &mut S, entry: &DirEntry)
    ensures
        final(console).written() == old(console).written() + entry_line(entry@),
{
    if entry.is_directory() {
        console.write_str("<DIR>");
    } else {
        console.write_str("     ");
    }
    console.write_str(" ");
    text::append_padded_decimal(console, entry.size() as u64, 7);
    console.write_str(" ");
    console.write_str(entry.name());
    console.write_str("\n");
    assert(console.written() =~= old(console).written() + entry_line(entry@));
}

/// Prints a piece of a file as the console shows it.
pub fn print_file_chunk<S: TextSink>(console: &mut S, bytes: &[u8])
    ensures
        final(console).written() == old(console).written() + chunk_text(bytes@),
{
    if let Some(decoded) = text::text_from_utf8(bytes) {
        console.write_str(decoded);
        return;
    }
    let mut index: usize = 0;
    assert(console.written() =~= old(console).written() + bytes_text(bytes@.take(0)));
    while index < bytes.len()
        invariant
            index <= bytes@.len(),
            console.written() == old(console).written() + bytes_text(bytes@.take(index as int)),
        decreases bytes@.len() - index,
    {
        let byte: u8 = bytes[index];
        if (0x20 <= byte && byte <= 0x7e) || byte == 0x0a || byte == 0x0d {
            console.write_char(byte as char);
        } else {
            console.write_str("\\x");
            text::append_hex(console, byte);
        }
        assert(bytes@.take(index + 1).drop_last() =~= bytes@.take(index as int));
        index += 1;
        assert(console.written() =~= old(console).written() + bytes_text(
            bytes@.take(index as int),
        ));
    }
    assert(bytes@.take(index as int) =~= bytes@);
}

/// A console takes the entries of a directory as the lines that `ls` prints, one at a
/// time.
impl<S: TextSink> EntryVisitor for S {
    type State = Seq<char>;

    open spec fn state(&self) -> Seq<char> {
        self.written()
    }

    open spec fn after(state: Seq<char>, entry: EntryModel) -> Seq<char> {
        state + entry_line(entry)
    }

    open spec fn goes_on(state: Seq<char>, entry: EntryModel) -> bool {
        true
    }

    fn visit_entry(&mut self, entry: DirEntry) -> (more: bool) {
        print_entry(self, &entry);
        true
    }
}

proof fn lemma_entries_printed<S: TextSink>(before: Seq<char>, entries: Seq<EntryModel>)
    ensures
        ({
            let visit = fat32::visit_of::<S>(before, entries);
            &&& visit.state == before + entry_lines(entries)
            &&& !visit.stopped
        }),
    decreases entries.len(),
{
    if entries.len() > 0 {
        lemma_entries_printed::<S>(before, entries.drop_last());
        assert(before + entry_lines(entries) =~= before + entry_lines(entries.drop_last())
            + entry_line(entries.last()));
    } else {
        assert(before + entry_lines(entries) =~= before);
    }
}

/// Answers `ls`, entry by entry as the directory is read.
fn list<D: BlockDevice, S: TextSink>(filesystem: &Fat32<'_, D>, path: &str, console: &mut S)
    ensures
        final(console).written() == old(console).written() + listing_text(
            model::listing_at(filesystem.device(), filesystem.geometry(), path@),
        ),
{
    let result: Result<(), FsError> = filesystem.list_dir(path, console);
    let ghost listing = model::listing_at(filesystem.device(), filesystem.geometry(), path@);
    proof {
        lemma_entries_printed::<S>(old(console).written(), listing.entries);
    }
    if let Err(error) = result {
        print_failure(console, "ls: ", error);
    }
    assert(console.written() =~= old(console).written() + listing_text(listing));
}

/// A console takes the pieces of a file as the text that `cat` prints.
impl<S: TextSink> ChunkVisitor for S {
    type State = Seq<char>;

    open spec fn state(&self) -> Seq<char> {
        self.written()
    }

    open spec fn after(state: Seq<char>, bytes: Seq<u8>) -> Seq<char> {
        state + chunk_text(bytes)
    }

    fn visit_chunk(&mut self, bytes: &[u8]) {
        print_file_chunk(self, bytes);
    }
}

proof fn lemma_chunks_printed<S: TextSink>(before: Seq<char>, chunks: Seq<Seq<u8>>)
    ensures
        fat32::chunks_seen::<S>(before, chunks) == before + chunks_text(chunks),
    decreases chunks.len(),
{
    if chunks.len() > 0 {
        lemma_chunks_printed::<S>(before, chunks.drop_last());
        assert(before + chunks_text(chunks) =~= before + chunks_text(chunks.drop_last())
            + chunk_text(chunks.last()));
    } else {
        assert(before + chunks_text(chunks) =~= before);
    }
}

/// Answers `cat`, piece by piece as the file is read.
fn print<D: BlockDevice, S: TextSink>(filesystem: &Fat32<'_, D>, path: &str, console: &mut S)
    ensures
        final(console).written() == old(console).written() + file_text(
            model::file_at(filesystem.device(), filesystem.geometry(), path@),
        ),
{
    let result: Result<usize, FsError> = filesystem.read_file(path, console);
    let ghost file = model::file_at(filesystem.device(), filesystem.geometry(), path@);
    proof {
        lemma_chunks_printed::<S>(old(console).written(), file.chunks);
    }
    match result {
        Ok(_) => console.write_str("\n"),
        Err(error) => print_failure(console, "cat: ", error),
    }
    assert(console.written() =~= old(console).written() + file_text(file));
}

/// Answers `uptime`.
fn uptime<S: TextSink>(counter: &TickCounter, console: &mut S)
    ensures
        final(console).written() == old(console).written() + uptime_text(counter@),
{
    console.write_str("uptime: ");
    text::append_decimal(console, timer::uptime_seconds(counter));
    console.write_str(" s (");
    text::append_decimal(console, timer::ticks(counter));
    console.write_str(" timer ticks)\n");
    assert(console.written() =~= old(console).written() + uptime_text(counter@));
}

/// Answers `meminfo`.
fn memory<S: TextSink>(system: SystemInfo, heap: HeapUsage, console: &mut S)
    ensures
        final(console).written() == old(console).written() + memory_text(system, heap),
{
    let kib: usize = match system.usable_frames.checked_mul(4) {
        Some(kib) => kib,
        None => usize::MAX,
    };
    console.write_str("usable physical memory: ");
    text::append_decimal(console, kib as u64);
    console.write_str(" KiB\n");
    console.write_str("heap: ");
    text::append_decimal(console, (heap.used / 1024) as u64);
    console.write_str(" / ");
    text::append_decimal(console, (heap.capacity / 1024) as u64);
    console.write_str(" KiB used (bump allocator)\n");
    console.write_str("frames consumed during bring-up: ");
    text::append_decimal(console, system.frames_consumed_at_boot as u64);
    console.write_str("\n");
    assert(console.written() =~= old(console).written() + memory_text(system, heap));
}

/// Carries out a line: prints the answer and gives what the machine is to do next.
pub fn execute<D: BlockDevice, S: TextSink>(
    filesystem: &Fat32<'_, D>,
    system: SystemInfo,
    counter: &TickCounter,
    heap: HeapUsage,
    input: &[u8],
    console: &mut S,
) -> (effect: Effect)
    ensures
        ({
            let response = response_to(
                filesystem.device(),
                filesystem.geometry(),
                system,
                counter@,
                heap,
                command_of(input@),
            );
            &&& final(console).written() == old(console).written() + response.text
            &&& effect == response.effect
        }),
{
    match parse_command(input) {
        Command::Nothing => {
            assert(console.written() =~= old(console).written() + Seq::<char>::empty());
        },
        Command::NotText => console.write_str("input is not valid UTF-8\n"),
        Command::Help => help(console),
        Command::Echo { text } => {
            console.write_str(text);
            console.write_str("\n");
            assert(console.written() =~= old(console).written() + (text@ + "\n"@));
        },
        Command::List { path } => list(filesystem, path, console),
        Command::ListUsage => console.write_str("usage: ls [path]\n"),
        Command::Print { path } => print(filesystem, path, console),
        Command::PrintUsage => console.write_str("usage: cat <file>\n"),
        Command::Clear => {
            assert(console.written() =~= old(console).written() + Seq::<char>::empty());
            return Effect::ClearScreen;
        },
        Command::Uptime => uptime(counter, console),
        Command::Memory => memory(system, heap, console),
        Command::Reboot => {
            console.write_str("rebooting through the PS/2 controller...\n");
            return Effect::Reboot;
        },
        Command::Halt => {
            console.write_str("CPU halted.\n");
            return Effect::Halt;
        },
        Command::Unknown { name } => {
            console.write_str("unknown command: ");
            console.write_str(name);
            console.write_str("; type 'help'\n");
            assert(console.written() =~= old(console).written() + ("unknown command: "@ + name@
                + "; type 'help'\n"@));
        },
    }
    Effect::Nothing
}

/// Bytes that are not text are shown in characters that the console has: printable ASCII
/// and line breaks.
pub proof fn law_shown_bytes_are_plain(bytes: Seq<u8>)
    ensures
        forall|i: int|
            0 <= i < bytes_text(bytes).len() ==> {
                let c = #[trigger] bytes_text(bytes)[i];
                ' ' <= c <= '~' || c == '\n' || c == '\r'
            },
    decreases bytes.len(),
{
    if bytes.len() > 0 {
        reveal_strlit("\\x");
        law_shown_bytes_are_plain(bytes.drop_last());
        let before = bytes_text(bytes.drop_last());
        let last = byte_text(bytes.last());
        assert forall|i: int| 0 <= i < bytes_text(bytes).len() implies {
            let c = #[trigger] bytes_text(bytes)[i];
            ' ' <= c <= '~' || c == '\n' || c == '\r'
        } by {
            if i < before.len() {
                assert(bytes_text(bytes)[i] == before[i]);
            } else {
                assert(bytes_text(bytes)[i] == last[i - before.len()]);
            }
        }
    }
}

/// A file of ASCII is shown as it is.
pub proof fn law_ascii_is_shown_as_it_is(bytes: Seq<u8>)
    requires
        forall|i: int| 0 <= i < bytes.len() ==> (#[trigger] bytes[i]) < 128,
    ensures
        chunk_text(bytes) == model::ascii_text(bytes),
{
    text::law_ascii_is_utf8(bytes);
}

/// The text of a line, where it is text.
pub open spec fn line_text(input: Seq<u8>) -> Seq<char> {
    text::trimmed(decode_utf8(input))
}

/// The first word names the command, letter by letter. A first word that is none of the
/// nine names is unknown, and is told back.
pub proof fn law_first_word_names_command(input: Seq<u8>)
    requires
        valid_utf8(input),
        text::words(line_text(input)).len() > 0,
    ensures
        ({
            let name = text::words(line_text(input))[0];
            let command = command_of(input);
            &&& command is Help <==> name == "help"@
            &&& command is Echo <==> name == "echo"@
            &&& (command is List || command is ListUsage) <==> name == "ls"@
            &&& (command is Print || command is PrintUsage) <==> name == "cat"@
            &&& command is Clear <==> name == "clear"@
            &&& command is Uptime <==> name == "uptime"@
            &&& command is Memory <==> name == "meminfo"@
            &&& command is Reboot <==> name == "reboot"@
            &&& command is Halt <==> name == "halt"@
            &&& command matches CommandModel::Unknown { name: told } ==> told == name
            &&& !(command is Nothing) && !(command is NotText)
        }),
{
    reveal_strlit("help");
    reveal_strlit("echo");
    reveal_strlit("ls");
    reveal_strlit("cat");
    reveal_strlit("clear");
    reveal_strlit("uptime");
    reveal_strlit("meminfo");
    reveal_strlit("reboot");
    reveal_strlit("halt");
    assert("ls"@.len() == 2 && "cat"@.len() == 3 && "clear"@.len() == 5 && "meminfo"@.len() == 7);
    assert("help"@.len() == 4 && "echo"@.len() == 4 && "halt"@.len() == 4);
    assert("uptime"@.len() == 6 && "reboot"@.len() == 6);
    assert("uptime"@[0] == 'u' && "reboot"@[0] == 'r');
    assert("echo"@[0] == 'e' && "help"@[0] == 'h' && "halt"@[0] == 'h');
    assert("help"@[1] == 'e' && "halt"@[1] == 'a');
}

/// A line without words asks for nothing, and a line that is not UTF-8 is told so.
pub proof fn law_lines_without_command(input: Seq<u8>)
    ensures
        command_of(input) is NotText <==> !valid_utf8(input),
        valid_utf8(input) ==> (command_of(input) is Nothing <==> text::words(
            line_text(input),
        ).len() == 0),
{
}

/// `ls` lists the root without a path and the path with one, and takes no more; `cat` takes
/// exactly one. `echo` tells back what follows its name. The words behind any other
/// command's name do not matter.
pub proof fn law_commands_take_their_words(input: Seq<u8>)
    requires
        valid_utf8(input),
        text::words(line_text(input)).len() > 0,
    ensures
        ({
            let words = text::words(line_text(input));
            let command = command_of(input);
            &&& words[0] == "ls"@ ==> command == if words.len() == 1 {
                CommandModel::List { path: "/"@ }
            } else if words.len() == 2 {
                CommandModel::List { path: words[1] }
            } else {
                CommandModel::ListUsage
            }
            &&& words[0] == "cat"@ ==> command == if words.len() == 2 {
                CommandModel::Print { path: words[1] }
            } else {
                CommandModel::PrintUsage
            }
            &&& words[0] == "echo"@ ==> command == (CommandModel::Echo {
                text: text::arguments(line_text(input)),
            })
        }),
{
    law_first_word_names_command(input);
}

/// Two lines that start with the same word ask for the same, unless the word is one of
/// the three that take more.
pub proof fn law_other_words_do_not_matter(a: Seq<u8>, b: Seq<u8>)
    requires
        valid_utf8(a),
        valid_utf8(b),
        text::words(line_text(a)).len() > 0,
        text::words(line_text(b)).len() > 0,
        text::words(line_text(a))[0] == text::words(line_text(b))[0],
        !(command_of(a) is Echo || command_of(a) is List || command_of(a) is ListUsage
            || command_of(a) is Print || command_of(a) is PrintUsage),
    ensures
        command_of(a) == command_of(b),
{
    law_first_word_names_command(a);
    law_first_word_names_command(b);
}

/// Only `clear`, `reboot` and `halt` have the machine do something, each its own.
pub proof fn law_effects<D: BlockDevice>(
    device: D,
    geometry: Geometry,
    system: SystemInfo,
    ticks: u64,
    heap: HeapUsage,
    command: CommandModel,
)
    ensures
        ({
            let response = response_to(device, geometry, system, ticks, heap, command);
            &&& response.effect is ClearScreen <==> command is Clear
            &&& response.effect is Reboot <==> command is Reboot
            &&& response.effect is Halt <==> command is Halt
            &&& command is Nothing || command is Clear ==> response.text.len() == 0
            &&& command matches CommandModel::Echo { text } ==> response.text == text.push('\n')
        }),
{
    reveal_strlit("\n");
    if let CommandModel::Echo { text } = command {
        assert(text + "\n"@ =~= text.push('\n'));
    }
}

/// What `ls` and `cat` print depends on the volume and the path alone, and an error comes
/// as a line of its own behind what could be read.
pub proof fn law_errors_come_last(entries: Seq<EntryModel>, chunks: Seq<Seq<u8>>, error: FsError)
    ensures
        listing_text(Listing { entries, end: Err(error) }) == listing_text(
            Listing { entries, end: Ok(()) },
        ) + "ls: "@ + fs_error_name(error) + "\n"@,
        file_text(FileModel { chunks, end: Err(error) }) == chunks_text(chunks) + "cat: "@
            + fs_error_name(error) + "\n"@,
        listing_text(Listing { entries, end: Ok(()) }) == entry_lines(entries),
        file_text(FileModel { chunks, end: Ok(0) }) == chunks_text(chunks) + "\n"@,
{
    assert(listing_text(Listing { entries, end: Ok(()) }) =~= entry_lines(entries));
    assert(listing_text(Listing { entries, end: Err(error) }) =~= entry_lines(entries) + "ls: "@
        + fs_error_name(error) + "\n"@);
    assert(file_text(FileModel { chunks, end: Err(error) }) =~= chunks_text(chunks) + "cat: "@
        + fs_error_name(error) + "\n"@);
}

/// Listings and files are shown piece by piece, in order.
pub proof fn law_pieces_are_shown_in_order(
    a: Seq<EntryModel>,
    b: Seq<EntryModel>,
    c: Seq<Seq<u8>>,
    d: Seq<Seq<u8>>,
)
    ensures
        entry_lines(a + b) == entry_lines(a) + entry_lines(b),
        chunks_text(c + d) == chunks_text(c) + chunks_text(d),
    decreases b.len() + d.len(),
{
    if b.len() > 0 {
        law_pieces_are_shown_in_order(a, b.drop_last(), c, d);
        assert((a + b).drop_last() =~= a + b.drop_last());
        assert(entry_lines(a + b) =~= entry_lines(a) + entry_lines(b));
        if d.len() == 0 {
            assert(c + d =~= c);
            assert(chunks_text(c + d) =~= chunks_text(c) + chunks_text(d));
        }
    } else {
        assert(a + b =~= a);
        assert(entry_lines(a + b) =~= entry_lines(a) + entry_lines(b));
    }
    if d.len() > 0 {
        law_pieces_are_shown_in_order(a, b, c, d.drop_last());
        assert((c + d).drop_last() =~= c + d.drop_last());
        assert(chunks_text(c + d) =~= chunks_text(c) + chunks_text(d));
    } else {
        assert(c + d =~= c);
        assert(chunks_text(c + d) =~= chunks_text(c) + chunks_text(d));
    }
}

/// The line of an entry has columns: five for the kind, seven for the size, and the name to
/// the end of the line, with a space between them.
pub proof fn law_entry_line_has_columns(entry: EntryModel)
    ensures
        ({
            let line = entry_line(entry);
            let size = text::padded(text::decimal(entry.size as nat), 7);
            &&& line.len() == 5 + 1 + size.len() + 1 + entry.name.len() + 1
            &&& forall|i: int|
                0 <= i < 5 ==> (#[trigger] line[i]) == if entry.attributes as int / 16 % 2 == 1 {
                    "<DIR>"@[i]
                } else {
                    ' '
                }
            &&& line[5] == ' ' && line[6 + size.len() as int] == ' '
            &&& line.subrange(6, 6 + size.len() as int) == size
            &&& line.subrange(7 + size.len() as int, line.len() - 1) == entry.name
            &&& line.last() == '\n'
            &&& text::decimal_value(text::decimal(entry.size as nat)) == entry.size
        }),
{
    reveal_strlit("<DIR>");
    reveal_strlit("     ");
    reveal_strlit(" ");
    reveal_strlit("\n");
    let attributes = entry.attributes;
    assert(attributes & 0x10 != 0 <==> attributes / 16 % 2 == 1) by (bit_vector);
    let line = entry_line(entry);
    let size = text::padded(text::decimal(entry.size as nat), 7);
    text::law_decimal_reads_back(entry.size as nat);
    assert(line.subrange(6, 6 + size.len() as int) =~= size);
    assert(line.subrange(7 + size.len() as int, line.len() - 1) =~= entry.name);
}

/// A byte that the console has is shown as it is: printable ASCII and the two line breaks.
/// Any other is shown as a backslash, an x and two hexadecimal digits that tell it.
pub proof fn law_bytes_are_told(byte: u8)
    ensures
        ({
            let shown = byte_text(byte);
            if 0x20 <= byte <= 0x7e || byte == 10 || byte == 13 {
                shown.len() == 1 && shown[0] as int == byte
            } else {
                &&& shown.len() == 4 && shown[0] == '\\' && shown[1] == 'x'
                &&& exists|high: int, low: int|
                    0 <= high < 16 && 0 <= low < 16 && byte == 16 * high + low && shown[2]
                        == #[trigger] "0123456789abcdef"@[high] && shown[3]
                        == #[trigger] "0123456789abcdef"@[low]
            }
        }),
{
    reveal_strlit("\\x");
    let high = byte as int / 16;
    let low = byte as int % 16;
    text::law_hexadecimal_digits(high);
    text::law_hexadecimal_digits(low);
    if !(0x20 <= byte <= 0x7e || byte == 10 || byte == 13) {
        let shown = byte_text(byte);
        assert(shown[2] == text::hex_digit(high));
        assert(shown[3] == text::hex_digit(low));
        assert(shown[2] == "0123456789abcdef"@[high] && shown[3] == "0123456789abcdef"@[low]);
    }
}

/// A piece of a file that is UTF-8 is shown as the text that it encodes, and any other
/// piece byte by byte.
pub proof fn law_pieces_are_text_or_bytes(bytes: Seq<u8>, last: u8)
    ensures
        valid_utf8(bytes) ==> chunk_text(bytes) == decode_utf8(bytes),
        !valid_utf8(bytes) ==> chunk_text(bytes) == bytes_text(bytes),
        bytes_text(bytes.push(last)) == bytes_text(bytes) + byte_text(last),
        bytes_text(Seq::empty()).len() == 0,
{
    assert(bytes.push(last).drop_last() =~= bytes);
}

/// `uptime` tells whole seconds, a hundred ticks each, and the ticks.
pub proof fn law_uptime_is_told(ticks: u64, seconds: int, more: int)
    requires
        ticks == 100 * seconds + more,
        0 <= seconds,
        0 <= more < 100,
    ensures
        uptime_text(ticks) == "uptime: "@ + text::decimal(seconds as nat) + " s ("@
            + text::decimal(ticks as nat) + " timer ticks)\n"@,
{
}

/// A frame is four kibibytes; more than a machine word counts is told as that much.
pub proof fn law_frames_are_told_in_kibibytes(frames: usize)
    ensures
        frames_kib(frames) <= 4 * frames,
        frames_kib(frames) < 4 * frames ==> frames_kib(frames) == usize::MAX,
        4 * frames <= usize::MAX ==> 1024 * frames_kib(frames) == 4096 * frames,
{
}

/// Only a cleared screen sends something to the serial terminal: erase all, and go to the
/// upper left corner.
pub proof fn law_terminal_is_cleared_too(effect: Effect)
    ensures
        effect is ClearScreen ==> terminal_text(effect) == "\x1b[2J\x1b[H"@,
        !(effect is ClearScreen) ==> terminal_text(effect).len() == 0,
{
    reveal_strlit("");
}

/// `meminfo` tells the usable memory, the heap's use and size in whole kibibytes, and the
/// frames that were used at boot.
pub proof fn law_memory_is_told(
    system: SystemInfo,
    heap: HeapUsage,
    used: int,
    capacity: int,
)
    requires
        0 <= used && 1024 * used <= heap.used < 1024 * (used + 1),
        0 <= capacity && 1024 * capacity <= heap.capacity < 1024 * (capacity + 1),
    ensures
        memory_text(system, heap) == "usable physical memory: "@ + text::decimal(
            frames_kib(system.usable_frames),
        ) + " KiB\n"@ + "heap: "@ + text::decimal(used as nat) + " / "@ + text::decimal(
            capacity as nat,
        ) + " KiB used (bump allocator)\n"@ + "frames consumed during bring-up: "@
            + text::decimal(system.frames_consumed_at_boot as nat) + "\n"@,
{
}

/// What each command prints: `ls` the listing of its own path, `cat` the file of its own
/// path, the counters what they count, and a name that is no command itself.
pub proof fn law_answers<D: BlockDevice>(
    device: D,
    geometry: Geometry,
    system: SystemInfo,
    ticks: u64,
    heap: HeapUsage,
    command: CommandModel,
)
    ensures
        ({
            let text = response_to(device, geometry, system, ticks, heap, command).text;
            &&& command matches CommandModel::List { path } ==> text == listing_text(
                model::listing_at(device, geometry, path),
            )
            &&& command matches CommandModel::Print { path } ==> text == file_text(
                model::file_at(device, geometry, path),
            )
            &&& command matches CommandModel::Echo { text: words } ==> text == words.push('\n')
            &&& command is Nothing || command is Clear ==> text.len() == 0
            &&& command is Uptime ==> text == uptime_text(ticks)
            &&& command is Memory ==> text == memory_text(system, heap)
            &&& command is Help ==> text == help_text()
            &&& command is ListUsage ==> text == "usage: ls [path]\n"@
            &&& command is PrintUsage ==> text == "usage: cat <file>\n"@
            &&& command is NotText ==> text == "input is not valid UTF-8\n"@
            &&& command is Reboot ==> text == "rebooting through the PS/2 controller...\n"@
            &&& command is Halt ==> text == "CPU halted.\n"@
            &&& command matches CommandModel::Unknown { name } ==> text == "unknown command: "@
                + name + "; type 'help'\n"@
        }),
{
    reveal_strlit("\n");
    if let CommandModel::Echo { text: words } = command {
        assert(words + "\n"@ =~= words.push('\n'));
    }
}

/// A line of `help`: the command in a column of seventeen, two places from the left, and what
/// it does.
pub open spec fn help_line(command: Seq<char>, meaning: Seq<char>) -> Seq<char> {
    Seq::new(
        (20 + meaning.len()) as nat,
        |i: int|
            if 2 <= i < 2 + command.len() {
                command[i - 2]
            } else if 19 <= i < 19 + meaning.len() {
                meaning[i - 19]
            } else if i == 19 + meaning.len() {
                '\n'
            } else {
                ' '
            },
    )
}

/// `help` tells of every command, one line each, and what it does stands in one column.
pub proof fn law_help_has_columns()
    ensures
        help_text() == "commands:\n"@
            + help_line("help"@, "show this text"@)
            + help_line("echo <text>"@, "print text"@)
            + help_line("ls [path]"@, "list a FAT32 directory"@)
            + help_line("cat <file>"@, "print a FAT32 file"@)
            + help_line("clear"@, "clear the framebuffer console"@)
            + help_line("uptime"@, "show PIT-based uptime"@)
            + help_line("meminfo"@, "show frame and heap statistics"@)
            + help_line("reboot | halt"@, "stop or reset the machine"@),
{
    reveal_strlit("help");
    reveal_strlit("show this text");
    reveal_strlit("  help             show this text\n");
    assert("  help             show this text\n"@ =~= help_line("help"@, "show this text"@));
    reveal_strlit("echo <text>");
    reveal_strlit("print text");
    reveal_strlit("  echo <text>      print text\n");
    assert("  echo <text>      print text\n"@ =~= help_line("echo <text>"@, "print text"@));
    reveal_strlit("ls [path]");
    reveal_strlit("list a FAT32 directory");
    reveal_strlit("  ls [path]        list a FAT32 directory\n");
    assert("  ls [path]        list a FAT32 directory\n"@ =~= help_line("ls [path]"@, "list a FAT32 directory"@));
    reveal_strlit("cat <file>");
    reveal_strlit("print a FAT32 file");
    reveal_strlit("  cat <file>       print a FAT32 file\n");
    assert("  cat <file>       print a FAT32 file\n"@ =~= help_line("cat <file>"@, "print a FAT32 file"@));
    reveal_strlit("clear");
    reveal_strlit("clear the framebuffer console");
    reveal_strlit("  clear            clear the framebuffer console\n");
    assert("  clear            clear the framebuffer console\n"@ =~= help_line("clear"@, "clear the framebuffer console"@));
    reveal_strlit("uptime");
    reveal_strlit("show PIT-based uptime");
    reveal_strlit("  uptime           show PIT-based uptime\n");
    assert("  uptime           show PIT-based uptime\n"@ =~= help_line("uptime"@, "show PIT-based uptime"@));
    reveal_strlit("meminfo");
    reveal_strlit("show frame and heap statistics");
    reveal_strlit("  meminfo          show frame and heap statistics\n");
    assert("  meminfo          show frame and heap statistics\n"@ =~= help_line("meminfo"@, "show frame and heap statistics"@));
    reveal_strlit("reboot | halt");
    reveal_strlit("stop or reset the machine");
    reveal_strlit("  reboot | halt    stop or reset the machine\n");
    assert("  reboot | halt    stop or reset the machine\n"@ =~= help_line("reboot | halt"@, "stop or reset the machine"@));
}

/// An error is told by its name, and one of the device inside the name of its kind. No two
/// storage errors are told alike.
pub proof fn law_errors_are_named(error: FsError, a: StorageError, b: StorageError)
    ensures
        storage_error_name(a) == storage_error_name(b) ==> a == b,
        a is MissingRamdisk ==> storage_error_name(a) == "MissingRamdisk"@,
        a is InvalidRamdisk ==> storage_error_name(a) == "InvalidRamdisk"@,
        a is SectorOutOfRange ==> storage_error_name(a) == "SectorOutOfRange"@,
        error matches FsError::Device(cause) ==> fs_error_name(error) == "Device("@
            + storage_error_name(cause).push(')'),
        error is InvalidBootSector ==> fs_error_name(error) == "InvalidBootSector"@,
        error is UnsupportedVolume ==> fs_error_name(error) == "UnsupportedVolume"@,
        error is InvalidCluster ==> fs_error_name(error) == "InvalidCluster"@,
        error is CorruptFat ==> fs_error_name(error) == "CorruptFat"@,
        error is DirectoryLoop ==> fs_error_name(error) == "DirectoryLoop"@,
        error is NotFound ==> fs_error_name(error) == "NotFound"@,
        error is NotDirectory ==> fs_error_name(error) == "NotDirectory"@,
        error is IsDirectory ==> fs_error_name(error) == "IsDirectory"@,
        error is TruncatedFile ==> fs_error_name(error) == "TruncatedFile"@,
{
    reveal_strlit("MissingRamdisk");
    reveal_strlit("InvalidRamdisk");
    reveal_strlit("SectorOutOfRange");
    assert("MissingRamdisk"@[0] == 'M');
    assert("InvalidRamdisk"@[0] == 'I');
    assert("SectorOutOfRange"@[0] == 'S');
    if let FsError::Device(cause) = error {
        reveal_strlit(")");
        assert("Device("@ + storage_error_name(cause) + ")"@ =~= "Device("@ + storage_error_name(
            cause,
        ).push(')'));
    }
}

} // verus!
