# Sol OS

Sol OS is a small x86_64 hobby operating system. This crate holds the parts of it that
compute and decide, as verified Verus code; the parts that touch hardware or the host are
thin and ordinary Rust.

## Layout

- `src/` is the library. Every function states what it does in its contract, over
  mathematical models of the data.
  - `storage`, `fat32`: block devices and a read-only FAT32 reader. `fat32::model` says
    what the bytes of a volume mean.
  - `handoff`: how large the disk image is, which of its partitions holds the data volume,
    and how that is read, as steps that take the firmware's reply and say what to ask next.
  - `keyboard`, `controller`: scancodes, the key queue, and the keyboard controller.
  - `shell`: the line editor, the history, and the commands.
  - `font`, `framebuffer`: text as pixels.
  - `allocator`, `memory`: the kernel heap and the physical frames.
  - `pci`, `pic`, `timer`, `serial`, `ports`: devices, as lists of port writes or as
    steps that take what was read and say what to do next.
  - `launcher`: the host-side launcher's arguments and the emulator's command line.
  - `text`: words, numbers, and the sinks that text is printed to.
- `app/` is the program around the library: `main.rs` launches the emulator, `kernel/`
  performs the port accesses, keeps the statics, and runs the boot sequence, and
  `loader.rs` performs the hand-off.
- `tests/` runs the library on concrete values.

No part of the library that runs in the kernel uses the heap. Files and directories
are handed to a visitor as they are read, the shell prints to a `TextSink` piece by piece,
and the serial line takes its bytes one at a time. So the console works before the heap is
mapped and inside fault handlers.

## What is proved

Functions named `law_...` state what holds of a module as a whole: that cluster chains
are followed only as long as they can be, that blocks of the heap never overlap, that no
frame is given out twice, that browsing the history loses nothing, that the search for
the USB controller finds the first one, that the data partition is handed over whole or
not at all, and so on.

## What is trusted

Four items are believed without proof, each with a comment that says what it claims:
appending a character to a string and decoding UTF-8 from the standard library, rounding
an address to its page from `x86_64`, and the glyph table of `noto-sans-mono-bitmap`. What
a glyph looks like is not stated: a spec function without a body, `font::glyph_rows`, names
the table's answer for each character.
