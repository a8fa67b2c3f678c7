//! Sol OS: the parts of a small x86_64 operating system that compute and decide.

pub mod allocator;
pub mod controller;
pub mod fat32;
pub mod font;
pub mod framebuffer;
pub mod handoff;
pub mod keyboard;
pub mod launcher;
pub mod memory;
pub mod pci;
pub mod pic;
pub mod ports;
pub mod serial;
pub mod shell;
pub mod storage;
pub mod text;
pub mod timer;
