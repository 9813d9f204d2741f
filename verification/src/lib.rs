//! A small x86_64 kernel's core logic: boot hand-off data, frame allocation,
//! kernel image loading, an in-memory file system, a cooperative scheduler,
//! line-oriented keyboard input, the shell's command language, and the
//! framebuffer text console.
pub mod text;
pub mod vfs;
pub mod shell;
pub mod scheduler;
pub mod input;
pub mod keyboard;
pub mod boot_info;
pub mod memory;
pub mod loader;
pub mod vga_buffer;
pub mod net;
pub mod pic;
pub mod rtc;
pub mod process_memory;
pub mod driver;
