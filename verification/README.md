# open_kernel

The core logic of a small x86_64 kernel and its UEFI boot loader, written
in Verus: each function's behaviour is stated in `requires`/`ensures`
contracts and proved.

## Layout

- `src/` — the verified library.
  - `vfs.rs`: the in-memory file system (lookup, write, `mkdir`, remove),
    path resolution against the current directory, and laws about them
    (a read gives back what was written, other paths are left alone, names
    stay unique, resolving is idempotent).
  - `scheduler.rs`: the cooperative round-robin scheduler over eight task
    slots, with its fairness laws (every window of as many dispatches as
    there are ready tasks runs each of them once).
  - `input.rs`, `keyboard.rs`: the line editor (typing, backspace, history,
    the queue of finished lines) and the decoding of scancodes and serial
    bytes into editing events.
  - `shell.rs`, `text.rs`: the shell's command language — decoding a line
    into a command with its arguments, `calc`, prompts, themes — and the
    character helpers (trimming, splitting, integer parsing) it rests on.
  - `loader.rs`, `boot_info.rs`, `memory.rs`: reading the kernel's ELF
    headers and planning where its segments go, building the boot memory
    map from the firmware's descriptors, and handing out physical frames
    from it (distinct frames, all in usable memory).
  - `vga_buffer.rs`: the framebuffer text console (glyphs, cursor, line
    wrap, scrolling), stated pixel by pixel.
  - `process_memory.rs`, `net.rs`, `driver.rs`, `rtc.rs`, `pic.rs`: address
    space layouts (with their isolation law), the network interfaces, the
    driver model, clock register decoding, interrupt numbering.
- `tests/` — tests of the library on concrete values.
- `app/` — the programs around the library: the kernel (port I/O,
  interrupts, paging and the heap, global state, printing) and the UEFI
  boot loader (firmware calls).

Calls into `x86_64` that the library makes stand behind small trusted
wrappers whose doc comments say what is assumed of them. The ELF header and
program header fields the loader reads are stated byte by byte and read
by verified code.
