# bootloader

The logic of a boot loader for 64-bit Arm machines with UEFI firmware, verified with Verus.

The library in `src/` decides; the program in `app/` asks the firmware, writes the registers and
carries the decisions out. The boot loader

- reads its settings from a configuration file (`cfg`, `boot_info`),
- picks a graphics mode and checks its framebuffer (`gop`),
- parses, validates and places an ELF kernel at the virtual addresses that it asks for (`elf`,
  `kernel_loading`),
- maps the kernel and the memory that is in use during the transition (`table_pool`, `mapping`,
  `transition`),
- installs the translation tables (`mapper`) and tells the kernel what it set up (`boot`).

Each public function states what it returns. Functions named `law_..` are proofs of what holds of
several of them together, such as that the pages of a segment hold every byte of the file where its
program header puts it, or that exactly the boot loader's image can be executed during the
transition. A segment can be declared mapped only after its pages have been filled, and a table can
be cut out of a chunk only after the chunk has been cleared.

Three things are believed rather than proved: that `core::str::from_utf8` decodes UTF-8, that
`goblin` parses the same bytes to the same ELF file every time, and that the `uefi` crate writes a
path with one 16-bit unit for each character.
