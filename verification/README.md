# cappuccinos

The logic of the CappuccinOS kernel as a library verified with Verus: the
functions under `src/` carry contracts that Verus proves, except the few
wrappers in `src/usr/text.rs` around std's string functions, whose contracts
are taken on trust from std's documentation.

- `src/arch`: the interrupt descriptor table, the 8259 controllers, the APIC
  and its MADT walk, the interval timer, and the symbol lookup behind stack
  traces. Device programming is returned as lists of port and register
  writes rather than performed.
- `src/drivers`: ACPI root pointers and tables, the FAT32 and SquashFS
  readers, IDE/ATA command sequences, MBR and GPT partition tables, the PS/2
  keyboard tables, PCI configuration addresses, the serial port, the VGA
  mode program and the framebuffer text renderer.
- `src/mem`, `src/sys`: the buddy allocator, the physical page bitmap, the
  memory map and the choice of heap region.
- `src/usr`: the console (cursor, colour escapes, output), the line editor
  and the shell's command interpreter.
- `tests/`: tests of the library on concrete inputs.
- `app/`: the program around the library: reading what the bootloader hands
  over, the terminal, reading a disk image's partitions step by step and
  the files of its FAT volumes, and performing the shell's actions on a
  simulated heap.
