# doors

The logic of the doors operating system and its host tools, written in Verus with
contracts that the verifier proves.

## Layout

- `src/` — the verified library.
  - Kernel memory: `bitmap`, `bump`, `fixed_size`, `heap`, `memory_manager`, `mapper`,
    `paging64` (page table entries), `paging_manager` (building, walking and tearing down
    four-level page tables), `entry_flags`, `dma`, `process` (loading a user program).
  - Kernel tables and devices: `descriptor_tables`, `ioports`, `devices`, `multiboot`,
    `video`, `ssdt` (the checks on an ACPI table before it is parsed).
  - The builder tool: `build_config` (configuration files and their defaults), `emulators`
    (the command lines of qemu, bochs and VirtualBox), `cmake`.
  - The imager: `iso9660` (strings, dates, directory records, path tables) and `iso_volume`
    (volume descriptors and whole images).
  - The analyzer tools: `analyzer` (memory dumps, raw or ELF core files), `symbols`, `os`
    (recognising the kernel in a dump and reporting on it), `stack_report`.
  - `text`, `bits`: shared helpers on strings and numbers.
- `tests/` — tests that run the library on concrete values.
- `app/` — the command line program: argument parsing, files, configuration formats and the
  calls that do input and output.

Calls into outside crates (ELF parsing, regular expressions, symbol demangling) stand behind
small trusted functions whose contracts say what the library relies on. The stack size
analysis runs in `app/`, since it stops the program on some malformed binaries; the library
orders and formats what it finds.
