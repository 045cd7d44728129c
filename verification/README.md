# rcore_os

The verified core of a small RISC-V (SV39) teaching kernel, written in Verus.

- `src/` is the library. Its functions are verified, except the small
  `external_body` wrappers that call `xmas_elf`, `riscv` and
  `core::str::from_utf8`, whose contracts are trusted:
  - `buddy_system`: a buddy-system heap over address ranges, with its free
    lists, allocation, deallocation with buddy merging, and region adding;
  - `mm`: SV39 addresses and page numbers, page-table entries and the
    three-level page walk, the physical frame allocator, map areas and
    address-space layouts (the kernel's, and an application's from its ELF
    program headers, read with `xmas_elf`), anonymous mappings, user-memory
    access decisions and the page-mapping printout;
  - `task`: task contexts, task states and the program break, the stride
    scheduler's ready queue, per-task system-call statistics and the fork-tree
    text;
  - `syscall`, `trap`, `timer`: decoding system calls and trap causes (the
    latter through the `riscv` crate), the decisions of the system calls, and
    timer conversions.
- `tests/` exercises the library on concrete values.
- `app/` is the kernel around it: SBI calls, the console, physical memory,
  context switches and trap entry, applying the library's decisions on the
  machine.
