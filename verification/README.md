# RaCore kernel logic, verified

The decisions and on-disk formats of a small x86-64 hobby kernel, written
in Verus and proved against their contracts. Devices are byte vectors, so
every filesystem here can be driven, and tested, in ordinary memory.

## Layout

- `src/vfs/`: the virtual filesystem.
  - `racfs*`: the kernel's own disk format, with its check and laws.
  - `fat32*`: FAT32, from the boot sector to directories and files.
  - `tmpfs`, `initramfs`, `devfs`, pipes, sockets, the mount table and paths.
- `src/task/`: tasks, processes, the round-robin scheduler and signals.
- `src/syscall/`: syscall numbers, errors, user-pointer checks, the
  self-contained syscalls and the decisions of `open` and `mount`.
- `src/tty/`: terminals and pseudo-terminals.
- `src/pkg/`: the package format (`rpkg`) and the dependency planner
  (`rapt`).
- `tests/`: the tests, run against the compiled library.
- `app/`: the command-line front ends of `rpkg` and `rapt` (file I/O and
  printing).

Laws that relate several operations (what a read gives back of a write,
what a format leaves, what a check reports on a fresh volume) are public
proof functions next to the operations they are about.
