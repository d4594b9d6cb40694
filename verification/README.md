# idos

A verified library for a small operating system: the rules of its kernel, its drivers and
its programs, as functions on plain values with contracts that Verus proves.

- `src/` is the library.
  - `api`: registers, system calls, terminals, results of input and output.
  - `console`: windows, drawing, keyboard and the console driver.
  - `fat`: the FAT file system. `time`: dates and the clock.
  - `task`, `interrupts`, `hardware`, `io`, `net`, `log`, `config`, `complaints`, `boot`: the
    kernel.
  - `drivers`: floppy disk, sound card and network card.
  - `command`, `dos`, `programs`: the command interpreter, the layer that runs DOS
    programs, and small programs.
- `app/` is ordinary Rust around the library: ports, locks, files, and the loops that wait
  for events and carry out what the library asks for.
- `tests/` runs the library.

A function that needs the outside does not reach for it. It takes what happened as plain
values, and gives back what is to be done: port writes, packets to send, files to open,
operations to complete.
