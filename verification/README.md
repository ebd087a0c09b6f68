# syslens-collect

A Linux system inspector that prints `key=value` lines about CPU usage,
temperatures, fans, storage, USB and PCI devices, and processes.

- `src/` is the library, verified with Verus: reading the text of `/proc` and
  `/sys` files, the `pci.ids` database, the mount table, and building every
  report line. Each public function states in its contract exactly what it
  returns; the laws (sorting, ranking by memory, percentages, the short size
  form, the order of a full run, the PCI database) are public proof
  functions.
- `app/` is the command-line program: it reads the files and directories,
  makes the `statvfs` calls, sleeps between the two CPU samples, computes
  the floating-point CPU shares, and prints what the library builds.
- `tests/` runs the library on concrete inputs.
