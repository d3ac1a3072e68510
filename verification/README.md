# super_safe_glibc_wrappers

A library preloaded into C programs (`LD_PRELOAD`) that wraps some libc
functions to mitigate security risks:

- after `__libc_start_main()` memory is never freed, to prevent use after free;
- a format string that lies in the stack, the heap or writable memory is
  printed as data (`printf("%s", format)`), never used as a format;
- optionally (`--cfg enable_n_directive_filter`), format strings holding `%n`
  are refused.

Layout:

- `src/` is verified with Verus: the reading of `/proc/self/maps`
  (`maps.rs`, on top of the text functions of `text.rs`), the decisions of
  the `printf`-family and `free` hooks (`hooks.rs`), the state of the
  connection to the log server and the logged messages (`logging.rs`), and
  the naming of the log server's files (`server.rs`).
- `app/` holds the hooks themselves (symbol lookups, pointer reads, register
  plumbing), the file and network I/O, and the log server.
