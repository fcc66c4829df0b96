# posix_locks

POSIX advisory record locks (`fcntl` with `F_SETLK`, `F_SETLKW`, `F_GETLK`) for a
simulated Linux host, verified with Verus.

* `src/lock_model.rs`: locks, conflicts, and what acquiring, releasing and waiting do
  to the locks of a file, as mathematics.
* `src/file_lock_table.rs`: the lock table, proved against the model.
* `src/laws.rs`: what follows for every table: mutual exclusion, what a lock and an
  unlock change byte by byte, who is woken.
* `src/fcntl.rs`, `src/fcntl_laws.rs`: the decisions of the system call.
* `src/segment_facts.rs`: lemmas. `src/abi.rs`: the constants of the C library.
* `app/`: the system call around the library, against the simulator's services.

Ranges are `[start, end)`; `u64::MAX` as an end stands for the end of the file. Open
file flags and command numbers are those of Linux on x86-64.
