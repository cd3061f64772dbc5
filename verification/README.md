# rcore_kernel

The decision logic of a teaching kernel's system calls, with contracts and proofs.

- `src/task_manager.rs` — the ready queue and its stride scheduler, with the
  law that strides stay within `BIG_STRIDE / 2` of one another.
- `src/fs.rs` — the file-descriptor table and the checks of `read`, `write`,
  `open`, `close`, `fstat` and `linkat`.
- `src/memory.rs` — an address space as a map from page numbers to entries,
  `mmap` and `munmap`, and the law that `munmap` undoes `mmap`.
- `src/process.rs` — time values, priorities, fork, spawn, sleep and `waitpid`.
- `src/sync.rs` — mutex, semaphore and condition-variable tables with the
  bookkeeping of the deadlock check.
- `src/slots.rs` — first-free-slot allocation shared by those tables.
- `app/lib.rs` — the global ready queue and the system calls assembled from the
  library and the kernel services (blocking, scheduling, user memory, disk).
