# seize

Memory reclamation for concurrent data structures, verified with Verus.

An object that has been removed from a concurrent data structure may still be in use by threads that
found it before. It is *retired*, and reclaimed once no *guard* is left that was held when its batch
was handed over. The scheme counts references to batches of retired objects, not to objects: a batch
is handed to every active thread slot, each of them lets go of it when its last guard leaves, and the
last one makes it ready.

## Layout

- `src/` is the verified library.
  - `state` says what a collector knows and what each operation does to it, as mathematics.
  - `raw` is the scheme on rows of words: `heap` is the layout and its invariant, `steps` are the
    elementary changes to it.
  - `memory` is where the rows live: lists in a user-provided allocator, where running out of memory
    is an ordinary outcome.
  - `collector`, `guard`, `process` and `thread` are the interface, and what collectors share.
  - `lock` and `sync` are about mutual exclusion: which lock is in force, and access to shared values.
  - `laws` and `history` state what holds of a collector as a whole: nothing is lost, nothing is
    reclaimed twice, and nothing that was retired under a guard is reclaimed while it is held.
  - `freestanding` is what a program without an operating system brings along.
- `app/` puts the library on real pointers, threads and locks.
- `tests/` runs the library.

Reclaimers are not run by the library. An operation that lets objects go makes them *ready*, and
`Collector::take_ready` hands them out one by one.

An operation that may allocate is two steps: one asks the allocator and changes nothing that can be
seen, and one (its name ends in `_with`) takes the answer and says exactly what comes of it.
