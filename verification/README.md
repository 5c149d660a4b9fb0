# hyperhle

The guest-facing half of a high-level emulator of old handheld applications:
parts of the C library and of a few system frameworks, written in Verus. Every
function states in its contract what it does to the guest's memory, files and
objects, and is proved to do it.

- `src/mem.rs`, `src/heap.rs`, `src/paths.rs`, `src/fs.rs`, `src/objc.rs`,
  `src/environment.rs`: the guest's memory, files, objects and surroundings.
- `src/libc/`: descriptors, streams, options, semaphores and `stdlib.h`.
- `src/frameworks/`: dictionaries, audio files, contexts, data providers and
  windows.
- `src/text.rs`: strings, and the few functions of the standard library whose
  contracts are believed rather than proved.
- `app/`: floating-point numbers, the host's console, clock and process, and the
  guest's own code.

What a function wants of the guest's objects or code it lists as actions,
messages or commands, or returns as the next step; `app/` carries them out.
Floating-point numbers are carried as bits. Laws that relate several functions
are public proof functions whose names begin with `law_`.
