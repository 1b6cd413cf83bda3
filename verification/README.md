# fanotify_fid

Linux `fanotify` as a verified library: it parses what the kernel reports, turns
file handles into paths, and builds permission answers, with contracts that Verus
proves.

## Layout

- `src/` is the library. It makes no system call: a caller passes each as a
  function, or hands over its reply. A descriptor is its number, a path its bytes.
  - `parse`, `fid`, `fd`, `records`, `wire`: the event formats.
  - `handle`, `store`, `resolve`: handles, what is known of them, and paths.
  - `path`, `deleted`, `text`, `bytes`: paths and texts as bytes.
  - `response`: answers to permission events.
  - `builder`, `sys`, `group`, `error`, `error_desc`: groups and their errors.
  - `types`, `owned`, `read`: owned records, parsing them, and recovery of paths
    from a plain map.
- `app/` performs the system calls with `libc` and owns the descriptors. A number
  that an event or a record gives out stays owned by the reader it came from: who
  keeps it longer than the reader does duplicates it.
- `tests/` runs the library.

## What is proved

The contracts say what each function returns, for every input. Beside them stand
laws that relate several calls, among them:

- every byte of a buffer is an event's or is reported as left over;
- a record is understood or kept, never dropped;
- no two events of a batch adopt one descriptor;
- a parsed event borrows every byte it shows, and an owned one borrows none;
- a handle is opened on its own filesystem only, and a learned one keeps its
  answer;
- an entry name never leads out of its directory;
- an answer reads back from its bytes.

What is trusted is listed by its attributes: a probe of the machine's byte order,
UTF-8 decoding, strict and lossy, and the small buffer of `smallvec`.
