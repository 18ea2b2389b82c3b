# rsc

Building blocks of a charging daemon for MediaTek devices: they cut and resume
charging, toggle the battery's thermal delimiter, wait for kernel uevents and keep
a rotating log. When to cut or to resume is up to the daemon.

`src/` is a library in Verus that performs no I/O. Where something has to be done,
a function of the library says what comes next and is told how it went:

| module | what it decides |
| --- | --- |
| `uevent`, `utf8` | what a kernel message says, and whether it concerns the battery |
| `listener` | what each answer of the netlink socket means |
| `battery` | what the battery's nodes say |
| `mtk`, `charging`, `thermal` | which knob is written next, and what is undone after a failure |
| `logger`, `logfmt`, `clock` | what a log line looks like and when the log is rotated |
| `rotation` | what rotation does to the files (proofs only) |
| `path`, `text`, `io_error` | paths, texts and system errors as plain values |

`app/` holds the system calls: files, the socket and sleeping. `tests/` runs the
library on concrete values.

Three things are taken on trust: that `String::push` appends its character, that
`char::from_u32` turns a scalar value into its character, and that `chrono`
formats the local time in the shape that `clock::is_timestamp` states.
