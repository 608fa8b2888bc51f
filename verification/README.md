# ransomshield

The decisions of a daemon that detects ransomware by its behaviour, verified with
Verus: a process that rewrites many files with encrypted-looking content in a short
time, or that writes to a decoy file, is frozen, what it wrote is moved into
quarantine, and it is killed and reported.

`src/` holds the library. Each module states what it does over a mathematical model and
proves it, together with the laws that the daemon promises its operator:

| Module | What it decides |
|---|---|
| `config` | which configurations are refused, and why |
| `sampling` | which parts of a file are read to measure its entropy |
| `detector` | which writes count, and when they are a burst |
| `baseline` | the scan that finds directories with ordinary content |
| `trust` | which executables are exempt from the burst heuristic |
| `honeypot` | decoy files: putting them in place, recognising them, putting them back |
| `quarantine` | how a file is moved out of harm's way, and under which name |
| `incident` | what a report says, and what the notify hook is told |
| `response` | what is done about a detection, and in which order |
| `monitor` | what is made of each event of the kernel |
| `tree` | a model of directory trees, and what the scan makes of one |
| `path`, `text`, `encoding`, `digest`, `clock`, `table`, `directories` | what the others build on |

Work that alternates with the system is a pair of functions: `action` says what has to
be done next, and `advance` takes what came of it. `app/` is the daemon: it performs the
actions, and measures entropy, which is floating-point arithmetic.
