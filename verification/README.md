# strace_lite

A small `strace` for AArch64 Linux, written in Verus.

The library (`src/`) holds the decisions of the tracer, each with a
contract proved by Verus:

- `text`: decimal and `0x` hexadecimal text, joining pieces.
- `decoder::syscalls`: names for `openat`, `mmap` and `mprotect` flags and
  for directory descriptors.
- `ptrace::mm`: C strings and byte buffers of the tracee, rendered word by
  word (the renderer says which word to read next), and byte escaping.
- `handler::syscall`: the entry and exit text of each system call.
- `tracer`: pairing entry and exit stops, and the final report.
- `cli`: the command line and lists of process ids.

The program (`app/main.rs`) does the process work around it: fork and
exec, ptrace attach and detach (it traces the first of the processes it
attaches to), waitpid, signals, and printing. It hands the library each
stop's registers and the words of memory the library asks for.
