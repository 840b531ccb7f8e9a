# vibe_rt

The verified core of `vibe-rt`, a minimal libc-free x86_64 Linux
userspace runtime. The library in `src/` holds every decision the runtime
makes, each with a Verus contract:

- `errno`: decoding raw system call return values into results or `Errno`,
  and the decoders for descriptors, `fork`, `wait4` and `getcwd`.
- `layout`: the bytes the kernel reads: `sockaddr_in`, `timeval`/`timespec`,
  and the layout of the process entry stack.
- `socket`: socket setup (listen, connect) as a state machine from the reply
  of one system call to the next call, closing the socket on every failure.
- `write`: writing a whole buffer through repeated partial `write` calls.
- `startup`: byte-preserving argument and environment readers and the
  environment lookup.
- `memory`: `memset`, `memcpy`, `memmove`, `memcmp`, `bcmp`, `strlen` over
  slices.

`app/` is the system call layer: the `syscall` instruction, process entry,
the exported C memory symbols and formatted printing, each driving the
library.
