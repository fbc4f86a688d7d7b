# autonice

Automatically renice processes the moment they exec, driven by eBPF, with the
decisions verified by [Verus](https://github.com/verus-lang/verus).

A tracepoint on `sched_process_exec` streams every exec to a userspace daemon,
which matches the binary against a config and calls `setpriority(2)`. A second
one, on `sched_process_fork`, reports every fork, so that the daemon knows the
descendants of a process before they exec.

Two kinds of match:

- **Single binaries** (`[rules]`): by basename; opt in to path-substring
  matching with the table form `{ nice = N, substring = true }`.
- **Subtrees** (`[cargo]`, `[subtree]`): renice `cargo`, or each configured root,
  and everything it spawns. What belongs to the subtree of `cargo` gets the nice
  value of `[cargo]`, also under another root.

```toml
[cargo]
nice = 19

[subtree]
nice = 19
roots = ["make"]

[rules]
dd = 19
ffmpeg = { nice = 15, substring = true }
```

The config is read from `./autonice.toml`, then `/etc/autonice.toml`; without
either a built-in default is used.

## Layout

- `src/` is the library: what the probes read and submit, the records they
  submit, the configuration, and what the daemon does about each event. Every
  function states what it returns, and the laws that hold of the whole
  (`law_*`) are proved. The TOML syntax is the `toml_edit` crate's, and text that is
  not UTF-8 is repaired by the standard library; the contracts name their
  results.
- `app/` is the program: the event loop, `/proc`, `setpriority(2)`, files and
  systemctl, and in `app/ebpf.rs` the kernel side, which is built by itself for
  the bpf target. A build with `--cfg embed_ebpf` takes the object that
  `AUTONICE_EBPF_OBJECT` names into the program, which is then a single file; one
  without it looks for `autonice.bpf.o` beside itself, and does not install.
- `tests/` runs the library.
