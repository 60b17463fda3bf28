# hyperlight_unikraft

The host side of running [Unikraft](https://unikraft.org/) unikernels on the
Hyperlight VMM: what is handed to a guest when it boots, what the guest may ask of
the host while it runs, and what the host answers. The decisions stand in a library
that is verified with Verus; the program around it performs the I/O.

## Layout

`src/` is the library.

| Module | What it decides |
|--------|-----------------|
| `initdata` | the header that carries command line, mounts and wall clock into the guest |
| `memory` | memory sizes as text, and the sizes for the hypervisor |
| `mount` | which host directory is mounted at which guest path |
| `fs_sandbox` | resolving a guest path under the root of a mount, step by step |
| `fs_router` | which mount a guest path belongs to |
| `fs_tools` | the `fs_*` tools: decoding a call, the file operation, the reply |
| `fs_error` | uniform wording for file system errors |
| `net_policy` | which destinations and ports a guest may use |
| `net_tools` | the `net_*` tools: decoding a call, the socket operation, the reply |
| `registry` | tool dispatch: requests, handlers and responses |
| `sandbox` | what a boot is made of, and the life of a sandbox afterwards |
| `snapshot` | which pages of a snapshot file can be punched out |
| `vm_handle` | VM handles for hosts that are not written in Rust |
| `cli` | what the arguments of the launcher stand for |
| `pptx` | the presentation generator |
| `json`, `base64_text`, `text`, `path` | JSON values, base64, text and paths |

Where the library needs something from the outside, it asks: resolving a path and
calling a tool are state machines whose steps name the next question to the file
system, the name service or the socket layer. `serde_json` and `base64` are called
directly, behind contracts that say what is believed of them.

The library cuts paths into names at slashes alone. On Windows, `app/` writes host
paths with slashes for it, and refuses a guest path in which a name holds a backslash.

`app/` is the program: the launcher, the presentation generator, two drivers for
guests with named functions, and the C interface. `tests/` runs the library.
