# zeroboot

Forks VMs off Firecracker snapshots. `src/` is the verified library, `app/` the program around
it, `tests/` runs the library.

The library reads a snapshot's vmstate file into the state that KVM takes (`vmstate`, `layout`,
`msrs`, `cpuid`), reads the command line (`cli`), and computes what the benchmarks and the API
server need (`bench`, `status`, `keys`, `server`). Each function's contract says what it returns;
`laws` and the functions named `law_...` elsewhere say what holds across functions.

Taken on trust are the default values of four `kvm-bindings` structures (`kvm`) and the reading
of a JSON list of strings by `serde_json` (`keys`).

The program talks to the virtual machine monitor and to the HTTP handlers through the traits in
`app/backend.rs`.
