# dll_pack

Packs of dynamic libraries. A pack is described by manifests that name, for each
platform, a library file and the packs and libraries that it depends on.

- `src/` decides, and Verus proves what is decided: which manifests are read and
  fetched (`resolve`, `download`), in what order libraries are loaded (`order`),
  what a pack has in the cache (`cached`), whether a pack is loaded natively or as
  a Wasm module (`load`, `wasm`, `module_load`, over the calls in `runtime`), and how
  native libraries share one linker namespace (`linux_dlmopen`, `native_load`,
  `library`). Each task says what it needs next and goes on with the reply. The modules that end in `_laws` state what
  a task comes to as a whole.
- `app/` answers: it touches the disk, the network, the linker and the Wasm runtime.
- `tests/` runs the library against manifests that are held in memory.
