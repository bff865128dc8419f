# vite_plus

The decision logic of the Vite+ command-line tooling, written in Verus and
proved against its contracts.

- `src/` is the verified library: command resolution and routing, `vp check`
  and `vp exec` planning, package-manager argument resolution, the directory
  layout, toolchain manifests, shim and sidecar formats, hash pins, download
  and installation decisions. Calls into outside crates (semver, node-semver,
  petgraph, sha1/sha2, base64-simd, pathdiff, rustls) stand behind small
  trusted wrappers whose doc comments say what is assumed of them.
  `PATH` lists are split, joined and compared by the conventions of a
  `Platform` (Unix or Windows) that the caller passes in; `app/` passes the
  one it was built for. The directory layout has a Unix chain (XDG and the
  Unix defaults) and a Windows chain (the application-data folders).
- `tests/` runs the library on concrete values.
- `app/` is the unverified edge: clap front-ends, files, archives, child
  processes, terminal output, and the drivers of the step functions (the
  app-target resolution, `vp check`). It reads, writes and spawns, and
  hands what it found to the library, which decides.
