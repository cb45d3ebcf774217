# exn

Context-aware errors organised as a tree. An `Exn<E>` holds its top-level
error and a tree of frames; each frame keeps the message of its error, the
location where it was created, and its children: the sources of the error
and the exceptions it was raised over.

- `src/frame.rs`, `src/location.rs`: the frame tree and its model.
- `src/exn.rs`: creating and raising exceptions.
- `src/render.rs`: the `Debug` rendering of a tree, and its laws.
- `src/anyhow_interop.rs`: conversions from and into `anyhow::Error`.
- `app/`: the layer that reads messages, source chains and caller
  locations from `std::error::Error` values and hands them to the library.
