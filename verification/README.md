# bevy_luau

An integration layer between the Bevy engine and Luau scripts, split in two:

- `src/` is the verified library (Verus). It computes the memory layout of components
  that scripts declare (fields laid out as `std::alloc::Layout::extend` does, with the
  alignment rules proved), encodes and decodes field values in component bytes, interns
  strings shared with scripts (through `lasso`), plans queries and their write-back,
  tracks the components and queries a script declared until the engine registers them,
  picks the systems and observers to run, and checks script commands. Its contracts and
  laws (read-back of written fields, disjoint field placement, exact write-back plans,
  stable string keys) are proved.
- `app/` is the engine-facing crate: the Bevy plugin, systems and asset loader, the Lua
  VM calls (`mluau`), and the raw pointer work that hands component bytes to Bevy.

Layout of `src/`: `layout` (layouts and alignment), `types` (field types and script
values), `pool` (string interning), `fields` (field encoding), `schema` (component
schemas and their registry), `bridge` (building and reading component bytes), `query`
(query plans and write-back), `runtime` (declared components and queries), `systems`,
`commands`, `native` (engine-provided resources such as time), `loading`.
