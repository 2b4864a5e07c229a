# public_api

A verified renderer for the public interface view of a Rust module: one line per public
item (`pub mod crate::a::b`, `pub fn crate::a::b::f(..)`, `impl Trait for Type`, ...), each
line mapped back to the item it shows by its byte range in the text.

- `src/model.rs`: what the view reads of a module, as plain values (paths, rendered
  signatures, visibility, identities, navigation targets, byte ranges).
- `src/text.rs`: line helpers (`ensure_pub`, `qualify_signature`, `single_line`, ...).
- `src/order.rs`: the stable order by optional text keys that sorts names and headers.
- `src/render.rs`: the line of each kind of item, and the paths items are shown under.
- `src/api.rs`: `public_api`, which assembles the text and the mappings.
- `src/laws.rs`: properties proved of every rendering.
- `app/lib.rs`: reads a module out of rust-analyzer's semantic model into `model` values.

`src/` verifies with Verus; `tests/` run it on concrete modules.
