//! Decoding of StarCraft II replay streams.
//!
//! A replay is a set of byte streams whose layout depends on the build of the game that
//! wrote them. `protocol` reads the schema of a build: its table of type descriptors, the
//! events of its three event streams and its named type indices. `replay` reads streams
//! with a bit cursor and decodes them, in the versioned or in the bit-packed dialect, into
//! trees of parsed values.
//!
//! Every function states what it returns over mathematical models of its data: the views
//! of the types and the `*_form` and `*_at` functions that say what a text or a stream
//! holds. The proof functions named `lemma_*` state what holds of those models in general.

pub mod protocol;
pub mod replay;
