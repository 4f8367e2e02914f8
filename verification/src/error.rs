//! Error type shared by the decoder and the query engine.

use vstd::prelude::*;

verus! {

/// Every way a call into this crate can fail.
#[derive(Clone, Copy, Debug, PartialEq, Eq, Structural)]
pub enum HwinfoError {
    /// The named shared-memory segment was absent or could not be mapped.
    /// Produced by the embedding program's connector, never by the decoder.
    NotFound,
    /// The buffer is malformed: too short for the header, a section that
    /// would read past the buffer end, an element size below the fixed
    /// record layout, an unknown reading-type tag, or a fixed-width text
    /// field that is not valid UTF-8.
    DecodeError,
    /// A reading record names a sensor position at or past the catalog's
    /// sensor count.
    IndexOutOfRange,
    /// A query matched nothing in the current snapshot.
    LookupNotFound,
}

} // verus!
