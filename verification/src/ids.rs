//! Opaque tokens for callers, service names, and key symbols.

use vstd::prelude::*;

verus! {

/// The caller identity issued by the bus transport for the lifetime of one
/// connection (a "unique name"). It is abstracted here as an opaque,
/// comparable token; the bus glue assigns one token per connection.
#[derive(Clone, Copy, PartialEq, Eq, Structural, Debug)]
pub struct Identity(pub u64);

/// A stable, human-assigned service name that zero or one identity owns at
/// any instant, abstracted as an opaque, comparable token.
#[derive(Clone, Copy, PartialEq, Eq, Structural, Debug)]
pub struct WellKnownName(pub u64);

/// A keyboard symbol in its 32-bit wire form.
pub type Keysym = u32;

} // verus!
