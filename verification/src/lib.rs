//! Authorization and accessibility-broadcast core of a desktop session
//! service.
//!
//! The library has three parts:
//!
//! - [`codec`]: pure decoding of the bit-packed wire encoding that carries
//!   real hardware modifiers and client-declared virtual modifiers in one
//!   32-bit word;
//! - [`a11y_keyboard_monitor`]: the per-client protocol state of the keyboard
//!   accessibility monitor (grab and watch flags, registered key grabs,
//!   declared virtual modifiers) together with the read-only queries the
//!   input pipeline asks on its hot path;
//! - [`name_owners`]: the registry that tracks which caller identity owns
//!   which well-known bus name, fed by ownership-change events, so that
//!   protocol servers can authorize callers by identity.
//!
//! All bus, input-backend and executor plumbing lives outside this crate;
//! the library works on plain values handed across that boundary.

pub mod a11y_keyboard_monitor;
pub mod codec;
pub mod ids;
pub mod name_owners;
