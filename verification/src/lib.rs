//! A generational slot arena.
//!
//! The arena (`space::Space`) stores values in a dense backing vector and
//! hands out small, copyable handles (`space::Index`) that pair a slot
//! position with a generation stamp. A handle stays safe to keep forever:
//! once its slot is reclaimed and reused, lookups with the old handle are
//! rejected by the generation check instead of silently returning the new
//! occupant.

pub mod joint;
pub mod objects;
pub mod rigid_body;
pub mod space;
pub mod spatial;
