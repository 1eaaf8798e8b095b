//! Packaging and flashing of microcontroller firmware bundles.
//!
//! The library holds the logic of both halves: reading and flattening
//! executable images into bundle artifacts, and resolving and planning the
//! register writes of a flash procedure. Talking to files, archives and debug
//! probes is left to the caller.

pub mod bundle;
pub mod flash;
pub mod image;
pub mod linear;
pub mod lookup;
pub mod register;
pub mod resources;
pub mod svd;
