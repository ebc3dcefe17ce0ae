//! Verified core of a sprite-animation editor for a hardware
//! object-attribute-memory (OAM) sprite model.
//!
//! The library covers the OAM codec (packed and flat byte layouts), the cel
//! model, the animation timeline engine (duration-based and position-based
//! frame lists), and the project serialization layer (binary project format
//! and the C-array text interchange format).  All I/O and rendering stays
//! outside; every function here works on plain values and carries a proved
//! contract.

pub mod animation;
pub mod cel;
pub mod export;
pub mod import;
pub mod oam;
pub mod palette;
pub mod parse;
pub mod project;
pub mod session;
pub mod sprite;
