//! Bulk renaming of files in a working directory, driven by an editable
//! textual list of `old-name|new-name` lines.
//!
//! The crate holds the three verified stages: the line codec that turns text
//! into rename pairs and back ([`codec`]), the fail-fast engine that applies
//! pairs in order and undoes them in reverse order on a failure ([`engine`]),
//! and a mathematical model of the directory namespace against which the
//! engine's rollback guarantee is proved ([`fsmodel`]). The filesystem
//! itself, the external editor and the standard streams stay outside, in the
//! surrounding program, which performs each rename the engine asks for and
//! reports the result back.

pub mod codec;
pub mod engine;
pub mod fsmodel;
pub mod pair;
