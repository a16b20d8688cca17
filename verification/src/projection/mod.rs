//! Projections into files: where they go, and when they are written. Touching the
//! files is left to the caller.

pub mod combined;
pub mod files;
