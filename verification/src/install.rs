//! `prox install`: where the executable goes and how PATH learns about it.

pub mod unix;
pub mod windows;
