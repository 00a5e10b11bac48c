//! Verified core of the NTEP launcher: the parsing, progress and layout
//! rules that decide what the launcher does, kept apart from the process,
//! file-system and window plumbing that runs them.

pub mod text;
pub mod backend;
pub mod splash;
pub mod uv;
pub mod pipe;
pub mod layout;
pub mod tips;
pub mod steps;
