//! Memory reclamation for concurrent data structures.
pub mod collector;
pub mod effects;
pub mod freestanding;
pub mod guard;
pub mod history;
pub mod laws;
pub mod lock;
pub mod memory;
pub mod operations;
pub mod process;
pub mod raw;
pub mod state;
pub mod sync;
pub mod text;
pub mod thread;
