//! What a program without an operating system has to bring along.
pub mod bytes;
pub mod bump;
pub mod futex;
pub mod harness;
