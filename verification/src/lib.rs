//! Storage layer of a small embedded operating system personality.
//!
//! The crate provides a uniform device abstraction, a block-structured
//! file-system backend with a task-scoped open-file table, file metadata
//! records, and the text-buffer logic of the terminal front end.

#![allow(non_snake_case)]
#![allow(non_camel_case_types)]
#![allow(non_upper_case_globals)]

pub mod error;
pub mod fundamentals;
pub mod metadata;
pub mod device;
pub mod memory_device;
pub mod image;
pub mod file_system;
pub mod terminal;
pub mod pointer;
pub mod shell;
