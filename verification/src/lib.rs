//! A directory inventory engine: cumulative sizes of a directory tree, built
//! bottom-up, published while the scan is still running, and cancellable.

pub mod events;
pub mod path;
pub mod scanner;
pub mod shared;
pub mod tree;
pub mod walker;
