//! Output backends that need no display server.

pub mod virtual_output_backend;

pub use virtual_output_backend::{StackedOutput, VirtualOutputBackend};
