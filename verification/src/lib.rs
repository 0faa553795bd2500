//! Layout of the physical outputs attached to a host, together with the plain
//! data definitions that the platform layer exchanges with its users.

pub mod backends;
pub mod definitions;
