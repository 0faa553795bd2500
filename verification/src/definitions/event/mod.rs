//! Notifications that the platform layer hands to its users.

pub mod output_event;
pub mod seat_event;
pub mod surface_event;
