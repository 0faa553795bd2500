//! Building blocks shared by the platform backends.

pub mod linux;
pub mod output_backends;
pub mod partial_backends;
pub mod post_processing;
pub mod state_tracker;

pub use post_processing::PostProcessing;
pub use state_tracker::StateTracker;
