//! Backend-independent managers: the layout of the outputs and its repair.

pub mod adjacency;
pub mod align;
pub mod groups;
pub mod healing;
pub mod keeper;
pub mod new_output_manager;
pub mod output_manager;
pub mod physical_output;
pub mod reach;
pub mod registry;
pub mod repair;
pub mod side_by_side;
pub mod surface_manager;

pub use keeper::OutputConstraintKeeper;
pub use output_manager::{LayoutError, OutputManager, PhysicalOutputEvent};
pub use physical_output::{PhysicalOutput, Shape};
pub use registry::{Registry, RegistryEntry};
pub use side_by_side::SideBySide;
