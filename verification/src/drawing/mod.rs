//! Chart annotations: anchored points, drawings with their style, and the
//! manager that creates, edits, deletes and undoes them.

pub mod drawing;
pub mod laws;
pub mod manager;
pub mod persistence;
pub mod point;
pub mod style;
pub mod tool;

pub use drawing::Drawing;
pub use manager::DrawingManager;
pub use point::DrawingPoint;
pub use style::{DrawingStyle, LineStyle};
pub use tool::{DrawingId, DrawingTool};
