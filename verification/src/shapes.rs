//! World-space shape entry points.

pub mod circles;
pub mod polygons;
pub mod triangles;
pub use circles::circle;
pub use self::polygons::line;
pub use polygons::rectangle;
pub use polygons::square;
pub use triangles::triangle;
pub use triangles::equilateral_triangle;
