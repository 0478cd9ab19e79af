//! A CPU-side 2D rasterizer: shapes described in world coordinates are
//! scan-converted into an owned RGBA framebuffer.

mod stage;
pub use stage::Stage;

mod arith;
mod path;
pub use path::Path;

mod primitives;
pub mod shapes;
pub use primitives::line::draw_line_pxl;
pub use primitives::triangle::draw_triangle_pxl;
pub use primitives::triangle::fill_triangle;
mod style;
pub use style::Color;
pub use style::Style;
pub use style::Opacity;
pub use style::Fill;
pub use style::Stroke;
