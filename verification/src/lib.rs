//! Visual comparison of rendered document pages.
//!
//! Two page images of equal size are compared tile by tile, with rectangular
//! zones that may be excluded per page. The differing tiles can be tinted, the
//! excluded zones outlined, and the two annotated pages joined side by side.

pub mod compose;
pub mod config;
pub mod differ;
pub mod geometry;
pub mod highlight;
pub mod outline;
pub mod raster;
pub mod selector;

pub use compose::compose;
pub use config::Config;
pub use differ::compare_images_in_chunks;
pub use geometry::Rectangle;
pub use highlight::highlight_chunks;
pub use outline::draw_ignored_rectangles;
pub use raster::{Bitmap, Color};
