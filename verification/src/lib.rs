pub mod binary64;
pub mod canvas;
pub mod colors;
pub mod decimal;
pub mod grid;
pub mod ppm;
pub mod tuples;

pub use canvas::Canvas;
pub use colors::Color;
pub use tuples::Tuple;
