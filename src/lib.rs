//! Dimension estimation and width redistribution for grids of text cells.

pub mod grid;
pub mod height;
pub mod horizontal_line;
pub mod min_width;
pub mod peaker;
pub mod text;
pub mod width;

pub use grid::{Entity, GridConfig, Padding, Records, Table};
pub use height::HeightEstimator;
pub use horizontal_line::{HorizontalLine, Line};
pub use min_width::MinWidth;
pub use peaker::ColumnPeaker;
pub use text::{increase_width, is_ansi_safe, string_width};
pub use width::{count_borders, widths_and_total};
