//! Data aggregation and chart-geometry pipeline.
//!
//! Raw delimited text is turned into the numeric structures three fixed
//! charts need: a frequency histogram, a scatter plot, and a pie chart of
//! value frequencies.  Rasterizing a finished chart specification to an
//! image is left to an external renderer.

pub mod aggregate;
pub mod chart;
pub mod numeric;
pub mod palette;
pub mod reader;
pub mod series;
