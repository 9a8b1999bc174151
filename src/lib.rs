//! Forward realized averages of Euribor rate series, and the chart data
//! that compares them with the daily quotes.
//!
//! Rates are exact decimals counted in billionths of a percentage point,
//! and calendar days are counted from the Common Era (0001-01-01 is day 1).
//! A quote file is read into a series of observations ([`loader`]), five
//! series are averaged over forward windows ([`averager`]), and the chart
//! of raw and averaged lines is laid out ([`chart`]).

pub mod averager;
pub mod chart;
pub mod loader;
pub mod rate;
pub mod series;
pub mod tenor;
pub mod text;
pub mod window;

pub use averager::{calculate_average_rates, Average, AveragedSeries};
pub use chart::{create_chart_data, LineDash, PlotKind, Trace, TraceValues};
pub use loader::{fill_forward, load_series, LoadError, RawRow};
pub use series::{Observation, SeriesSet};
pub use tenor::Tenor;
pub use window::window_days_of;
