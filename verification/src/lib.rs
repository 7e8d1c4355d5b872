//! Integer core of an OHLCV charting application.
pub mod aggregate;
pub mod axes_util;
pub mod clock;
pub mod compress;
pub mod datawindow;
pub mod db;
pub mod decimal;
pub mod fetch;
pub mod frame;
pub mod frametimes;
pub mod interactivegui;
pub mod performance;
pub mod settings;
pub mod sort;
pub mod timeframe;
pub mod utc;

pub use timeframe::Timeframe;
