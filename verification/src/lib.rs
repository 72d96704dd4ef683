//! Temperature monitoring for storage drives: the decisions, parsers and
//! screen texts of a terminal monitor, verified with Verus.
//!
//! - [`text`]: whitespace, trimming, searching, decimal numbers, padding.
//! - [`size`]: drive sizes in gibibytes with one decimal.
//! - [`display`]: the temperature bar, banner, status line and log record.
//! - [`disk`]: describing, ordering and choosing drives; selector rows.
//! - [`sensor`]: reading temperatures out of sysfs, hwmon, smartctl and PowerShell output.
//! - [`selector`]: the interactive drive selector.
//! - [`monitor`]: the monitoring loop's decisions.
//! - [`args`]: the command-line options.

pub mod args;
pub mod disk;
pub mod display;
pub mod monitor;
pub mod selector;
pub mod sensor;
pub mod size;
pub mod text;
