//! The options the program is started with.
use vstd::prelude::*;

verus! {

/// Command-line arguments for meshcorestat.
#[derive(Debug, Clone)]
pub struct Args {
    /// Serial port name (e.g. COM3, /dev/ttyUSB0)
    pub port: String,
    /// Baud rate for the serial connection
    pub baud: u32,
    /// Auto-refresh interval in seconds (0 - no auto-refresh)
    pub interval: u64,
    /// Metrics to plot as histograms in TUI (only used when interval > 0)
    pub metrics: Vec<String>,
    /// Print debug info (sent/received bytes) to stderr
    pub debug: bool,
}

} // verus!
