//! Why a configuration is refused.

use vstd::prelude::*;

verus! {

/// Why a configuration is rejected at start-up.
#[derive(Clone, Copy, Debug, PartialEq, Eq, Structural)]
pub enum ConfigError {
    /// A frequency string is not `<integer><unit>` or is not positive.
    InvalidFrequency,
    /// Two metrics of the configuration share one name.
    DuplicateMetricName,
    /// A database names a driver that the engine does not know.
    UnknownDriver,
}

} // verus!
