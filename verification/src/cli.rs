use vstd::prelude::*;

use crate::wrappers::{CliRadType, Property};

verus! {

/// One run's request, as handed over by the caller: the raw nuclide tokens,
/// the radiation type and sort property, whether to fetch live data, and the
/// output selection.
pub struct Cli {
    /// Raw nuclide identifier tokens, exactly as the user wrote them.
    pub nuclides: Vec<String>,
    /// Type of decay radiation to report on.
    pub rad: CliRadType,
    /// Property the records of each nuclide are ordered by.
    pub sort: Property,
    /// Query the live data source rather than the pre-fetched pool.
    pub fetch: bool,
    /// Prefix for output files.
    pub output: String,
    /// Write a plain-text table.
    pub text: bool,
    /// Write a JSON report.
    pub json: bool,
    /// Write MCNP source-distribution cards.
    pub mcnp: bool,
    /// First MCNP distribution number.
    pub id: usize,
    /// Write the raw CSV data.
    pub csv: bool,
    /// Logging verbosity step count.
    pub verbose: u8,
    /// Suppress all log output.
    pub quiet: bool,
    /// Leave ANSI colour out of the printed table.
    pub no_colour: bool,
}

} // verus!
