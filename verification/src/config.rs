//! The settings of the listing service.

use vstd::prelude::*;

verus! {

/// Where the service finds its records and where it listens.
#[derive(Clone, Debug)]
pub struct ConfigParams {
    /// The file that holds the stored records.
    pub db_file: String,
    /// The port on which the service listens.
    pub port: u16,
    /// The path under which the service is reached, if it is not the root.
    pub url_prefix: Option<String>,
}

} // verus!
