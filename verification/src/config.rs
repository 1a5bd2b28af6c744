//! The configuration of the service.

use vstd::prelude::*;

verus! {

/// Declares `std::path::PathBuf`, of which nothing is claimed: a path is
/// carried through and never read.
#[verifier::external_type_specification]
#[verifier::external_body]
pub struct ExPathBuf(std::path::PathBuf);

/// What the service is started with.
pub struct Config {
    /// Directory of the static files.
    pub www_dir: std::path::PathBuf,
    /// Port on which the service listens.
    pub port: u16,
    /// URL of the database.
    pub database_url: String,
}

impl Config {
    /// The address on which the service listens: the loopback interface and
    /// the configured port.
    pub fn listen_address(&self) -> (address: ([u8; 4], u16))
        ensures
            address.0@ == seq![127u8, 0u8, 0u8, 1u8],
            address.1 == self.port,
    {
        let host: [u8; 4] = [127, 0, 0, 1];
        assert(host@ =~= seq![127u8, 0u8, 0u8, 1u8]);
        (host, self.port)
    }
}

} // verus!
