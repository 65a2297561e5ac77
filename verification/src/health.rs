//! Health-check configuration.
use vstd::prelude::*;

verus! {

/// Configuration of the health check: which port the service answers on.
#[derive(Clone, Debug)]
pub struct HealthArgs {
    pub port: u16,
}

} // verus!
