//! Which streaming service a show comes from.
use vstd::prelude::*;

verus! {

/// The catalog a show was loaded from.
#[derive(Debug, Clone, Copy, PartialEq, Eq, Hash, Structural)]
pub enum Service {
    Nugs,
    LivePhish,
    Bman,
}

impl Default for Service {
    fn default() -> (r: Self)
        ensures
            r == Service::Nugs,
    {
        Service::Nugs
    }
}

} // verus!
