use vstd::prelude::*;

verus! {

/// The deployment environment; seeding is gated on it outside the core.
#[derive(Debug, Clone, Copy, PartialEq, Eq, Structural)]
pub enum ConfigEnv {
    Dev,
    Live,
}

pub const ENV: ConfigEnv = ConfigEnv::Dev;

} // verus!
