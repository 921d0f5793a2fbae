//! Process-wide settings.
use vstd::prelude::*;

verus! {

/// Settings of the process.
pub struct Constants {
    /// The secret that signs session tokens.
    pub auth_secret: String,
}

} // verus!
