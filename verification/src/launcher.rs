//! Game profiles and starting a game from one.
use vstd::prelude::*;

verus! {

/// A game profile: the instance it runs from and how to start it.
pub struct Profile {
    pub id: String,
    pub name: String,
    pub game_slug: String,
    pub instance_dir: Vec<String>,
    pub jvm_args: Vec<String>,
    pub mc_version: Option<String>,
    pub loader: Option<String>,
}

/// Why a game could not be started.
#[derive(Debug, PartialEq, Eq)]
pub enum LaunchError {
    /// Starting games is not part of the client yet.
    NotImplemented,
}

impl LaunchError {
    /// What the error says to a user.
    pub fn message(&self) -> (r: String)
        ensures
            r@ == "launcher: not implemented in scaffold"@,
    {
        crate::text::string_of("launcher: not implemented in scaffold")
    }
}

/// Starts the game of `profile`. The client does not start games yet, so
/// this always refuses.
pub fn launch(profile: &Profile) -> (r: Result<(), LaunchError>)
    ensures
        r == Err::<(), LaunchError>(LaunchError::NotImplemented),
{
    Err(LaunchError::NotImplemented)
}

} // verus!
