//! Rules of the Git commands: what is refused, which steps run in which order, and what is answered.
pub mod branches;
pub mod command_console;
pub mod remotes;
pub mod stash;

use vstd::prelude::*;
use vstd::string::*;

verus! {

/// The message for a repository that does not say who commits.
pub fn missing_signature_message() -> (r: String)
    ensures
        r@ == "Configure user.name and user.email for this repository"@,
{
    "Configure user.name and user.email for this repository".to_owned()
}

} // verus!
