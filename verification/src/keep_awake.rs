//! Keeping the Mac awake while cloud access is on.
use vstd::prelude::*;

verus! {

/// The `caffeinate` flags held while cloud access is on: prevent idle sleep (`-i`),
/// disk idle sleep (`-m`) and system sleep on AC power (`-s`). None needs
/// administrator rights, and the display may still sleep.
pub fn caffeinate_args() -> (r: [&'static str; 3])
    ensures
        r@[0]@ == "-i"@,
        r@[1]@ == "-m"@,
        r@[2]@ == "-s"@,
{
    ["-i", "-m", "-s"]
}

} // verus!
