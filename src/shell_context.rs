//! Settings that both the project and the user may give.
use vstd::prelude::*;

verus! {

/// A setting as configured: the project's value if it gives one, else the user's.
pub fn configured(project: Option<bool>, user: Option<bool>) -> (r: Option<bool>)
    ensures
        r == (match project {
            Some(p) => Some(p),
            None => user,
        }),
{
    match project {
        Some(p) => Some(p),
        None => user,
    }
}

} // verus!
