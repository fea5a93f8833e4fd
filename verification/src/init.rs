//! Setting the tool up in a repository.

use vstd::prelude::*;
use crate::output::MessageKind;
use crate::text::{push_str, push_string, string_from_chars};

verus! {

/// What setting up reports: a warning when the repository is set up
/// already (and nothing is done, `false`); otherwise (`true`) the default
/// branch that was detected or the fallback to "main", that it is done,
/// and where the state is kept.
pub fn init_messages(already: bool, detected: &Option<String>, state_dir: &String) -> (r: (bool, Vec<(MessageKind, String)>))
    ensures
        already ==> !r.0 && r.1@.len() == 1 && r.1@[0].0 == MessageKind::Warn
            && r.1@[0].1@ == "Rung is already initialized in this repository"@,
        !already ==> r.0 && r.1@.len() == 3
            && r.1@[0].0 == MessageKind::Info
            && r.1@[0].1@ == (match *detected {
                Some(b) => "Detected default branch: "@ + b@,
                None => "Could not detect default branch, using \"main\" as fallback"@,
            })
            && r.1@[1].0 == MessageKind::Success && r.1@[1].1@ == "Initialized rung in this repository"@
            && r.1@[2].0 == MessageKind::Info && r.1@[2].1@ == "State stored in: "@ + state_dir@,
{
    let mut r: Vec<(MessageKind, String)> = Vec::new();
    if already {
        r.push((MessageKind::Warn, String::from_str("Rung is already initialized in this repository")));
        return (false, r);
    }
    match detected {
        Some(b) => {
            let mut v: Vec<char> = Vec::new();
            push_str(&mut v, "Detected default branch: ");
            push_string(&mut v, b);
            r.push((MessageKind::Info, string_from_chars(&v)));
        },
        None => {
            r.push((MessageKind::Info, String::from_str("Could not detect default branch, using \"main\" as fallback")));
        },
    }
    r.push((MessageKind::Success, String::from_str("Initialized rung in this repository")));
    let mut v: Vec<char> = Vec::new();
    push_str(&mut v, "State stored in: ");
    push_string(&mut v, state_dir);
    r.push((MessageKind::Info, string_from_chars(&v)));
    (true, r)
}

} // verus!
