//! Choosing and addressing the forge behind the `origin` remote.

use vstd::prelude::*;
use crate::text::{push_str, push_string, string_from_chars, starts_with, has_prefix};

verus! {

/// The API base URL of a self-hosted GitLab as configured, with `https://`
/// added when it names no scheme.
pub fn gitlab_api_url(api_url: Option<&str>) -> (r: Option<String>)
    ensures
        api_url is None ==> r is None,
        api_url matches Some(u) ==> (r matches Some(x) && x@ == (if starts_with(u@, "http://"@) || starts_with(
            u@,
            "https://"@,
        ) {
            u@
        } else {
            "https://"@ + u@
        })),
{
    match api_url {
        None => None,
        Some(u) => {
            if has_prefix(u, "http://") || has_prefix(u, "https://") {
                Some(String::from_str(u))
            } else {
                let mut v: Vec<char> = Vec::new();
                push_str(&mut v, "https://");
                push_str(&mut v, u);
                Some(string_from_chars(&v))
            }
        },
    }
}

/// The self-hosted GitLab host to use for a remote: the configured one,
/// but only when the remote is not recognised without it (a gitlab.com
/// remote keeps the standard address and credentials).
pub fn self_hosted_host(configured: Option<String>, recognised_without: bool) -> (r: Option<String>)
    ensures
        r == (if recognised_without { None } else { configured }),
{
    if recognised_without {
        None
    } else {
        configured
    }
}

/// The error for a remote that is no known forge.
pub fn unsupported_forge_message(supported: &str) -> (r: String)
    ensures
        r@ == "unsupported forge: remote is not a recognized forge repository (supported: "@ + supported@ + ")"@,
{
    let mut v: Vec<char> = Vec::new();
    push_str(&mut v, "unsupported forge: remote is not a recognized forge repository (supported: ");
    push_str(&mut v, supported);
    push_str(&mut v, ")");
    string_from_chars(&v)
}

/// The context of a failed authentication with a forge.
pub fn auth_context(display_name: &str, hint: &str) -> (r: String)
    ensures
        r@ == "Failed to authenticate with "@ + display_name@ + " - "@ + hint@,
{
    let mut v: Vec<char> = Vec::new();
    push_str(&mut v, "Failed to authenticate with ");
    push_str(&mut v, display_name);
    push_str(&mut v, " - ");
    push_str(&mut v, hint);
    string_from_chars(&v)
}

} // verus!
