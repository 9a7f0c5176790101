//! The permissive cross-origin resource sharing policy that the service
//! layer applies to every response, kept here as verified data: the fixed
//! header names and values. Attaching them to actual responses is the
//! service layer's job.

use vstd::prelude::*;

use vstd::string::StringExecFns;

verus! {

/// The cross-origin policy: three fixed response headers allowing any
/// origin, the usual methods, and the usual request headers.
pub struct Cors;

impl Cors {
    /// The header pairs of the policy, in application order.
    pub fn headers() -> (r: Vec<(String, String)>)
        ensures
            r@.len() == 3,
            r@[0].0@ == "Access-Control-Allow-Origin"@,
            r@[0].1@ == "*"@,
            r@[1].0@ == "Access-Control-Allow-Methods"@,
            r@[1].1@ == "POST, PATCH, PUT, DELETE, HEAD, OPTIONS, GET"@,
            r@[2].0@ == "Access-Control-Allow-Headers"@,
            r@[2].1@ == "Authorization, Content-Type, Accept"@,
    {
        let mut r: Vec<(String, String)> = Vec::new();
        r.push((String::from_str("Access-Control-Allow-Origin"), String::from_str("*")));
        r.push(
            (
                String::from_str("Access-Control-Allow-Methods"),
                String::from_str("POST, PATCH, PUT, DELETE, HEAD, OPTIONS, GET"),
            ),
        );
        r.push(
            (
                String::from_str("Access-Control-Allow-Headers"),
                String::from_str("Authorization, Content-Type, Accept"),
            ),
        );
        r
    }
}

} // verus!
