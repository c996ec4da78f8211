//! The API-key check: a request is authorized iff its Authorization header
//! is exactly `Bearer` followed by the configured key.

use vstd::prelude::*;
use vstd::string::StringExecFns;

verus! {

/// Whether the Authorization header authorizes the request: it must be
/// present and read exactly `Bearer <api_key>`.
pub fn validate_api_key(auth_header: Option<&String>, api_key: &String) -> (r: bool)
    ensures
        r == match auth_header {
            Some(h) => h@ == "Bearer "@ + api_key@,
            None => false,
        },
{
    match auth_header {
        Some(h) => {
            let expected = String::from_str("Bearer ").concat(api_key.as_str());
            *h == expected
        },
        None => false,
    }
}

} // verus!
