//! Labels of the request counter.
use vstd::prelude::*;

verus! {

/// The class of a status code; `none` where no response was written.
pub open spec fn class_of(status: u16) -> Seq<char> {
    if status == 0 {
        "none"@
    } else if 100 <= status <= 199 {
        "1xx"@
    } else if 200 <= status <= 299 {
        "2xx"@
    } else if 300 <= status <= 399 {
        "3xx"@
    } else if 400 <= status <= 499 {
        "4xx"@
    } else if 500 <= status <= 599 {
        "5xx"@
    } else {
        "other"@
    }
}

/// The label that a completed request is counted under.
pub fn status_class(status: u16) -> (r: &'static str)
    ensures
        r@ == class_of(status),
{
    if status == 0 {
        "none"
    } else if 100 <= status && status <= 199 {
        "1xx"
    } else if 200 <= status && status <= 299 {
        "2xx"
    } else if 300 <= status && status <= 399 {
        "3xx"
    } else if 400 <= status && status <= 499 {
        "4xx"
    } else if 500 <= status && status <= 599 {
        "5xx"
    } else {
        "other"
    }
}

} // verus!
