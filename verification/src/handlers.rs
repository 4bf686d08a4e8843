//! Request handlers whose answer does not depend on the database.

use vstd::prelude::*;
use crate::errors::Error;

verus! {

/// The greeting the site's root answers with (the request itself is not read).
pub fn index() -> (r: Result<&'static str, Error>)
    ensures
        r matches Ok(s) && s@ == "Hello, World!"@,
{
    Ok("Hello, World!")
}

} // verus!
