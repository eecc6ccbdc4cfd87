//! Answer to the request that starts a backup.

use vstd::prelude::*;

verus! {

#[derive(Debug, Clone, Eq, PartialEq, Hash)]
pub struct Response {
    pub status: String,
}

impl Default for Response {
    fn default() -> (response: Self)
        ensures
            response.status@ == Seq::<char>::empty(),
    {
        Response { status: String::new() }
    }
}

} // verus!
