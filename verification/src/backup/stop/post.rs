//! Answer to the request that stops a backup.

use vstd::prelude::*;

verus! {

#[derive(Debug, Clone, Eq, PartialEq, Hash)]
pub struct Response(pub String);

impl Default for Response {
    fn default() -> (response: Self)
        ensures
            response.0@ == Seq::<char>::empty(),
    {
        Response(String::new())
    }
}

} // verus!
