use vstd::prelude::*;

verus! {

/// The parameters of a windowed read request.
#[derive(Debug)]
pub struct Topic {
    pub topic: String,
    pub amount: Option<u32>,
    pub time_since_last_update: Option<u32>,
}

} // verus!
