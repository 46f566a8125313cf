//! The counter record: the one persistent record type of the program.

use vstd::prelude::*;
use crate::identity::Pubkey;
use crate::identity::KEY_LEN;

verus! {

/// A counter record as stored on chain: the sole identity allowed to mutate
/// it, the current value, and the time of the most recent mutation.
pub struct Counter {
    pub authority: Pubkey,
    pub count: u64,
    pub last_updated: i64,
}

/// The mathematical content of a counter record.
pub struct CounterView {
    pub authority: Seq<u8>,
    pub count: u64,
    pub last_updated: i64,
}

impl View for Counter {
    type V = CounterView;

    open spec fn view(&self) -> CounterView {
        CounterView { authority: self.authority@, count: self.count, last_updated: self.last_updated }
    }
}

impl CounterView {
    /// Well-formed: the authority is a full 32-byte identity.
    pub open spec fn wf(&self) -> bool {
        self.authority.len() == KEY_LEN
    }
}

impl Counter {
    /// Well-formed: the authority is a full 32-byte identity.
    pub open spec fn wf(&self) -> bool {
        self.authority.wf()
    }
}

} // verus!
