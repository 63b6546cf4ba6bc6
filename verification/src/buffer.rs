//! Records waiting to be written.
use crate::record::Record;
use vstd::prelude::*;

verus! {

/// The records held in memory, in the order they came.
#[derive(Clone, Debug)]
pub struct Buffer {
    records: Vec<Record>,
}

impl Buffer {
    /// The records held, in order.
    pub closed spec fn records(&self) -> Seq<Record> {
        self.records@
    }
}

impl Default for Buffer {
    /// An empty buffer.
    fn default() -> (b: Self)
        ensures
            b.records() == Seq::<Record>::empty(),
    {
        Buffer { records: Vec::new() }
    }
}

} // verus!
