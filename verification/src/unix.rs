//! A heap-backed storage client for hosted targets.

use vstd::prelude::*;

use crate::common::zero_vec;
use crate::eight_data::EightData;

verus! {

/// Storage over an owned, heap-allocated byte vector.
pub struct EightDataClient {
    core: Vec<u8>,
}

impl EightDataClient {
    /// Zero-filled storage of the given length.
    pub fn new(length: usize) -> (r: Self)
        ensures
            r.data_spec().len() == length,
            forall|i: int| 0 <= i < length ==> r.data_spec()[i] == 0u8,
    {
        Self { core: zero_vec(length) }
    }

    /// Storage over the given bytes.
    pub fn with_data(core: Vec<u8>) -> (r: Self)
        ensures
            r.data_spec() == core@,
    {
        Self { core }
    }
}

impl EightData for EightDataClient {
    closed spec fn data_spec(&self) -> Seq<u8> {
        self.core@
    }

    fn data_core(&self) -> (r: &Vec<u8>) {
        &self.core
    }

    fn core_mut(&mut self) -> (r: &mut Vec<u8>) {
        &mut self.core
    }

    fn as_vev(&self) -> (r: &Vec<u8>) {
        &self.core
    }

    fn len(&self) -> (r: usize) {
        self.core.len()
    }
}

} // verus!
