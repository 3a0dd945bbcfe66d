//! The storage collaborator: a contiguous mutable byte range of known,
//! fixed length. The packing engine never allocates, grows or frees memory
//! itself; it only reads and writes through this interface.

use vstd::prelude::*;

verus! {

/// Read and write access to a contiguous byte range.
pub trait EightData {
    /// The bytes currently held.
    spec fn data_spec(&self) -> Seq<u8>;

    /// Shared read access to the whole range.
    fn data_core(&self) -> (r: &Vec<u8>)
        ensures
            r@ == self.data_spec(),
    ;

    /// Exclusive write access to the whole range.
    fn core_mut(&mut self) -> (r: &mut Vec<u8>)
        ensures
            r@ == old(self).data_spec(),
            final(self).data_spec() == final(r)@,
    ;

    /// The bytes as they would go out on the wire.
    fn as_vev(&self) -> (r: &Vec<u8>)
        ensures
            r@ == self.data_spec(),
    ;

    /// The length of the range.
    fn len(&self) -> (r: usize)
        ensures
            r == self.data_spec().len(),
    ;
}

} // verus!
