//! Address spaces and memory regions.
//!
//! Each task has its own address space. In this model an address space is simply
//! the set of memory regions the task holds a memory capability for. A region is
//! a kernel object with a fixed length of bytes. There is no flat global memory
//! that a task can walk off the end of into a neighbour, so isolation is total
//! by construction: the only way to touch a region is through a capability, and
//! the only way to get a capability is a grant from the kernel or a transfer
//! over IPC.
//!
//! Two tasks share memory when, and only when, they both hold a capability for
//! the same region. That is how a shared buffer or a pager backed page is
//! modelled. Everything else is private.

use crate::capability::ObjectRef;
use crate::error::KernelError;
use crate::{RegionId, TaskId};
use vstd::prelude::*;

verus! {

/// What a region holds.
#[verifier::ext_equal]
pub struct RegionView {
    /// The region identifier.
    pub id: RegionId,
    /// The task that created the region.
    pub owner: TaskId,
    /// The bytes.
    pub data: Seq<u8>,
}

impl RegionView {
    /// The denial for an access at `offset`.
    pub open spec fn out_of_bounds(self, offset: usize) -> KernelError {
        KernelError::OutOfBounds {
            object: ObjectRef::Region(self.id),
            offset,
            len: self.data.len() as usize,
        }
    }

    /// What a read at `offset` gives.
    pub open spec fn read(self, offset: usize) -> Result<u8, KernelError> {
        if offset < self.data.len() {
            Ok(self.data[offset as int])
        } else {
            Err(self.out_of_bounds(offset))
        }
    }

    /// What a write at `offset` answers.
    pub open spec fn write_answer(self, offset: usize) -> Result<(), KernelError> {
        if offset < self.data.len() {
            Ok(())
        } else {
            Err(self.out_of_bounds(offset))
        }
    }

    /// The region after a write at `offset`. Out of bounds, nothing changes.
    pub open spec fn write(self, offset: usize, value: u8) -> RegionView {
        if offset < self.data.len() {
            RegionView { data: self.data.update(offset as int, value), ..self }
        } else {
            self
        }
    }
}

/// A contiguous run of bytes that is a kernel object.
#[derive(Debug, Clone)]
pub struct Region {
    /// The region identifier.
    pub id: RegionId,
    /// The task that created the region. Ownership is informational: access is
    /// always decided by capabilities, not by the owner field.
    pub owner: TaskId,
    /// The backing bytes.
    pub data: Vec<u8>,
}

impl View for Region {
    type V = RegionView;

    open spec fn view(&self) -> RegionView {
        RegionView { id: self.id, owner: self.owner, data: self.data@ }
    }
}

impl Region {
    /// Create a zeroed region of the given length owned by a task.
    pub fn new(id: RegionId, owner: TaskId, len: usize) -> (region: Region)
        ensures
            region@ == (RegionView { id, owner, data: Seq::new(len as nat, |i: int| 0u8) }),
    {
        let data: Vec<u8> = vec![0u8; len];
        proof {
            assert(data@ =~= Seq::new(len as nat, |i: int| 0u8));
        }
        Region { id, owner, data }
    }

    /// The length in bytes.
    pub fn len(&self) -> (len: usize)
        ensures
            len == self@.data.len(),
    {
        self.data.len()
    }

    /// Whether the region has no bytes.
    pub fn is_empty(&self) -> (empty: bool)
        ensures
            empty == (self@.data.len() == 0),
    {
        self.data.len() == 0
    }

    /// Read one byte, bounds checked.
    pub fn read(&self, offset: usize) -> (byte: Result<u8, KernelError>)
        ensures
            byte == self@.read(offset),
    {
        let len: usize = self.data.len();
        if offset < len {
            Ok(self.data[offset])
        } else {
            Err(KernelError::OutOfBounds { object: ObjectRef::Region(self.id), offset, len })
        }
    }

    /// Write one byte, bounds checked.
    pub fn write(&mut self, offset: usize, value: u8) -> (answer: Result<(), KernelError>)
        ensures
            answer == old(self)@.write_answer(offset),
            final(self)@ == old(self)@.write(offset, value),
    {
        let len: usize = self.data.len();
        if offset < len {
            self.data[offset] = value;
            Ok(())
        } else {
            Err(KernelError::OutOfBounds { object: ObjectRef::Region(self.id), offset, len })
        }
    }
}

/// A read gives back what the last write at that offset wrote, and a write
/// changes no other byte, nor the length.
pub proof fn law_read_gives_back_the_write(region: RegionView, offset: usize, value: u8)
    requires
        region.write_answer(offset) is Ok,
    ensures
        region.write(offset, value).read(offset) == Ok::<u8, KernelError>(value),
        forall|other: usize|
            other != offset ==> #[trigger] region.write(offset, value).read(other) == region.read(
                other,
            ),
        region.write(offset, value).data.len() == region.data.len(),
{
}

/// Every byte of a region can be read and written, and nothing beyond it: an access
/// succeeds if and only if the byte exists, and is refused with the region, the
/// offset and the length otherwise. A refused write changes nothing.
pub proof fn law_a_region_ends_where_it_ends(region: RegionView, offset: usize, value: u8)
    ensures
        region.read(offset) is Ok <==> offset < region.data.len(),
        region.write_answer(offset) is Ok <==> offset < region.data.len(),
        region.read(offset) matches Ok(byte) ==> byte == region.data[offset as int],
        region.read(offset) matches Err(e) ==> e == (KernelError::OutOfBounds {
            object: ObjectRef::Region(region.id),
            offset,
            len: region.data.len() as usize,
        }) && region.write_answer(offset) == Err::<(), KernelError>(e) && region.write(
            offset,
            value,
        ) == region,
        region.write(offset, value).id == region.id,
        region.write(offset, value).owner == region.owner,
{
}

} // verus!
