//! The scratch buffers for quantized activations: one per device, which only grows.
use vstd::prelude::*;

use std::collections::HashMap;

verus! {

broadcast use vstd::std_specs::hash::group_hash_axioms;

/// The capacities of the scratch buffers, by device.
pub struct ScratchWorkspace {
    caps: HashMap<u64, usize>,
}

impl View for ScratchWorkspace {
    type V = Map<u64, usize>;

    closed spec fn view(&self) -> Map<u64, usize> {
        self.caps@
    }
}

/// How many bytes must be allocated before a device has a buffer of `bytes`: none, if it has one
/// that is large enough. A buffer is never empty.
pub open spec fn needed_allocation(caps: Map<u64, usize>, device: u64, bytes: usize) -> Option<
    usize,
> {
    if caps.dom().contains(device) && caps[device] >= bytes {
        None
    } else if bytes == 0 {
        Some(1)
    } else {
        Some(bytes)
    }
}

/// The capacities once a device has a buffer of `bytes`.
pub open spec fn ensured(caps: Map<u64, usize>, device: u64, bytes: usize) -> Map<u64, usize> {
    match needed_allocation(caps, device, bytes) {
        Some(allocated) => caps.insert(device, allocated),
        None => caps,
    }
}

/// The capacities after a request for a buffer, whose allocation may have failed.
pub open spec fn requested(
    caps: Map<u64, usize>,
    device: u64,
    bytes: usize,
    allocated: bool,
) -> Map<u64, usize> {
    if allocated || needed_allocation(caps, device, bytes) is None {
        ensured(caps, device, bytes)
    } else {
        caps
    }
}

/// No buffer is empty.
pub open spec fn never_empty(caps: Map<u64, usize>) -> bool {
    forall|device: u64| #[trigger] caps.dom().contains(device) ==> caps[device] >= 1
}

impl ScratchWorkspace {
    /// A workspace without buffers.
    pub fn new() -> (r: Self)
        ensures
            r@ == Map::<u64, usize>::empty(),
            never_empty(r@),
    {
        ScratchWorkspace { caps: HashMap::new() }
    }

    /// The capacity of the buffer of a device.
    pub fn capacity(&self, device: u64) -> (r: Option<usize>)
        ensures
            r == (if self@.dom().contains(device) {
                Some(self@[device])
            } else {
                None
            }),
    {
        match self.caps.get(&device) {
            Some(cap) => Some(*cap),
            None => None,
        }
    }

    /// Tells how many bytes must be allocated before [`Self::q8_scratch_workspace_ensure`].
    pub fn allocation_for(&self, device: u64, bytes: usize) -> (r: Option<usize>)
        ensures
            r == needed_allocation(self@, device, bytes),
    {
        if let Some(cap) = self.capacity(device) {
            if cap >= bytes {
                return None;
            }
        }
        if bytes == 0 {
            Some(1)
        } else {
            Some(bytes)
        }
    }

    /// Gives a device a buffer of `bytes`, if the allocation that this takes succeeded. Otherwise
    /// the buffers stay as they are.
    pub fn q8_scratch_workspace_ensure(&mut self, device: u64, bytes: usize, allocated: bool) -> (r:
        bool)
        ensures
            r == (allocated || needed_allocation(old(self)@, device, bytes) is None),
            final(self)@ == requested(old(self)@, device, bytes, allocated),
    {
        match self.allocation_for(device, bytes) {
            None => true,
            Some(size) => {
                if allocated {
                    self.caps.insert(device, size);
                }
                allocated
            },
        }
    }
}

/// An ensured buffer is large enough, no buffer is empty or shrinks, and the buffers of other
/// devices stay as they are.
pub proof fn law_ensured_buffers(caps: Map<u64, usize>, device: u64, bytes: usize)
    ensures
        ensured(caps, device, bytes).dom().contains(device),
        ensured(caps, device, bytes)[device] >= bytes,
        never_empty(caps) ==> never_empty(ensured(caps, device, bytes)),
        caps.dom().contains(device) ==> ensured(caps, device, bytes)[device] >= caps[device],
        forall|other: u64|
            other != device ==> (#[trigger] ensured(caps, device, bytes).dom().contains(other)
                <==> caps.dom().contains(other)),
        forall|other: u64|
            other != device && caps.dom().contains(other) ==> #[trigger] ensured(
                caps,
                device,
                bytes,
            )[other] == caps[other],
{
}

/// Asking again for no more than before allocates nothing.
pub proof fn law_ensuring_again_allocates_nothing(
    caps: Map<u64, usize>,
    device: u64,
    bytes: usize,
    fewer: usize,
)
    requires
        fewer <= bytes,
    ensures
        needed_allocation(ensured(caps, device, bytes), device, fewer) is None,
        ensured(ensured(caps, device, bytes), device, fewer) == ensured(caps, device, bytes),
{
}

/// A buffer is kept as long as it is large enough, and otherwise replaced by one of exactly the
/// bytes that are asked for, or of one byte if none are.
pub proof fn law_buffers_are_exact(caps: Map<u64, usize>, device: u64, bytes: usize)
    ensures
        ({
            let kept = caps.dom().contains(device) && caps[device] >= bytes;
            let size = if kept {
                caps[device]
            } else if bytes == 0 {
                1
            } else {
                bytes
            };
            &&& ensured(caps, device, bytes).dom() =~= caps.dom().insert(device)
            &&& ensured(caps, device, bytes)[device] == size
            &&& needed_allocation(caps, device, bytes) == (if kept {
                None
            } else {
                Some(size)
            })
        }),
{
}

/// A request is met if its allocation succeeded, or if none was needed because the device has a
/// buffer that is large enough. Otherwise nothing changes.
pub proof fn law_requests(caps: Map<u64, usize>, device: u64, bytes: usize, allocated: bool)
    ensures
        ({
            let after = requested(caps, device, bytes, allocated);
            let large_enough = caps.dom().contains(device) && caps[device] >= bytes;
            &&& large_enough || !allocated ==> after == caps
            &&& !large_enough && allocated ==> after.dom().contains(device) && after[device]
                >= bytes && after.remove(device) =~= caps.remove(device)
        }),
{
}

} // verus!
