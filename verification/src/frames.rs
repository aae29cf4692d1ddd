//! Registry of frame buffers: activations that stay on the device.

use vstd::prelude::*;
use crate::device::Ptr;
use crate::error::{AccError, Transfer};

verus! {

/// A range of device memory: a base address, the offset of the range and its
/// length in bytes.
#[derive(Clone, Copy, PartialEq, Eq, Structural, Debug)]
pub struct Frame {
    pub base: u64,
    pub off: usize,
    pub cap: usize,
}

/// The frames in the order of their handles: handle `h` is entry `h - 1`. None
/// is ever removed.
pub struct Frames {
    pub list: Vec<Frame>,
}

impl Frames {
    /// Every range ends at an address offset that can be counted.
    pub open spec fn wf(&self) -> bool {
        forall|i: int|
            0 <= i < self.list@.len() ==> (#[trigger] self.list@[i]).off + self.list@[i].cap
                <= usize::MAX
    }

    /// The frame of a handle, or why there is none.
    pub open spec fn lookup(&self, h: u64) -> Result<Frame, AccError> {
        if h == 0 {
            Err(AccError::FrameHandleZero)
        } else if h > self.list@.len() {
            Err(AccError::FrameHandleMissing { h })
        } else {
            Ok(self.list@[h - 1])
        }
    }

    /// The device address of a handle.
    pub open spec fn spec_ptr(&self, h: u64) -> Result<Ptr, AccError> {
        match self.lookup(h) {
            Ok(f) => Ok(Ptr::Dev { base: f.base, off: f.off }),
            Err(e) => Err(e),
        }
    }

    pub fn new() -> (r: Frames)
        ensures
            r.list@ == Seq::<Frame>::empty(),
            r.wf(),
    {
        Frames { list: Vec::new() }
    }

    pub fn get(&self, h: u64) -> (r: Result<Frame, AccError>)
        ensures
            r == self.lookup(h),
    {
        if h == 0 {
            return Err(AccError::FrameHandleZero);
        }
        if h > self.list.len() as u64 {
            return Err(AccError::FrameHandleMissing { h });
        }
        Ok(self.list[(h - 1) as usize])
    }

    pub fn ptr(&self, h: u64) -> (r: Result<Ptr, AccError>)
        ensures
            r == self.spec_ptr(h),
    {
        match self.get(h) {
            Ok(f) => Ok(Ptr::Dev { base: f.base, off: f.off }),
            Err(e) => Err(e),
        }
    }

    /// The capacity of a handle in bytes.
    pub fn cap(&self, h: u64) -> (r: Result<usize, AccError>)
        ensures
            match self.lookup(h) {
                Ok(f) => r == Ok::<usize, AccError>(f.cap),
                Err(e) => r == Err::<usize, AccError>(e),
            },
    {
        match self.get(h) {
            Ok(f) => Ok(f.cap),
            Err(e) => Err(e),
        }
    }

    /// Refuses a transfer that is longer than the frame.
    pub fn check(&self, h: u64, bytes: usize, what: Transfer) -> (r: Result<(), AccError>)
        ensures
            match self.lookup(h) {
                Err(e) => r == Err::<(), AccError>(e),
                Ok(f) => if bytes > f.cap {
                    r == Err::<(), AccError>(
                        AccError::FrameRange { what, need: bytes, cap: f.cap, h },
                    )
                } else {
                    r == Ok::<(), AccError>(())
                },
            },
    {
        match self.cap(h) {
            Ok(cap) => {
                if bytes > cap {
                    return Err(AccError::FrameRange { what, need: bytes, cap, h });
                }
                Ok(())
            },
            Err(e) => Err(e),
        }
    }

    /// Registers a fresh allocation of `len` 32-bit elements at `base`.
    pub fn add_alloc(&mut self, len: usize, base: u64) -> (h: u64)
        requires
            old(self).wf(),
            len * 4 <= usize::MAX,
        ensures
            final(self).wf(),
            final(self).list@ == old(self).list@.push(
                Frame { base, off: 0, cap: (len * 4) as usize },
            ),
            h == final(self).list@.len(),
            final(self).lookup(h) == Ok::<Frame, AccError>(
                Frame { base, off: 0, cap: (len * 4) as usize },
            ),
    {
        self.list.push(Frame { base, off: 0, cap: len * 4 });
        self.list.len() as u64
    }

    /// Registers the view of `len` elements from element `off` on of a frame.
    pub fn slice(&mut self, h: u64, off: usize, len: usize) -> (r: Result<u64, AccError>)
        requires
            old(self).wf(),
            (off + len) * 4 <= usize::MAX,
        ensures
            final(self).wf(),
            match old(self).lookup(h) {
                Err(e) => r == Err::<u64, AccError>(e) && final(self).list@ == old(self).list@,
                Ok(f) => {
                    let need = (off + len) * 4;
                    if need > f.cap {
                        &&& r == Err::<u64, AccError>(
                            AccError::SliceRange { need: need as usize, cap: f.cap },
                        )
                        &&& final(self).list@ == old(self).list@
                    } else {
                        &&& r == Ok::<u64, AccError>((old(self).list@.len() + 1) as u64)
                        &&& final(self).list@ == old(self).list@.push(
                            Frame {
                                base: f.base,
                                off: (f.off + off * 4) as usize,
                                cap: (len * 4) as usize,
                            },
                        )
                    }
                },
            },
    {
        let f = match self.get(h) {
            Ok(f) => f,
            Err(e) => {
                return Err(e);
            },
        };
        let need: usize = (off + len) * 4;
        if need > f.cap {
            return Err(AccError::SliceRange { need, cap: f.cap });
        }
        self.list.push(Frame { base: f.base, off: f.off + off * 4, cap: len * 4 });
        Ok(self.list.len() as u64)
    }
}

/// A view lies inside the frame it was taken from, at the same base.
pub proof fn law_slice_inside_parent(f: Frames, g: Frames, h: u64, off: usize, len: usize, v: u64)
    requires
        f.wf(),
        f.lookup(h) is Ok,
        (off + len) * 4 <= f.lookup(h)->Ok_0.cap,
        g.list@ == f.list@.push(
            Frame {
                base: f.lookup(h)->Ok_0.base,
                off: (f.lookup(h)->Ok_0.off + off * 4) as usize,
                cap: (len * 4) as usize,
            },
        ),
        v == g.list@.len(),
    ensures
        g.lookup(v) is Ok,
        ({
            let parent = f.lookup(h)->Ok_0;
            let view = g.lookup(v)->Ok_0;
            &&& view.base == parent.base
            &&& parent.off <= view.off
            &&& view.off + view.cap <= parent.off + parent.cap
        }),
{
    let parent = f.lookup(h)->Ok_0;
    assert(f.list@[h - 1] == parent);
    assert(parent.off + parent.cap <= usize::MAX);
}

/// Registering another frame changes no handle that was valid before.
pub proof fn law_handles_are_stable(f: Frames, g: Frames, added: Frame, h: u64)
    requires
        g.list@ == f.list@.push(added),
        f.lookup(h) is Ok,
    ensures
        g.lookup(h) == f.lookup(h),
{
}

} // verus!
