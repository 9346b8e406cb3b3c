//! The snapshot stores: one slot per metric family, single writer and any
//! number of readers, built on vstd's verified reader-writer lock. A
//! publish replaces the slot's value whole; a read hands the value out
//! whole, so a read overlapping a publish observes either the old or the
//! new value in full, never a mixture of the two.

use vstd::prelude::*;
use vstd::rwlock::RwLock;

use crate::memory::MemorySample;
use crate::snapshot::ProcessSnapshot;

verus! {

/// The slot for the process table. Every value it ever holds is a
/// well-formed table, so every reader gets one.
pub struct ProcessStore {
    lock: RwLock<ProcessSnapshot, spec_fn(ProcessSnapshot) -> bool>,
}

impl ProcessStore {
    pub closed spec fn wf(&self) -> bool {
        self.lock.pred() == (|s: ProcessSnapshot| s.wf())
    }

    pub fn new(snap: ProcessSnapshot) -> (r: Self)
        requires
            snap.wf(),
        ensures
            r.wf(),
    {
        ProcessStore { lock: RwLock::new(snap, Ghost(|s: ProcessSnapshot| s.wf())) }
    }

    /// Atomically replaces the published table, whole for whole; readers
    /// in flight finish on the value they already hold.
    pub fn publish(&self, snap: ProcessSnapshot)
        requires
            self.wf(),
            snap.wf(),
    {
        let (_prev, handle) = self.lock.acquire_write();
        handle.release_write(snap);
    }

    /// Hands back the published table, whole and well-formed.
    pub fn read(&self) -> (r: ProcessSnapshot)
        requires
            self.wf(),
        ensures
            r.wf(),
    {
        let handle = self.lock.acquire_read();
        let r = handle.borrow().clone();
        handle.release_read();
        r
    }
}

/// The slot for the host CPU percentage, in hundredths of a percent.
/// `None` until the sampler's warm-up cycle has passed; every published
/// value is a percentage, at most 100.
pub struct CpuStore {
    lock: RwLock<Option<u32>, spec_fn(Option<u32>) -> bool>,
}

/// A CPU slot value: absent, or a percentage in hundredths.
pub open spec fn cpu_slot_ok(v: Option<u32>) -> bool {
    match v {
        Some(c) => c <= 10000,
        None => true,
    }
}

impl CpuStore {
    pub closed spec fn wf(&self) -> bool {
        self.lock.pred() == (|v: Option<u32>| cpu_slot_ok(v))
    }

    pub fn new() -> (r: Self)
        ensures
            r.wf(),
    {
        CpuStore { lock: RwLock::new(None, Ghost(|v: Option<u32>| cpu_slot_ok(v))) }
    }

    /// Atomically replaces the published percentage, whole for whole.
    pub fn publish(&self, v: Option<u32>)
        requires
            self.wf(),
            cpu_slot_ok(v),
    {
        let (_prev, handle) = self.lock.acquire_write();
        handle.release_write(v);
    }

    /// Hands back the published percentage, whole.
    pub fn read(&self) -> (r: Option<u32>)
        requires
            self.wf(),
        ensures
            cpu_slot_ok(r),
    {
        let handle = self.lock.acquire_read();
        let r = *handle.borrow();
        handle.release_read();
        r
    }
}

/// One published memory figure: the total and the used amount derived
/// from it, which never exceeds it.
#[derive(Clone, Copy, PartialEq, Eq, Structural, Debug)]
pub struct MemoryFigures {
    pub total_kb: u64,
    pub used_kb: u64,
}

impl MemorySample {
    /// The figures a reading publishes: its total, and used as total
    /// minus available.
    pub fn figures(&self) -> (r: MemoryFigures)
        ensures
            r.total_kb == self.total_kb,
            r.used_kb == self.spec_used_kb(),
            r.used_kb <= r.total_kb,
    {
        MemoryFigures { total_kb: self.total_kb, used_kb: self.used_kb() }
    }
}

pub open spec fn mem_slot_ok(v: MemoryFigures) -> bool {
    v.used_kb <= v.total_kb
}

/// The slot for the host memory figures; used never exceeds total in any
/// published value.
pub struct MemStore {
    lock: RwLock<MemoryFigures, spec_fn(MemoryFigures) -> bool>,
}

impl MemStore {
    pub closed spec fn wf(&self) -> bool {
        self.lock.pred() == (|v: MemoryFigures| mem_slot_ok(v))
    }

    pub fn new() -> (r: Self)
        ensures
            r.wf(),
    {
        MemStore {
            lock: RwLock::new(
                MemoryFigures { total_kb: 0, used_kb: 0 },
                Ghost(|v: MemoryFigures| mem_slot_ok(v)),
            ),
        }
    }

    /// Atomically replaces the published figures, whole for whole.
    pub fn publish(&self, v: MemoryFigures)
        requires
            self.wf(),
            mem_slot_ok(v),
    {
        let (_prev, handle) = self.lock.acquire_write();
        handle.release_write(v);
    }

    /// Hands back the published figures, whole and self-consistent.
    pub fn read(&self) -> (r: MemoryFigures)
        requires
            self.wf(),
        ensures
            mem_slot_ok(r),
    {
        let handle = self.lock.acquire_read();
        let r = *handle.borrow();
        handle.release_read();
        r
    }
}

} // verus!
