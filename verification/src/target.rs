//! The immutable description of one scan.

use vstd::prelude::*;

verus! {

/// Every scan probes the ports `1 ..= HIGHEST_PORT`.
pub const HIGHEST_PORT: u16 = 1024;

/// Worker count used when the operator gives none.
pub const DEFAULT_WORKER_COUNT: u16 = 4;

/// The address to scan, as plain bytes in network order. The engine never
/// looks inside it; it is carried to whatever performs the connect attempts.
#[derive(Clone, Copy, PartialEq, Eq, Structural, Debug)]
pub enum ScanAddress {
    V4(u8, u8, u8, u8),
    V6(u16, u16, u16, u16, u16, u16, u16, u16),
}

/// Why a scan could not be set up.
#[derive(Clone, Copy, PartialEq, Eq, Structural, Debug)]
pub enum ScanError {
    /// The requested target is unusable: a scan needs at least one worker.
    InvalidTarget,
}

/// The immutable value a whole scan runs against: the address, the fixed
/// upper port bound, and how many workers probe in parallel.
#[derive(Clone, Copy, PartialEq, Eq, Structural, Debug)]
pub struct ScanTarget {
    pub address: ScanAddress,
    pub highest_port: u16,
    pub worker_count: u16,
}

impl ScanTarget {
    /// A usable target: at least one worker, at least one port to probe.
    pub open spec fn wf(self) -> bool {
        &&& self.worker_count >= 1
        &&& self.highest_port >= 1
    }

    /// Validates the operator's input once, before any scanning starts.
    /// A worker count of zero is rejected rather than silently producing
    /// an empty partition.
    pub fn new(address: ScanAddress, worker_count: u16) -> (r: Result<ScanTarget, ScanError>)
        ensures
            worker_count >= 1 <==> r is Ok,
            r matches Ok(t) ==> t == (ScanTarget {
                address,
                highest_port: HIGHEST_PORT,
                worker_count,
            }) && t.wf(),
            r matches Err(e) ==> e == ScanError::InvalidTarget,
    {
        if worker_count == 0 {
            Err(ScanError::InvalidTarget)
        } else {
            Ok(ScanTarget { address, highest_port: HIGHEST_PORT, worker_count })
        }
    }

    /// The ports that the worker with this index probes, in probing order.
    pub fn worker_ports(&self, worker_index: u16) -> (ports: Vec<u16>)
        requires
            self.wf(),
            worker_index < self.worker_count,
        ensures
            ports@.len() == crate::partition::assigned_count(
                worker_index as int, self.worker_count as int, self.highest_port as int),
            forall|p: u16| ports@.contains(p) <==> crate::partition::assigned(
                worker_index as int, self.worker_count as int, self.highest_port as int, p as int),
            forall|k1: int, k2: int| 0 <= k1 < k2 < ports@.len() ==> ports@[k1] < ports@[k2],
    {
        crate::partition::assign_ports(worker_index, self.worker_count, self.highest_port)
    }
}

} // verus!
