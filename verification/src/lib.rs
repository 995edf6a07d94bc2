//! Verified core of a concurrent TCP connect scanner.
//!
//! The library owns the logic of the scan: how the port space `[1, highest_port]`
//! is partitioned across workers by striding, how the findings that the
//! workers hand back are merged into the final sorted report, and what a
//! command line asks for. The networking itself — parsing an address,
//! connecting to a port, moving findings between threads — is left to the
//! surrounding program, which feeds plain values in and out.

pub mod cli;
pub mod partition;
pub mod report;
pub mod target;
