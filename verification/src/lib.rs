//! Core of an SDR dataflow runtime: a flowgraph of blocks connected by
//! typed stream edges and message ports, with a bounded stream-buffer
//! protocol, tag propagation, a polymorphic message value type (Pmt),
//! and a supervisor that drives startup and termination.

use vstd::prelude::*;

pub mod pmt;
pub mod codec;
pub mod tag;
pub mod buffer;
pub mod topology;
pub mod flowgraph;
pub mod runtime;
pub mod capabilities;

verus! {

/// Identifies a port on a block, either by position or by name.
#[derive(Clone, Debug, PartialEq, Eq)]
pub enum PortId {
    /// Port selected by its position in the block's port list.
    Index(usize),
    /// Port selected by its declared name.
    Name(String),
}

/// Reason a stream or message connection was rejected.
#[derive(Clone, Copy, Debug, PartialEq, Eq, Structural)]
pub enum ConnectReason {
    /// The item sizes of the two stream ports differ.
    ItemSizeMismatch,
    /// The destination stream input already has an incoming edge.
    DuplicateInput,
    /// The identical edge was already added.
    DuplicateEdge,
}

/// Error surface of the runtime.
#[derive(Clone, Debug, PartialEq, Eq)]
pub enum Error {
    /// Unknown block id in the current flowgraph.
    InvalidBlock(usize),
    /// Unknown port name/index, or a port of the wrong kind, on the block.
    InvalidPort(usize, PortId),
    /// A connection was rejected during graph construction.
    ConnectError(ConnectReason),
    /// An expected Pmt shape was not satisfied.
    PmtValueError,
    /// A kernel's init/work/deinit or message handler failed.
    KernelError,
    /// Scheduler or buffer internal failure.
    RuntimeError,
    /// Operation attempted after shutdown.
    FlowgraphTerminated,
}

} // verus!
