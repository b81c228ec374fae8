//! The user-facing flowgraph builder: a topology under construction,
//! and the default stream-buffer choice.

use vstd::prelude::*;
use crate::Error;
use crate::PortId;
use crate::topology::Topology;
use crate::topology::Block;
use crate::topology::Kernel;

verus! {

/// Default ring capacity, in items, for a stream edge.
pub const DEFAULT_CAPACITY_ITEMS: usize = 1024;

/// The default stream buffer builder: a ring with the default
/// capacity. An explicit capacity can be chosen instead.
#[derive(Clone, Copy, Debug, PartialEq, Eq, Structural)]
pub struct DefaultBuffer {
    /// Ring capacity in items.
    pub capacity_items: usize,
}

impl DefaultBuffer {
    /// The default buffer choice.
    pub fn new() -> (r: DefaultBuffer)
        ensures
            r.capacity_items == DEFAULT_CAPACITY_ITEMS,
    {
        DefaultBuffer { capacity_items: DEFAULT_CAPACITY_ITEMS }
    }

    /// A buffer choice with an explicit capacity.
    pub fn with_capacity(capacity_items: usize) -> (r: DefaultBuffer)
        requires
            capacity_items >= 1,
        ensures
            r.capacity_items == capacity_items,
    {
        DefaultBuffer { capacity_items }
    }
}

/// A flowgraph under construction: a topology that `run` will consume.
pub struct Flowgraph {
    /// The topology; present until the flowgraph is started.
    pub topology: Option<Topology>,
}

impl Flowgraph {
    /// A new flowgraph with an empty topology.
    pub fn new() -> (r: Flowgraph)
        ensures
            r.topology matches Some(t) && t.blocks@.len() == 0 && t.stream_edges@.len() == 0
                && t.message_edges@.len() == 0,
    {
        Flowgraph { topology: Some(Topology::new()) }
    }

    /// Adds a block; returns its id, dense from zero.
    pub fn add_block(&mut self, block: Block) -> (r: Result<usize, Error>)
        requires
            old(self).topology is Some,
        ensures
            final(self).topology matches Some(t) && {
                let t0 = old(self).topology->Some_0;
                r == Ok::<usize, Error>(t0.blocks@.len() as usize) && t.blocks@ == t0.blocks@.push(
                    block,
                ) && t.stream_edges@ == t0.stream_edges@ && t.message_edges@ == t0.message_edges@
            },
    {
        match &mut self.topology {
            Some(t) => t.add_block(block),
            None => Err(Error::FlowgraphTerminated),
        }
    }

    /// Makes a stream connection with the default buffer.
    pub fn connect_stream(
        &mut self,
        src_block: usize,
        src_port: PortId,
        dst_block: usize,
        dst_port: PortId,
    ) -> (r: Result<(), Error>)
        requires
            old(self).topology is Some,
        ensures
            final(self).topology is Some,
            spec_connect_stream(
                old(self).topology->Some_0,
                final(self).topology->Some_0,
                r,
                src_block,
                src_port,
                dst_block,
                dst_port,
                DEFAULT_CAPACITY_ITEMS as int,
            ),
    {
        let buffer = DefaultBuffer::new();
        match &mut self.topology {
            Some(t) => t.connect_stream(
                src_block,
                src_port,
                dst_block,
                dst_port,
                buffer.capacity_items,
            ),
            None => Err(Error::FlowgraphTerminated),
        }
    }

    /// Makes a stream connection with the given buffer choice.
    pub fn connect_stream_with_type(
        &mut self,
        src_block: usize,
        src_port: PortId,
        dst_block: usize,
        dst_port: PortId,
        buffer: DefaultBuffer,
    ) -> (r: Result<(), Error>)
        requires
            old(self).topology is Some,
            buffer.capacity_items >= 1,
        ensures
            final(self).topology is Some,
            spec_connect_stream(
                old(self).topology->Some_0,
                final(self).topology->Some_0,
                r,
                src_block,
                src_port,
                dst_block,
                dst_port,
                buffer.capacity_items as int,
            ),
    {
        match &mut self.topology {
            Some(t) => t.connect_stream(
                src_block,
                src_port,
                dst_block,
                dst_port,
                buffer.capacity_items,
            ),
            None => Err(Error::FlowgraphTerminated),
        }
    }

    /// Makes a message connection.
    pub fn connect_message(
        &mut self,
        src_block: usize,
        src_port: PortId,
        dst_block: usize,
        dst_port: PortId,
    ) -> (r: Result<(), Error>)
        requires
            old(self).topology is Some,
        ensures
            final(self).topology is Some,
            spec_connect_message(
                old(self).topology->Some_0,
                final(self).topology->Some_0,
                r,
                src_block,
                src_port,
                dst_block,
                dst_port,
            ),
    {
        match &mut self.topology {
            Some(t) => t.connect_message(src_block, src_port, dst_block, dst_port),
            None => Err(Error::FlowgraphTerminated),
        }
    }

    /// The kernel of the given block, if the block exists.
    pub fn kernel(&self, id: usize) -> (r: Option<&Kernel>)
        ensures
            match r {
                Some(k) => self.topology matches Some(t) && id < t.blocks@.len() && *k == t.blocks@[
                    id as int
                ].kernel,
                None => self.topology is None || id >= self.topology->Some_0.blocks@.len(),
            },
    {
        match &self.topology {
            Some(t) => {
                match t.block_ref(id) {
                    Some(b) => Some(&b.kernel),
                    None => None,
                }
            },
            None => None,
        }
    }

    /// The kernel of the given block, through a mutable flowgraph. As
    /// in the construction API, the reference handed out is shared.
    pub fn kernel_mut(&mut self, id: usize) -> (r: Option<&Kernel>)
        ensures
            match r {
                Some(k) => old(self).topology matches Some(t) && id < t.blocks@.len() && *k
                    == t.blocks@[id as int].kernel,
                None => old(self).topology is None || id >= old(
                    self,
                ).topology->Some_0.blocks@.len(),
            },
            *final(self) == *old(self),
    {
        match &self.topology {
            Some(t) => {
                match t.block_ref(id) {
                    Some(b) => Some(&b.kernel),
                    None => None,
                }
            },
            None => None,
        }
    }
}

impl Default for Flowgraph {
    /// Same as `Flowgraph::new`.
    fn default() -> (r: Flowgraph)
        ensures
            r.topology matches Some(t) && t.blocks@.len() == 0 && t.stream_edges@.len() == 0
                && t.message_edges@.len() == 0,
    {
        Flowgraph::new()
    }
}

/// What a stream connection does: the relation between the topology
/// before and after, and the result, as `Topology::connect_stream`
/// states it.
pub open spec fn spec_connect_stream(
    t0: Topology,
    t1: Topology,
    r: Result<(), Error>,
    src_block: usize,
    src_port: PortId,
    dst_block: usize,
    dst_port: PortId,
    capacity_items: int,
) -> bool {
    let blocks = t0.blocks@;
    let edges = t0.stream_edges@;
    if src_block >= blocks.len() {
        r == Err::<(), Error>(Error::InvalidBlock(src_block)) && t1 == t0
    } else if dst_block >= blocks.len() {
        r == Err::<(), Error>(Error::InvalidBlock(dst_block)) && t1 == t0
    } else if crate::topology::resolve_stream_port(
        blocks[src_block as int].stream_outputs@,
        src_port,
    ) is None {
        r == Err::<(), Error>(Error::InvalidPort(src_block, src_port)) && t1 == t0
    } else if crate::topology::resolve_stream_port(
        blocks[dst_block as int].stream_inputs@,
        dst_port,
    ) is None {
        r == Err::<(), Error>(Error::InvalidPort(dst_block, dst_port)) && t1 == t0
    } else {
        let sp = crate::topology::resolve_stream_port(
            blocks[src_block as int].stream_outputs@,
            src_port,
        )->Some_0;
        let dp = crate::topology::resolve_stream_port(
            blocks[dst_block as int].stream_inputs@,
            dst_port,
        )->Some_0;
        if blocks[src_block as int].stream_outputs@[sp].item_size != blocks[
            dst_block as int
        ].stream_inputs@[dp].item_size {
            r == Err::<(), Error>(Error::ConnectError(crate::ConnectReason::ItemSizeMismatch))
                && t1 == t0
        } else if crate::topology::input_occupied(edges, dst_block as int, dp) {
            r == Err::<(), Error>(Error::ConnectError(crate::ConnectReason::DuplicateInput)) && t1
                == t0
        } else {
            r == Ok::<(), Error>(()) && t1.blocks@ == blocks && t1.message_edges@
                == t0.message_edges@ && t1.stream_edges@ == edges.push(
                (crate::topology::StreamEdge {
                    src_block,
                    src_port: sp as usize,
                    dst_block,
                    dst_port: dp as usize,
                    capacity_items: capacity_items as usize,
                }),
            )
        }
    }
}

/// What a message connection does, as `Topology::connect_message`
/// states it.
pub open spec fn spec_connect_message(
    t0: Topology,
    t1: Topology,
    r: Result<(), Error>,
    src_block: usize,
    src_port: PortId,
    dst_block: usize,
    dst_port: PortId,
) -> bool {
    let blocks = t0.blocks@;
    let edges = t0.message_edges@;
    if src_block >= blocks.len() {
        r == Err::<(), Error>(Error::InvalidBlock(src_block)) && t1 == t0
    } else if dst_block >= blocks.len() {
        r == Err::<(), Error>(Error::InvalidBlock(dst_block)) && t1 == t0
    } else if crate::topology::resolve_message_port(
        blocks[src_block as int].message_outputs@,
        src_port,
    ) is None {
        r == Err::<(), Error>(Error::InvalidPort(src_block, src_port)) && t1 == t0
    } else if crate::topology::resolve_message_port(
        blocks[dst_block as int].message_inputs@,
        dst_port,
    ) is None {
        r == Err::<(), Error>(Error::InvalidPort(dst_block, dst_port)) && t1 == t0
    } else {
        let sp = crate::topology::resolve_message_port(
            blocks[src_block as int].message_outputs@,
            src_port,
        )->Some_0;
        let dp = crate::topology::resolve_message_port(
            blocks[dst_block as int].message_inputs@,
            dst_port,
        )->Some_0;
        let e = crate::topology::MessageEdge {
            src_block,
            src_port: sp as usize,
            dst_block,
            dst_port: dp as usize,
        };
        if crate::topology::message_edge_exists(edges, e) {
            r == Err::<(), Error>(Error::ConnectError(crate::ConnectReason::DuplicateEdge)) && t1
                == t0
        } else {
            r == Ok::<(), Error>(()) && t1.blocks@ == blocks && t1.stream_edges@
                == t0.stream_edges@ && t1.message_edges@ == edges.push(e)
        }
    }
}

} // verus!
