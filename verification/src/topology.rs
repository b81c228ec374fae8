//! The declarative flowgraph: blocks, stream edges and message edges,
//! validated as they are connected.

use vstd::prelude::*;
use crate::Error;
use crate::PortId;
use crate::ConnectReason;
use crate::tag::ItemTag;
use crate::pmt::str_eq;

verus! {

/// A named, typed stream port; the item size is its only runtime
/// attribute.
pub struct StreamPort {
    /// Port name.
    pub name: String,
    /// Bytes per item.
    pub item_size: usize,
}

/// The closed set of kernels the runtime executes. A kernel is the
/// user-written work function plus optional handlers; they are held as
/// tagged variants behind one uniform block interface.
pub enum Kernel {
    /// Emits a fixed byte vector, then finishes.
    VectorSource {
        /// The bytes to emit, item after item.
        data: Vec<u8>,
        /// Bytes emitted so far.
        pos: usize,
        /// Tags to attach, at absolute item positions.
        tags: Vec<ItemTag>,
    },
    /// Copies its input to its output one-to-one.
    Passthrough,
    /// Collects everything it reads.
    VectorSink {
        /// The bytes collected so far.
        collected: Vec<u8>,
        /// The tags observed, at positions relative to the collected data.
        tags: Vec<ItemTag>,
    },
    /// Replies to a `callback` on port `echo` with the argument.
    MessageEcho,
}

/// Lifecycle state of a block.
#[derive(Clone, Copy, Debug, PartialEq, Eq, Structural)]
pub enum BlockState {
    /// Built, not yet initialized.
    Constructed,
    /// Initialized, waiting for start.
    Initialized,
    /// Running.
    Running,
    /// Finished cleanly; absorbing once deinit ran.
    Terminated,
    /// Failed; absorbing.
    Error,
}

/// A block: a kernel with its ports and scheduler state.
pub struct Block {
    /// Human-readable type name.
    pub type_label: String,
    /// Ordered stream inputs.
    pub stream_inputs: Vec<StreamPort>,
    /// Ordered stream outputs.
    pub stream_outputs: Vec<StreamPort>,
    /// Ordered message input port names.
    pub message_inputs: Vec<String>,
    /// Ordered message output port names.
    pub message_outputs: Vec<String>,
    /// The kernel.
    pub kernel: Kernel,
    /// Lifecycle state.
    pub state: BlockState,
    /// Whether deinit has completed for this block.
    pub deinit_done: bool,
}

/// A stream edge with resolved port indices and its buffer capacity in
/// items.
#[derive(Clone, Copy, Debug, PartialEq, Eq, Structural)]
pub struct StreamEdge {
    /// Source block id.
    pub src_block: usize,
    /// Index into the source's stream outputs.
    pub src_port: usize,
    /// Destination block id.
    pub dst_block: usize,
    /// Index into the destination's stream inputs.
    pub dst_port: usize,
    /// Ring capacity in items.
    pub capacity_items: usize,
}

/// A message edge with resolved port indices.
#[derive(Clone, Copy, Debug, PartialEq, Eq, Structural)]
pub struct MessageEdge {
    /// Source block id.
    pub src_block: usize,
    /// Index into the source's message outputs.
    pub src_port: usize,
    /// Destination block id.
    pub dst_block: usize,
    /// Index into the destination's message inputs.
    pub dst_port: usize,
}

/// The first port with the given name, if any.
pub open spec fn find_stream_port(ports: Seq<StreamPort>, name: Seq<char>) -> Option<int>
    decreases ports.len(),
{
    if ports.len() == 0 {
        None
    } else if ports[0].name@ == name {
        Some(0)
    } else {
        match find_stream_port(ports.drop_first(), name) {
            Some(i) => Some(i + 1),
            None => None,
        }
    }
}

/// The first name equal to `name`, if any.
pub open spec fn find_name(names: Seq<String>, name: Seq<char>) -> Option<int>
    decreases names.len(),
{
    if names.len() == 0 {
        None
    } else if names[0]@ == name {
        Some(0)
    } else {
        match find_name(names.drop_first(), name) {
            Some(i) => Some(i + 1),
            None => None,
        }
    }
}

/// The index a `PortId` resolves to among stream ports.
pub open spec fn resolve_stream_port(ports: Seq<StreamPort>, pid: PortId) -> Option<int> {
    match pid {
        PortId::Index(i) => if i < ports.len() {
            Some(i as int)
        } else {
            None
        },
        PortId::Name(n) => find_stream_port(ports, n@),
    }
}

/// The index a `PortId` resolves to among message port names.
pub open spec fn resolve_message_port(names: Seq<String>, pid: PortId) -> Option<int> {
    match pid {
        PortId::Index(i) => if i < names.len() {
            Some(i as int)
        } else {
            None
        },
        PortId::Name(n) => find_name(names, n@),
    }
}

/// Whether some stream edge already feeds this input.
pub open spec fn input_occupied(edges: Seq<StreamEdge>, dst_block: int, dst_port: int) -> bool {
    exists|k: int|
        0 <= k < edges.len() && (#[trigger] edges[k]).dst_block == dst_block && edges[k].dst_port
            == dst_port
}

/// Whether this exact message edge already exists.
pub open spec fn message_edge_exists(edges: Seq<MessageEdge>, e: MessageEdge) -> bool {
    exists|k: int| 0 <= k < edges.len() && (#[trigger] edges[k]) == e
}

/// The declarative graph: blocks plus stream and message edges.
pub struct Topology {
    /// Blocks, ids dense from zero.
    pub blocks: Vec<Block>,
    /// Stream edges.
    pub stream_edges: Vec<StreamEdge>,
    /// Message edges.
    pub message_edges: Vec<MessageEdge>,
}

impl Topology {
    /// An empty topology.
    pub fn new() -> (r: Topology)
        ensures
            r.blocks@.len() == 0,
            r.stream_edges@.len() == 0,
            r.message_edges@.len() == 0,
    {
        Topology { blocks: Vec::new(), stream_edges: Vec::new(), message_edges: Vec::new() }
    }

    /// Adds a block; its id is its position, dense from zero.
    pub fn add_block(&mut self, block: Block) -> (r: Result<usize, Error>)
        ensures
            r == Ok::<usize, Error>(old(self).blocks@.len() as usize),
            final(self).blocks@ == old(self).blocks@.push(block),
            final(self).stream_edges@ == old(self).stream_edges@,
            final(self).message_edges@ == old(self).message_edges@,
    {
        let id = self.blocks.len();
        self.blocks.push(block);
        Ok(id)
    }

    /// Looks up the index of a stream port by `PortId`.
    pub(crate) fn resolve_stream(ports: &Vec<StreamPort>, pid: &PortId) -> (r: Option<usize>)
        ensures
            match r {
                Some(i) => resolve_stream_port(ports@, *pid) == Some(i as int) && i < ports@.len(),
                None => resolve_stream_port(ports@, *pid) is None,
            },
    {
        match pid {
            PortId::Index(i) => {
                if *i < ports.len() {
                    Some(*i)
                } else {
                    None
                }
            },
            PortId::Name(n) => {
                let mut i: usize = 0;
                proof {
                    assert(ports@.skip(0) =~= ports@);
                }
                while i < ports.len()
                    invariant
                        *pid == PortId::Name(*n),
                        0 <= i <= ports@.len(),
                        find_stream_port(ports@, n@) == match find_stream_port(
                            ports@.skip(i as int),
                            n@,
                        ) {
                            Some(k) => Some(k + i),
                            None => None,
                        },
                    decreases ports@.len() - i,
                {
                    proof {
                        assert(ports@.skip(i as int).drop_first() =~= ports@.skip(i + 1));
                        assert(ports@.skip(i as int)[0] == ports@[i as int]);
                    }
                    if str_eq(ports[i].name.as_str(), n.as_str()) {
                        return Some(i);
                    }
                    i = i + 1;
                }
                proof {
                    assert(ports@.skip(ports@.len() as int) =~= Seq::<StreamPort>::empty());
                }
                None
            },
        }
    }

    /// Looks up the index of a message port by `PortId`.
    pub(crate) fn resolve_message(names: &Vec<String>, pid: &PortId) -> (r: Option<usize>)
        ensures
            match r {
                Some(i) => resolve_message_port(names@, *pid) == Some(i as int) && i
                    < names@.len(),
                None => resolve_message_port(names@, *pid) is None,
            },
    {
        match pid {
            PortId::Index(i) => {
                if *i < names.len() {
                    Some(*i)
                } else {
                    None
                }
            },
            PortId::Name(n) => {
                let mut i: usize = 0;
                proof {
                    assert(names@.skip(0) =~= names@);
                }
                while i < names.len()
                    invariant
                        *pid == PortId::Name(*n),
                        0 <= i <= names@.len(),
                        find_name(names@, n@) == match find_name(names@.skip(i as int), n@) {
                            Some(k) => Some(k + i),
                            None => None,
                        },
                    decreases names@.len() - i,
                {
                    proof {
                        assert(names@.skip(i as int).drop_first() =~= names@.skip(i + 1));
                        assert(names@.skip(i as int)[0] == names@[i as int]);
                    }
                    if str_eq(names[i].as_str(), n.as_str()) {
                        return Some(i);
                    }
                    i = i + 1;
                }
                proof {
                    assert(names@.skip(names@.len() as int) =~= Seq::<String>::empty());
                }
                None
            },
        }
    }

    /// Whether some stream edge already feeds input `dst_port` of block
    /// `dst_block`.
    fn input_taken(&self, dst_block: usize, dst_port: usize) -> (r: bool)
        ensures
            r == input_occupied(self.stream_edges@, dst_block as int, dst_port as int),
    {
        let mut k: usize = 0;
        while k < self.stream_edges.len()
            invariant
                0 <= k <= self.stream_edges@.len(),
                forall|j: int|
                    0 <= j < k ==> !((#[trigger] self.stream_edges@[j]).dst_block == dst_block
                        && self.stream_edges@[j].dst_port == dst_port),
            decreases self.stream_edges@.len() - k,
        {
            let e = &self.stream_edges[k];
            if e.dst_block == dst_block && e.dst_port == dst_port {
                return true;
            }
            k = k + 1;
        }
        false
    }

    /// Validates and records a stream connection.
    ///
    /// Errors, in checking order: `InvalidBlock` for an unknown block
    /// id, `InvalidPort` for an unresolvable port, `ConnectError`
    /// (item-size mismatch) when the two ports disagree, and
    /// `ConnectError` (duplicate input) when the destination input is
    /// already fed.
    pub fn connect_stream(
        &mut self,
        src_block: usize,
        src_port: PortId,
        dst_block: usize,
        dst_port: PortId,
        capacity_items: usize,
    ) -> (r: Result<(), Error>)
        requires
            capacity_items >= 1,
        ensures
            ({
                let blocks = old(self).blocks@;
                let edges = old(self).stream_edges@;
                if src_block >= blocks.len() {
                    r == Err::<(), Error>(Error::InvalidBlock(src_block)) && *final(self) == *old(self)
                } else if dst_block >= blocks.len() {
                    r == Err::<(), Error>(Error::InvalidBlock(dst_block)) && *final(self) == *old(self)
                } else if resolve_stream_port(blocks[src_block as int].stream_outputs@, src_port)
                    is None {
                    r == Err::<(), Error>(Error::InvalidPort(src_block, src_port)) && *final(self)
                        == *old(self)
                } else if resolve_stream_port(blocks[dst_block as int].stream_inputs@, dst_port)
                    is None {
                    r == Err::<(), Error>(Error::InvalidPort(dst_block, dst_port)) && *final(self)
                        == *old(self)
                } else {
                    let sp = resolve_stream_port(
                        blocks[src_block as int].stream_outputs@,
                        src_port,
                    )->Some_0;
                    let dp = resolve_stream_port(
                        blocks[dst_block as int].stream_inputs@,
                        dst_port,
                    )->Some_0;
                    if blocks[src_block as int].stream_outputs@[sp].item_size != blocks[
                        dst_block as int
                    ].stream_inputs@[dp].item_size {
                        r == Err::<(), Error>(Error::ConnectError(ConnectReason::ItemSizeMismatch))
                            && *final(self) == *old(self)
                    } else if input_occupied(edges, dst_block as int, dp) {
                        r == Err::<(), Error>(Error::ConnectError(ConnectReason::DuplicateInput))
                            && *final(self) == *old(self)
                    } else {
                        r == Ok::<(), Error>(()) && final(self).blocks@ == blocks && final(self).message_edges@ == old(self).message_edges@ && final(self).stream_edges@
                            == edges.push(
                            (StreamEdge {
                                src_block,
                                src_port: sp as usize,
                                dst_block,
                                dst_port: dp as usize,
                                capacity_items,
                            }),
                        )
                    }
                }
            }),
    {
        if src_block >= self.blocks.len() {
            return Err(Error::InvalidBlock(src_block));
        }
        if dst_block >= self.blocks.len() {
            return Err(Error::InvalidBlock(dst_block));
        }
        let sp = match Self::resolve_stream(&self.blocks[src_block].stream_outputs, &src_port) {
            Some(i) => i,
            None => {
                return Err(Error::InvalidPort(src_block, src_port));
            },
        };
        let dp = match Self::resolve_stream(&self.blocks[dst_block].stream_inputs, &dst_port) {
            Some(i) => i,
            None => {
                return Err(Error::InvalidPort(dst_block, dst_port));
            },
        };
        if self.blocks[src_block].stream_outputs[sp].item_size != self.blocks[dst_block]
            .stream_inputs[dp].item_size {
            return Err(Error::ConnectError(ConnectReason::ItemSizeMismatch));
        }
        if self.input_taken(dst_block, dp) {
            return Err(Error::ConnectError(ConnectReason::DuplicateInput));
        }
        self.stream_edges.push(
            StreamEdge { src_block, src_port: sp, dst_block, dst_port: dp, capacity_items },
        );
        Ok(())
    }

    /// Validates and records a message connection. Fan-in and fan-out
    /// are unrestricted; only the exact duplicate edge is rejected.
    pub fn connect_message(
        &mut self,
        src_block: usize,
        src_port: PortId,
        dst_block: usize,
        dst_port: PortId,
    ) -> (r: Result<(), Error>)
        ensures
            ({
                let blocks = old(self).blocks@;
                let edges = old(self).message_edges@;
                if src_block >= blocks.len() {
                    r == Err::<(), Error>(Error::InvalidBlock(src_block)) && *final(self) == *old(self)
                } else if dst_block >= blocks.len() {
                    r == Err::<(), Error>(Error::InvalidBlock(dst_block)) && *final(self) == *old(self)
                } else if resolve_message_port(blocks[src_block as int].message_outputs@, src_port)
                    is None {
                    r == Err::<(), Error>(Error::InvalidPort(src_block, src_port)) && *final(self)
                        == *old(self)
                } else if resolve_message_port(blocks[dst_block as int].message_inputs@, dst_port)
                    is None {
                    r == Err::<(), Error>(Error::InvalidPort(dst_block, dst_port)) && *final(self)
                        == *old(self)
                } else {
                    let sp = resolve_message_port(
                        blocks[src_block as int].message_outputs@,
                        src_port,
                    )->Some_0;
                    let dp = resolve_message_port(
                        blocks[dst_block as int].message_inputs@,
                        dst_port,
                    )->Some_0;
                    let e = MessageEdge {
                        src_block,
                        src_port: sp as usize,
                        dst_block,
                        dst_port: dp as usize,
                    };
                    if message_edge_exists(edges, e) {
                        r == Err::<(), Error>(Error::ConnectError(ConnectReason::DuplicateEdge))
                            && *final(self) == *old(self)
                    } else {
                        r == Ok::<(), Error>(()) && final(self).blocks@ == blocks && final(self).stream_edges@ == old(self).stream_edges@ && final(self).message_edges@
                            == edges.push(e)
                    }
                }
            }),
    {
        if src_block >= self.blocks.len() {
            return Err(Error::InvalidBlock(src_block));
        }
        if dst_block >= self.blocks.len() {
            return Err(Error::InvalidBlock(dst_block));
        }
        let sp = match Self::resolve_message(&self.blocks[src_block].message_outputs, &src_port) {
            Some(i) => i,
            None => {
                return Err(Error::InvalidPort(src_block, src_port));
            },
        };
        let dp = match Self::resolve_message(&self.blocks[dst_block].message_inputs, &dst_port) {
            Some(i) => i,
            None => {
                return Err(Error::InvalidPort(dst_block, dst_port));
            },
        };
        let e = MessageEdge { src_block, src_port: sp, dst_block, dst_port: dp };
        let mut k: usize = 0;
        while k < self.message_edges.len()
            invariant
                *self == *old(self),
                src_block < self.blocks@.len(),
                dst_block < self.blocks@.len(),
                resolve_message_port(self.blocks@[src_block as int].message_outputs@, src_port)
                    == Some(sp as int),
                resolve_message_port(self.blocks@[dst_block as int].message_inputs@, dst_port)
                    == Some(dp as int),
                e == (MessageEdge { src_block, src_port: sp, dst_block, dst_port: dp }),
                0 <= k <= self.message_edges@.len(),
                forall|j: int| 0 <= j < k ==> (#[trigger] self.message_edges@[j]) != e,
            decreases self.message_edges@.len() - k,
        {
            let c = &self.message_edges[k];
            if c.src_block == e.src_block && c.src_port == e.src_port && c.dst_block == e.dst_block
                && c.dst_port == e.dst_port {
                return Err(Error::ConnectError(ConnectReason::DuplicateEdge));
            }
            k = k + 1;
        }
        self.message_edges.push(e);
        Ok(())
    }

    /// The block with this id, if it exists.
    pub fn block_ref(&self, id: usize) -> (r: Option<&Block>)
        ensures
            match r {
                Some(b) => id < self.blocks@.len() && *b == self.blocks@[id as int],
                None => id >= self.blocks@.len(),
            },
    {
        if id < self.blocks.len() {
            Some(&self.blocks[id])
        } else {
            None
        }
    }
}

impl Block {
    /// A source block emitting `data` (whole items of `item_size`
    /// bytes) with `tags` at absolute item positions, then finishing.
    pub fn vector_source(item_size: usize, data: Vec<u8>, tags: Vec<ItemTag>) -> (r: Block)
        requires
            item_size >= 1,
        ensures
            r.kernel == (Kernel::VectorSource { data, pos: 0, tags }),
            r.type_label@ == "VectorSource"@,
            r.state == BlockState::Constructed,
            r.stream_inputs@.len() == 0,
            r.stream_outputs@.len() == 1,
            r.stream_outputs@[0].item_size == item_size,
            !r.deinit_done,
    {
        let mut outs: Vec<StreamPort> = Vec::new();
        outs.push(StreamPort { name: String::from_str("out"), item_size });
        Block {
            type_label: String::from_str("VectorSource"),
            stream_inputs: Vec::new(),
            stream_outputs: outs,
            message_inputs: Vec::new(),
            message_outputs: Vec::new(),
            kernel: Kernel::VectorSource { data, pos: 0, tags },
            state: BlockState::Constructed,
            deinit_done: false,
        }
    }

    /// A one-to-one passthrough block.
    pub fn passthrough(item_size: usize) -> (r: Block)
        requires
            item_size >= 1,
        ensures
            r.kernel == Kernel::Passthrough,
            r.type_label@ == "Passthrough"@,
            r.state == BlockState::Constructed,
            r.stream_inputs@.len() == 1,
            r.stream_inputs@[0].item_size == item_size,
            r.stream_outputs@.len() == 1,
            r.stream_outputs@[0].item_size == item_size,
            !r.deinit_done,
    {
        let mut ins: Vec<StreamPort> = Vec::new();
        ins.push(StreamPort { name: String::from_str("in"), item_size });
        let mut outs: Vec<StreamPort> = Vec::new();
        outs.push(StreamPort { name: String::from_str("out"), item_size });
        Block {
            type_label: String::from_str("Passthrough"),
            stream_inputs: ins,
            stream_outputs: outs,
            message_inputs: Vec::new(),
            message_outputs: Vec::new(),
            kernel: Kernel::Passthrough,
            state: BlockState::Constructed,
            deinit_done: false,
        }
    }

    /// A sink block collecting everything it reads.
    pub fn vector_sink(item_size: usize) -> (r: Block)
        requires
            item_size >= 1,
        ensures
            r.kernel matches Kernel::VectorSink { collected, tags } && collected@.len() == 0
                && tags@.len() == 0,
            r.type_label@ == "VectorSink"@,
            r.state == BlockState::Constructed,
            r.stream_inputs@.len() == 1,
            r.stream_inputs@[0].item_size == item_size,
            r.stream_outputs@.len() == 0,
            !r.deinit_done,
    {
        let mut ins: Vec<StreamPort> = Vec::new();
        ins.push(StreamPort { name: String::from_str("in"), item_size });
        let collected: Vec<u8> = Vec::new();
        let sink_tags: Vec<ItemTag> = Vec::new();
        Block {
            type_label: String::from_str("VectorSink"),
            stream_inputs: ins,
            stream_outputs: Vec::new(),
            message_inputs: Vec::new(),
            message_outputs: Vec::new(),
            kernel: Kernel::VectorSink { collected, tags: sink_tags },
            state: BlockState::Constructed,
            deinit_done: false,
        }
    }

    /// A block whose `echo` handler replies with its argument.
    pub fn message_echo() -> (r: Block)
        ensures
            r.kernel == Kernel::MessageEcho,
            r.type_label@ == "MessageEcho"@,
            r.state == BlockState::Constructed,
            r.stream_inputs@.len() == 0,
            r.stream_outputs@.len() == 0,
            r.message_inputs@.len() == 1,
            r.message_inputs@[0]@ == "echo"@,
            !r.deinit_done,
    {
        let mut min: Vec<String> = Vec::new();
        min.push(String::from_str("echo"));
        Block {
            type_label: String::from_str("MessageEcho"),
            stream_inputs: Vec::new(),
            stream_outputs: Vec::new(),
            message_inputs: min,
            message_outputs: Vec::new(),
            kernel: Kernel::MessageEcho,
            state: BlockState::Constructed,
            deinit_done: false,
        }
    }
}

} // verus!
