//! The running flowgraph: per-block executors driven round-robin by a
//! cooperative scheduler, a mailbox per block, and the control surface
//! (call, callback, descriptions, terminate).

use vstd::prelude::*;
use crate::Error;
use crate::PortId;
use crate::pmt::Pmt;
use crate::pmt::PmtV;
use crate::pmt::pmtv;
use crate::topology::Topology;
use crate::topology::Block;
use crate::topology::BlockState;
use crate::topology::Kernel;
use crate::topology::StreamEdge;
use crate::topology::MessageEdge;
use crate::topology::resolve_message_port;
use crate::buffer::StreamBuffer;
use crate::buffer::ReadSignal;
use crate::tag::ItemTag;
use crate::tag::ItemTagV;
use crate::tag::clone_string;

verus! {

/// The models of the messages in a queue.
pub open spec fn pmt_views(q: Seq<Pmt>) -> Seq<PmtV> {
    Seq::new(q.len(), |i: int| pmtv(q[i]))
}

/// A single-reader message queue. Messages leave in arrival order;
/// the ghost send and delivery records witness it.
pub struct Mailbox {
    /// Queued messages, oldest first.
    pub queue: Vec<Pmt>,
    /// Models of every message ever sent, in send order.
    pub sent: Ghost<Seq<PmtV>>,
    /// Models of every message delivered so far, in delivery order.
    pub delivered: Ghost<Seq<PmtV>>,
}

impl Mailbox {
    /// Queue discipline: what was sent is what was delivered followed
    /// by what still waits.
    pub open spec fn wf(self) -> bool {
        self.sent@ == self.delivered@ + pmt_views(self.queue@)
    }

    /// An empty mailbox.
    pub fn new() -> (r: Mailbox)
        ensures
            r.wf(),
            r.sent@.len() == 0,
            r.delivered@.len() == 0,
            r.queue@.len() == 0,
    {
        let r = Mailbox { queue: Vec::new(), sent: Ghost(Seq::empty()), delivered: Ghost(Seq::empty()) };
        proof {
            assert(pmt_views(r.queue@) =~= Seq::<PmtV>::empty());
            assert(r.sent@ =~= r.delivered@ + pmt_views(r.queue@));
        }
        r
    }

    /// Accepts a message at the back of the queue.
    pub fn send(&mut self, m: Pmt)
        requires
            old(self).wf(),
        ensures
            final(self).wf(),
            final(self).sent@ == old(self).sent@.push(pmtv(m)),
            final(self).delivered@ == old(self).delivered@,
            final(self).queue@.len() == old(self).queue@.len() + 1,
    {
        let ghost m_v = pmtv(m);
        self.queue.push(m);
        proof {
            self.sent@ = self.sent@.push(m_v);
            assert(pmt_views(self.queue@) =~= pmt_views(old(self).queue@).push(m_v));
            assert(self.sent@ =~= self.delivered@ + pmt_views(self.queue@));
        }
    }

    /// Delivers the oldest queued message, if any.
    pub fn next(&mut self) -> (r: Option<Pmt>)
        requires
            old(self).wf(),
        ensures
            final(self).wf(),
            final(self).sent@ == old(self).sent@,
            match r {
                Some(m) => {
                    &&& old(self).queue@.len() > 0
                    &&& pmtv(m) == pmtv(old(self).queue@[0])
                    &&& pmtv(m) == old(self).sent@[old(self).delivered@.len() as int]
                    &&& final(self).delivered@ == old(self).delivered@.push(pmtv(m))
                    &&& final(self).queue@.len() == old(self).queue@.len() - 1
                },
                None => old(self).queue@.len() == 0 && *final(self) == *old(self),
            },
    {
        if self.queue.len() == 0 {
            return None;
        }
        let m = self.queue.remove(0);
        proof {
            self.delivered@ = self.delivered@.push(pmtv(m));
            assert(pmt_views(old(self).queue@) =~= seq![pmtv(m)] + pmt_views(self.queue@));
            assert(self.sent@ =~= self.delivered@ + pmt_views(self.queue@));
            assert(old(self).sent@[old(self).delivered@.len() as int] == pmtv(m));
        }
        Some(m)
    }
}

/// Delivery preserves send order on a single edge: at every point what
/// has been delivered is exactly the first part of what was sent, in
/// the same order.
pub proof fn lemma_mailbox_fifo(m: Mailbox)
    requires
        m.wf(),
    ensures
        m.delivered@ == m.sent@.take(m.delivered@.len() as int),
{
    assert(m.delivered@ =~= m.sent@.take(m.delivered@.len() as int));
}

/// What a message handler returns, as a function of the kernel, the
/// resolved port and the argument's model; `None` when the kernel has
/// no handler on that port.
pub open spec fn spec_handler(k: Kernel, port: int, x: PmtV) -> Option<PmtV> {
    match k {
        Kernel::MessageEcho => if port == 0 {
            Some(x)
        } else {
            None
        },
        _ => None,
    }
}

/// Invokes the kernel's handler on the resolved message port.
fn invoke_handler(k: &mut Kernel, port: usize, data: Pmt) -> (r: Result<Pmt, Error>)
    ensures
        *final(k) == *old(k),
        match r {
            Ok(y) => spec_handler(*old(k), port as int, pmtv(data)) == Some(pmtv(y)),
            Err(e) => spec_handler(*old(k), port as int, pmtv(data)) is None && e
                == Error::KernelError,
        },
{
    match k {
        Kernel::MessageEcho => {
            if port == 0 {
                Ok(data)
            } else {
                Err(Error::KernelError)
            }
        },
        _ => Err(Error::KernelError),
    }
}

/// How many items a work call moves given readable items and writable
/// space: nothing to do yields `Pending`, never a busy spin.
#[derive(Clone, Copy, Debug, PartialEq, Eq, Structural)]
pub enum WorkStatus {
    /// This many items were moved.
    Did(usize),
    /// Nothing could be done; the executor must wait for a wake-up.
    Pending,
}

/// The amount a rate-one work call transfers: the largest item count
/// both sides allow. With zero writable space (or nothing readable) it
/// is `Pending` and nothing is produced.
pub fn work_amount(avail_items: usize, space_items: usize) -> (r: WorkStatus)
    ensures
        avail_items == 0 || space_items == 0 ==> r == WorkStatus::Pending,
        avail_items > 0 && space_items > 0 ==> r == WorkStatus::Did(
            if avail_items <= space_items {
                avail_items
            } else {
                space_items
            },
        ),
{
    if avail_items == 0 || space_items == 0 {
        WorkStatus::Pending
    } else if avail_items <= space_items {
        WorkStatus::Did(avail_items)
    } else {
        WorkStatus::Did(space_items)
    }
}

/// A serializable description of one block.
pub struct BlockDescription {
    /// Block id.
    pub id: usize,
    /// The block's type name.
    pub type_label: String,
    /// Current lifecycle state.
    pub state: BlockState,
    /// Stream input port names, in order.
    pub stream_inputs: Vec<String>,
    /// Stream output port names, in order.
    pub stream_outputs: Vec<String>,
    /// Message input port names, in order.
    pub message_inputs: Vec<String>,
    /// Message output port names, in order.
    pub message_outputs: Vec<String>,
}

/// Copies a list of names; the views match pointwise.
fn clone_names(src: &Vec<String>) -> (r: Vec<String>)
    ensures
        r@.len() == src@.len(),
        forall|i: int| 0 <= i < src@.len() ==> (#[trigger] r@[i])@ == src@[i]@,
{
    let mut out: Vec<String> = Vec::new();
    let mut i: usize = 0;
    while i < src.len()
        invariant
            0 <= i <= src@.len(),
            out@.len() == i,
            forall|k: int| 0 <= k < i ==> (#[trigger] out@[k])@ == src@[k]@,
        decreases src@.len() - i,
    {
        out.push(clone_string(&src[i]));
        i = i + 1;
    }
    out
}

/// The names of a list of stream ports; the views match pointwise.
fn port_names(ports: &Vec<crate::topology::StreamPort>) -> (r: Vec<String>)
    ensures
        r@.len() == ports@.len(),
        forall|i: int| 0 <= i < ports@.len() ==> (#[trigger] r@[i])@ == ports@[i].name@,
{
    let mut out: Vec<String> = Vec::new();
    let mut i: usize = 0;
    while i < ports.len()
        invariant
            0 <= i <= ports@.len(),
            out@.len() == i,
            forall|k: int| 0 <= k < i ==> (#[trigger] out@[k])@ == ports@[k].name@,
        decreases ports@.len() - i,
    {
        out.push(clone_string(&ports[i].name));
        i = i + 1;
    }
    out
}

/// Whether a description record carries exactly the block's names,
/// ports and state.
pub open spec fn describes_block(d: BlockDescription, blk: Block, id: int) -> bool {
    &&& d.id == id
    &&& d.type_label@ == blk.type_label@
    &&& d.state == blk.state
    &&& d.stream_inputs@.len() == blk.stream_inputs@.len()
    &&& forall|i: int|
        0 <= i < blk.stream_inputs@.len() ==> (#[trigger] d.stream_inputs@[i])@
            == blk.stream_inputs@[i].name@
    &&& d.stream_outputs@.len() == blk.stream_outputs@.len()
    &&& forall|i: int|
        0 <= i < blk.stream_outputs@.len() ==> (#[trigger] d.stream_outputs@[i])@
            == blk.stream_outputs@[i].name@
    &&& d.message_inputs@.len() == blk.message_inputs@.len()
    &&& forall|i: int|
        0 <= i < blk.message_inputs@.len() ==> (#[trigger] d.message_inputs@[i])@
            == blk.message_inputs@[i]@
    &&& d.message_outputs@.len() == blk.message_outputs@.len()
    &&& forall|i: int|
        0 <= i < blk.message_outputs@.len() ==> (#[trigger] d.message_outputs@[i])@
            == blk.message_outputs@[i]@
}

/// A serializable description of the flowgraph and its current state.
pub struct FlowgraphDescription {
    /// One description per block, in id order.
    pub blocks: Vec<BlockDescription>,
    /// The stream edges.
    pub stream_edges: Vec<StreamEdge>,
    /// The message edges.
    pub message_edges: Vec<MessageEdge>,
}

/// A running flowgraph: blocks, their stream buffers and mailboxes,
/// wired per the topology, stepped cooperatively.
pub struct Runtime {
    /// The blocks, ids dense from zero.
    pub blocks: Vec<Block>,
    /// Per block: the buffer its single stream output writes, if any.
    pub buffers: Vec<Option<StreamBuffer>>,
    /// Per block: where its single stream input reads from, as
    /// (source block, reader index), if connected.
    pub wiring: Vec<Option<(usize, usize)>>,
    /// Per block: its mailbox.
    pub mailboxes: Vec<Mailbox>,
    /// The stream edges, kept for descriptions.
    pub stream_edges: Vec<StreamEdge>,
    /// The message edges, kept for descriptions and routing.
    pub message_edges: Vec<MessageEdge>,
    /// Whether termination was requested.
    pub terminating: bool,
    /// Every handler invocation: block, port, argument model.
    pub invocations: Ghost<Seq<(int, int, PmtV)>>,
}

impl Runtime {
    /// Structure invariant: parallel tables, well-formed buffers and
    /// mailboxes.
    pub open spec fn wf(self) -> bool {
        &&& self.buffers@.len() == self.blocks@.len()
        &&& self.wiring@.len() == self.blocks@.len()
        &&& self.mailboxes@.len() == self.blocks@.len()
        &&& forall|i: int|
            0 <= i < self.blocks@.len() ==> match #[trigger] self.buffers@[i] {
                Some(b) => b.wf(),
                None => true,
            }
        &&& forall|i: int| 0 <= i < self.blocks@.len() ==> (#[trigger] self.mailboxes@[i]).wf()
        &&& forall|i: int|
            0 <= i < self.blocks@.len() ==> match #[trigger] self.wiring@[i] {
                Some(w) => w.0 < self.blocks@.len() && w.0 != i,
                None => true,
            }
    }

    /// Whether every block has reached `Terminated` with its deinit
    /// completed.
    pub open spec fn all_terminated(self) -> bool {
        forall|i: int|
            0 <= i < self.blocks@.len() ==> (#[trigger] self.blocks@[i]).state
                == BlockState::Terminated && self.blocks@[i].deinit_done
    }

    /// Requests termination. Idempotent: a second request changes
    /// nothing.
    pub fn terminate(&mut self)
        ensures
            *final(self) == spec_terminate(*old(self)),
            old(self).terminating ==> *final(self) == *old(self),
    {
        self.terminating = true;
    }

    /// Routes a request/response message to a block's handler and
    /// returns the reply. Every message already queued for the block is
    /// delivered first, so the reply never overtakes earlier traffic;
    /// the handler then runs exactly once per `Ok` or `Err(KernelError)`
    /// reply, never otherwise. The invocation record says all of it.
    pub fn callback(&mut self, block_id: usize, port_id: PortId, data: Pmt) -> (r: Result<
        Pmt,
        Error,
    >)
        requires
            old(self).wf(),
        ensures
            final(self).wf(),
            final(self).blocks@.len() == old(self).blocks@.len(),
            ({
                let blocks = old(self).blocks@;
                if old(self).terminating {
                    r == Err::<Pmt, Error>(Error::FlowgraphTerminated) && *final(self) == *old(self)
                } else if block_id >= blocks.len() {
                    r == Err::<Pmt, Error>(Error::InvalidBlock(block_id)) && *final(self) == *old(self)
                } else if resolve_message_port(blocks[block_id as int].message_inputs@, port_id)
                    is None {
                    r == Err::<Pmt, Error>(Error::InvalidPort(block_id, port_id)) && *final(self)
                        == *old(self)
                } else {
                    let p = resolve_message_port(
                        blocks[block_id as int].message_inputs@,
                        port_id,
                    )->Some_0;
                    let q0 = old(self).mailboxes@[block_id as int].queue@;
                    let drained = Seq::new(
                        q0.len(),
                        |i: int| (block_id as int, 0int, pmt_views(q0)[i]),
                    );
                    &&& final(self).blocks@ =~= old(self).blocks@
                    &&& final(self).mailboxes@.len() == old(self).mailboxes@.len()
                    &&& (forall|i: int|
                        0 <= i < old(self).mailboxes@.len() && i != block_id ==> final(self).mailboxes@[i] == old(self).mailboxes@[i])
                    &&& final(self).mailboxes@[block_id as int].sent@ == old(self).mailboxes@[block_id as int].sent@
                    &&& final(self).mailboxes@[block_id as int].queue@.len() == 0
                    &&& final(self).mailboxes@[block_id as int].delivered@ == old(self).mailboxes@[block_id as int].delivered@ + pmt_views(q0)
                    &&& final(self).invocations@ == (old(self).invocations@ + drained).push(
                        (block_id as int, p, pmtv(data)),
                    )
                    &&& match r {
                        Ok(y) => spec_handler(blocks[block_id as int].kernel, p, pmtv(data))
                            == Some(pmtv(y)),
                        Err(e) => spec_handler(blocks[block_id as int].kernel, p, pmtv(data))
                            is None && e == Error::KernelError,
                    }
                }
            }),
    {
        if self.terminating {
            return Err(Error::FlowgraphTerminated);
        }
        if block_id >= self.blocks.len() {
            return Err(Error::InvalidBlock(block_id));
        }
        let p = match crate::topology::Topology::resolve_message(
            &self.blocks[block_id].message_inputs,
            &port_id,
        ) {
            Some(i) => i,
            None => {
                return Err(Error::InvalidPort(block_id, port_id));
            },
        };
        let ghost q0 = self.mailboxes@[block_id as int].queue@;
        let ghost d0 = self.mailboxes@[block_id as int].delivered@;
        let ghost sent0 = self.mailboxes@[block_id as int].sent@;
        let ghost inv0 = self.invocations@;
        proof {
            assert(sent0 == d0 + pmt_views(q0));
            assert(pmt_views(q0).take(0) =~= Seq::<PmtV>::empty());
            assert(d0 + pmt_views(q0).take(0) =~= d0);
            assert(inv0 + Seq::new(0, |i: int| (block_id as int, 0int, pmt_views(q0)[i])) =~= inv0);
        }
        loop
            invariant
                self.wf(),
                block_id < self.blocks@.len(),
                self.blocks@ =~= old(self).blocks@,
                self.blocks@[block_id as int].kernel == old(self).blocks@[block_id as int].kernel,
                self.buffers@ == old(self).buffers@,
                self.wiring@ == old(self).wiring@,
                self.terminating == old(self).terminating,
                self.stream_edges == old(self).stream_edges,
                self.message_edges == old(self).message_edges,
                self.mailboxes@.len() == old(self).mailboxes@.len(),
                forall|i: int|
                    0 <= i < self.mailboxes@.len() && i != block_id ==> self.mailboxes@[i] == old(self).mailboxes@[i],
                self.mailboxes@[block_id as int].sent@ == sent0,
                sent0 == d0 + pmt_views(q0),
                self.mailboxes@[block_id as int].delivered@.len() >= d0.len(),
                ({
                    let k = self.mailboxes@[block_id as int].delivered@.len() - d0.len();
                    &&& k <= q0.len()
                    &&& self.mailboxes@[block_id as int].delivered@ == d0 + pmt_views(q0).take(
                        k as int,
                    )
                    &&& self.mailboxes@[block_id as int].queue@.len() == q0.len() - k
                    &&& self.invocations@ == inv0 + Seq::new(
                        k as nat,
                        |i: int| (block_id as int, 0int, pmt_views(q0)[i]),
                    )
                }),
            ensures
                self.wf(),
                block_id < self.blocks@.len(),
                self.blocks@ =~= old(self).blocks@,
                self.blocks@[block_id as int].kernel == old(self).blocks@[block_id as int].kernel,
                self.buffers@ == old(self).buffers@,
                self.wiring@ == old(self).wiring@,
                self.terminating == old(self).terminating,
                self.stream_edges == old(self).stream_edges,
                self.message_edges == old(self).message_edges,
                self.mailboxes@.len() == old(self).mailboxes@.len(),
                forall|i: int|
                    0 <= i < self.mailboxes@.len() && i != block_id ==> self.mailboxes@[i] == old(self).mailboxes@[i],
                self.mailboxes@[block_id as int].sent@ == sent0,
                self.mailboxes@[block_id as int].queue@.len() == 0,
                self.mailboxes@[block_id as int].delivered@ == d0 + pmt_views(q0),
                self.invocations@ == inv0 + Seq::new(
                    q0.len(),
                    |i: int| (block_id as int, 0int, pmt_views(q0)[i]),
                ),
            decreases self.mailboxes@[block_id as int].queue@.len(),
        {
            let ghost k_pre = self.mailboxes@[block_id as int].delivered@.len() - d0.len();
            if !self.deliver_one(block_id) {
                proof {
                    assert(k_pre == q0.len());
                    assert(pmt_views(q0).take(q0.len() as int) =~= pmt_views(q0));
                }
                break;
            }
            proof {
                assert(sent0[d0.len() + k_pre] == pmt_views(q0)[k_pre as int]);
                assert(pmt_views(q0).take(k_pre as int + 1) =~= pmt_views(q0).take(
                    k_pre as int,
                ).push(pmt_views(q0)[k_pre as int]));
                assert(self.invocations@ =~= inv0 + Seq::new(
                    (k_pre + 1) as nat,
                    |i: int| (block_id as int, 0int, pmt_views(q0)[i]),
                ));
            }
        }
        let ghost data_v = pmtv(data);
        let mut block = self.blocks.remove(block_id);
        let r = invoke_handler(&mut block.kernel, p, data);
        let ghost before = self.blocks@;
        self.blocks.insert(block_id, block);
        proof {
            self.invocations@ = self.invocations@.push((block_id as int, p as int, data_v));
            assert(self.blocks@ =~= old(self).blocks@);
        }
        r
    }

    /// Sends a fire-and-forget message into a block's mailbox; the
    /// reply, if any, is discarded when the mailbox is drained.
    pub fn call(&mut self, block_id: usize, port_id: PortId, data: Pmt) -> (r: Result<(), Error>)
        requires
            old(self).wf(),
        ensures
            final(self).wf(),
            final(self).blocks@ == old(self).blocks@,
            ({
                let blocks = old(self).blocks@;
                if old(self).terminating {
                    r == Err::<(), Error>(Error::FlowgraphTerminated) && *final(self) == *old(self)
                } else if block_id >= blocks.len() {
                    r == Err::<(), Error>(Error::InvalidBlock(block_id)) && *final(self) == *old(self)
                } else if resolve_message_port(blocks[block_id as int].message_inputs@, port_id)
                    is None {
                    r == Err::<(), Error>(Error::InvalidPort(block_id, port_id)) && *final(self)
                        == *old(self)
                } else {
                    r == Ok::<(), Error>(()) && final(self).buffers@ == old(self).buffers@
                        && final(self).wiring@ == old(self).wiring@ && final(self).terminating
                        == old(self).terminating && final(self).invocations@ == old(self).invocations@ && final(self).stream_edges == old(self).stream_edges && final(self).message_edges == old(self).message_edges && final(self).mailboxes@[block_id as int].sent@
                        == old(self).mailboxes@[block_id as int].sent@.push(pmtv(data)) && forall|
                        i: int,
                    |
                        0 <= i < old(self).mailboxes@.len() && i != block_id
                            ==> final(self).mailboxes@[i] == (#[trigger] old(self).mailboxes@[i])
                }
            }),
    {
        if self.terminating {
            return Err(Error::FlowgraphTerminated);
        }
        if block_id >= self.blocks.len() {
            return Err(Error::InvalidBlock(block_id));
        }
        let p = match crate::topology::Topology::resolve_message(
            &self.blocks[block_id].message_inputs,
            &port_id,
        ) {
            Some(i) => i,
            None => {
                return Err(Error::InvalidPort(block_id, port_id));
            },
        };
        let ghost before = self.mailboxes@;
        let mbox = &mut self.mailboxes[block_id];
        mbox.send(data);
        proof {
            assert(self.mailboxes@ =~= before.update(
                block_id as int,
                self.mailboxes@[block_id as int],
            ));
        }
        Ok(())
    }

    /// Delivers one queued mailbox message of block `b` to its handler,
    /// in arrival order; the reply is discarded.
    pub fn deliver_one(&mut self, b: usize) -> (progressed: bool)
        requires
            old(self).wf(),
            b < old(self).blocks@.len(),
        ensures
            final(self).wf(),
            final(self).blocks@ =~= old(self).blocks@,
            final(self).buffers@ == old(self).buffers@,
            final(self).wiring@ == old(self).wiring@,
            final(self).terminating == old(self).terminating,
            final(self).stream_edges == old(self).stream_edges,
            final(self).message_edges == old(self).message_edges,
            final(self).mailboxes@.len() == old(self).mailboxes@.len(),
            forall|i: int|
                0 <= i < old(self).mailboxes@.len() && i != b ==> final(self).mailboxes@[i] == old(self).mailboxes@[i],
            progressed == (old(self).mailboxes@[b as int].queue@.len() > 0),
            progressed ==> {
                &&& final(self).mailboxes@[b as int].delivered@ == old(self).mailboxes@[b as int].delivered@.push(
                    old(self).mailboxes@[b as int].sent@[old(self).mailboxes@[b as int].delivered@.len() as int],
                )
                &&& final(self).mailboxes@[b as int].sent@ == old(self).mailboxes@[b as int].sent@
                &&& final(self).mailboxes@[b as int].queue@.len() == old(self).mailboxes@[b as int].queue@.len() - 1
                &&& final(self).invocations@ == old(self).invocations@.push(
                    (
                        b as int,
                        0int,
                        old(self).mailboxes@[b as int].sent@[old(self).mailboxes@[b as int].delivered@.len() as int],
                    ),
                )
            },
            !progressed ==> final(self).mailboxes@ =~= old(self).mailboxes@ && final(self).invocations@ == old(self).invocations@,
    {
        let ghost before_m = self.mailboxes@;
        let mbox = &mut self.mailboxes[b];
        let msg = mbox.next();
        match msg {
            Some(m) => {
                proof {
                    assert(self.mailboxes@ =~= before_m.update(
                        b as int,
                        self.mailboxes@[b as int],
                    ));
                }
                let ghost data_v = pmtv(m);
                let mut block = self.blocks.remove(b);
                let reply = invoke_handler(&mut block.kernel, 0, m);
                self.blocks.insert(b, block);
                proof {
                    self.invocations@ = self.invocations@.push((b as int, 0int, data_v));
                    assert(self.blocks@ =~= old(self).blocks@);
                }
                true
            },
            None => {
                proof {
                    assert(self.mailboxes@ =~= before_m);
                }
                false
            },
        }
    }

    /// The description of one block.
    pub fn block_description(&self, block_id: usize) -> (r: Result<BlockDescription, Error>)
        ensures
            match r {
                Ok(d) => block_id < self.blocks@.len() && describes_block(
                    d,
                    self.blocks@[block_id as int],
                    block_id as int,
                ),
                Err(e) => block_id >= self.blocks@.len() && e == Error::InvalidBlock(block_id),
            },
    {
        if block_id >= self.blocks.len() {
            return Err(Error::InvalidBlock(block_id));
        }
        let blk = &self.blocks[block_id];
        Ok(
            BlockDescription {
                id: block_id,
                type_label: clone_string(&blk.type_label),
                state: blk.state,
                stream_inputs: port_names(&blk.stream_inputs),
                stream_outputs: port_names(&blk.stream_outputs),
                message_inputs: clone_names(&blk.message_inputs),
                message_outputs: clone_names(&blk.message_outputs),
            },
        )
    }

    /// The description of the whole flowgraph and its current state.
    pub fn description(&self) -> (r: FlowgraphDescription)
        ensures
            r.blocks@.len() == self.blocks@.len(),
            forall|i: int|
                0 <= i < self.blocks@.len() ==> describes_block(
                    #[trigger] r.blocks@[i],
                    self.blocks@[i],
                    i,
                ),
            r.stream_edges@ == self.stream_edges@,
            r.message_edges@ == self.message_edges@,
    {
        let mut blocks: Vec<BlockDescription> = Vec::new();
        let mut i: usize = 0;
        while i < self.blocks.len()
            invariant
                0 <= i <= self.blocks@.len(),
                blocks@.len() == i,
                forall|k: int|
                    0 <= k < i ==> describes_block(#[trigger] blocks@[k], self.blocks@[k], k),
            decreases self.blocks@.len() - i,
        {
            match self.block_description(i) {
                Ok(d) => {
                    blocks.push(d);
                },
                Err(_) => {
                },
            }
            i = i + 1;
        }
        let mut stream_edges: Vec<StreamEdge> = Vec::new();
        let mut k: usize = 0;
        while k < self.stream_edges.len()
            invariant
                0 <= k <= self.stream_edges@.len(),
                stream_edges@ =~= self.stream_edges@.take(k as int),
            decreases self.stream_edges@.len() - k,
        {
            stream_edges.push(self.stream_edges[k]);
            proof {
                assert(self.stream_edges@.take(k + 1) =~= self.stream_edges@.take(k as int).push(
                    self.stream_edges@[k as int],
                ));
            }
            k = k + 1;
        }
        proof {
            assert(self.stream_edges@.take(self.stream_edges@.len() as int)
                =~= self.stream_edges@);
        }
        let mut message_edges: Vec<MessageEdge> = Vec::new();
        let mut j: usize = 0;
        while j < self.message_edges.len()
            invariant
                0 <= j <= self.message_edges@.len(),
                message_edges@ =~= self.message_edges@.take(j as int),
            decreases self.message_edges@.len() - j,
        {
            message_edges.push(self.message_edges[j]);
            proof {
                assert(self.message_edges@.take(j + 1) =~= self.message_edges@.take(
                    j as int,
                ).push(self.message_edges@[j as int]));
            }
            j = j + 1;
        }
        proof {
            assert(self.message_edges@.take(self.message_edges@.len() as int)
                =~= self.message_edges@);
        }
        FlowgraphDescription { blocks, stream_edges, message_edges }
    }
}

/// The runtime after a terminate request: the same runtime with the
/// flag raised.
pub open spec fn spec_terminate(r: Runtime) -> Runtime {
    Runtime { terminating: true, ..r }
}

/// Requesting termination twice equals requesting it once.
pub proof fn lemma_terminate_idempotent(r: Runtime)
    ensures
        spec_terminate(spec_terminate(r)) == spec_terminate(r),
{
}

/// Whether every `Terminated` block has flushed and finished its
/// output buffer.
pub open spec fn termination_flushed(rt: Runtime) -> bool {
    forall|i: int|
        0 <= i < rt.blocks@.len() && (#[trigger] rt.blocks@[i]).state == BlockState::Terminated
            ==> match rt.buffers@[i] {
            Some(bf) => bf.done,
            None => true,
        }
}

/// Every downstream reader of a terminated block observes `Done` once
/// it has drained the edge: the terminated writer has finished the
/// buffer, and a finished, drained buffer signals `Done`.
pub proof fn lemma_terminated_downstream_done(rt: Runtime, b: int, reader: int)
    requires
        rt.wf(),
        termination_flushed(rt),
        0 <= b < rt.blocks@.len(),
        rt.blocks@[b].state == BlockState::Terminated,
        rt.buffers@[b] is Some,
        0 <= reader < rt.buffers@[b]->Some_0.cursors@.len(),
        rt.buffers@[b]->Some_0.cursors@[reader] == rt.buffers@[b]->Some_0.items,
    ensures
        rt.buffers@[b]->Some_0.spec_signal(reader) == ReadSignal::Done,
{
}

impl Runtime {
    /// Builds a runtime from a validated topology: one buffer per
    /// connected output, reader cursors per fan-out edge, a mailbox
    /// per block, every block `Initialized`.
    ///
    /// Rejects with `RuntimeError` a topology whose blocks have more
    /// than one stream port per direction, a self-loop, or a buffer
    /// geometry that cannot be allocated.
    pub fn from_topology(t: Topology) -> (r: Result<Runtime, Error>)
        ensures
            match r {
                Ok(rt) => {
                    &&& rt.wf()
                    &&& termination_flushed(rt)
                    &&& !rt.terminating
                    &&& rt.invocations@.len() == 0
                    &&& rt.stream_edges == t.stream_edges
                    &&& rt.message_edges == t.message_edges
                    &&& rt.blocks@.len() == t.blocks@.len()
                    &&& forall|i: int|
                        0 <= i < rt.blocks@.len() ==> (#[trigger] rt.blocks@[i]) == (Block {
                            state: BlockState::Initialized,
                            ..t.blocks@[i]
                        })
                    &&& forall|i: int|
                        0 <= i < rt.blocks@.len() ==> (#[trigger] rt.mailboxes@[i]).sent@.len()
                            == 0 && rt.mailboxes@[i].queue@.len() == 0
                    &&& forall|i: int|
                        0 <= i < rt.blocks@.len() && (#[trigger] t.blocks@[i]).stream_inputs@.len()
                            == 0 ==> rt.wiring@[i] is None
                    &&& forall|i: int|
                        0 <= i < rt.blocks@.len() && (#[trigger] t.blocks@[i]).stream_outputs@.len()
                            == 0 ==> rt.buffers@[i] is None
                    &&& forall|i: int|
                        0 <= i < rt.blocks@.len() ==> match #[trigger] rt.buffers@[i] {
                            Some(bf) => {
                                &&& bf.items == 0
                                &&& !bf.done
                                &&& bf.committed_bytes() == Seq::<u8>::empty()
                                &&& t.blocks@[i].stream_outputs@.len() == 1
                                &&& bf.item_size == t.blocks@[i].stream_outputs@[0].item_size
                            },
                            None => true,
                        }
                },
                Err(e) => e == Error::RuntimeError,
            },
    {
        let Topology { blocks: tblocks, stream_edges, message_edges } = t;
        let n = tblocks.len();
        let mut blocks: Vec<Block> = Vec::new();
        let mut buffers: Vec<Option<StreamBuffer>> = Vec::new();
        let mut wiring: Vec<Option<(usize, usize)>> = Vec::new();
        let mut mailboxes: Vec<Mailbox> = Vec::new();
        let mut src_iter: Vec<Block> = tblocks;
        let ghost tb = src_iter@;
        let mut b: usize = 0;
        while b < src_iter.len()
            invariant
                0 <= b <= src_iter@.len(),
                src_iter@.len() == n,
                tb.len() == n,
                tb == t.blocks@,
                forall|i: int| b <= i < n ==> (#[trigger] src_iter@[i]) == tb[i],
                blocks@.len() == b,
                buffers@.len() == b,
                wiring@.len() == b,
                mailboxes@.len() == b,
                forall|i: int|
                    0 <= i < b ==> (#[trigger] blocks@[i]) == (Block {
                        state: BlockState::Initialized,
                        ..tb[i]
                    }),
                forall|i: int|
                    0 <= i < b ==> (#[trigger] mailboxes@[i]).sent@.len() == 0
                        && mailboxes@[i].queue@.len() == 0,
                forall|i: int|
                    0 <= i < b && (#[trigger] tb[i]).stream_inputs@.len() == 0 ==> wiring@[i]
                        is None,
                forall|i: int|
                    0 <= i < b && (#[trigger] tb[i]).stream_outputs@.len() == 0 ==> buffers@[i]
                        is None,
                forall|i: int|
                    0 <= i < b ==> match #[trigger] buffers@[i] {
                        Some(bf) => {
                            &&& bf.items == 0
                            &&& !bf.done
                            &&& bf.committed_bytes() == Seq::<u8>::empty()
                            &&& tb[i].stream_outputs@.len() == 1
                            &&& bf.item_size == tb[i].stream_outputs@[0].item_size
                        },
                        None => true,
                    },
                forall|i: int|
                    0 <= i < b ==> match #[trigger] buffers@[i] {
                        Some(bf) => bf.wf(),
                        None => true,
                    },
                forall|i: int| 0 <= i < b ==> (#[trigger] mailboxes@[i]).wf(),
                forall|i: int|
                    0 <= i < b ==> match #[trigger] wiring@[i] {
                        Some(w) => w.0 < n && w.0 != i,
                        None => true,
                    },
            decreases src_iter@.len() - b,
        {
            let block = &src_iter[b];
            if block.stream_inputs.len() > 1 || block.stream_outputs.len() > 1 {
                return Err(Error::RuntimeError);
            }
            // The output buffer, when the single output is connected.
            let mut buf: Option<StreamBuffer> = None;
            if block.stream_outputs.len() == 1 {
                let item_size = block.stream_outputs[0].item_size;
                let mut readers: usize = 0;
                let mut capacity_items: usize = 0;
                let mut k: usize = 0;
                while k < stream_edges.len()
                    invariant
                        0 <= k <= stream_edges@.len(),
                        readers <= k,
                    decreases stream_edges@.len() - k,
                {
                    let e = &stream_edges[k];
                    if e.src_block == b {
                        if readers == 0 {
                            capacity_items = e.capacity_items;
                        }
                        if readers == usize::MAX {
                            return Err(Error::RuntimeError);
                        }
                        readers = readers + 1;
                    }
                    k = k + 1;
                }
                if readers > 0 {
                    if item_size < 1 || capacity_items < 1 {
                        return Err(Error::RuntimeError);
                    }
                    if capacity_items > usize::MAX / item_size {
                        return Err(Error::RuntimeError);
                    }
                    proof {
                        vstd::arithmetic::div_mod::lemma_fundamental_div_mod(
                            usize::MAX as int,
                            item_size as int,
                        );
                        assert(item_size * capacity_items <= item_size * (
                        usize::MAX as int / item_size as int)) by (nonlinear_arith)
                            requires
                                capacity_items as int <= usize::MAX as int / item_size as int,
                                item_size >= 1,
                        ;
                        assert(item_size * (usize::MAX as int / item_size as int)
                            <= usize::MAX as int);
                    }
                    buf = Some(StreamBuffer::new(item_size, capacity_items, readers));
                }
            }
            // The input wiring, when the single input is connected.
            let mut wire: Option<(usize, usize)> = None;
            if block.stream_inputs.len() == 1 {
                let mut k: usize = 0;
                let mut seen_from: Vec<usize> = Vec::new();
                // reader index of the edge into b = how many earlier
                // edges leave the same source
                let mut found: bool = false;
                let mut src: usize = 0;
                let mut reader: usize = 0;
                while k < stream_edges.len()
                    invariant
                        0 <= k <= stream_edges@.len(),
                        found ==> src < n || src >= n,
                    decreases stream_edges@.len() - k,
                {
                    let e = &stream_edges[k];
                    if !found && e.dst_block == b {
                        found = true;
                        src = e.src_block;
                        let mut j: usize = 0;
                        let mut cnt: usize = 0;
                        while j < k
                            invariant
                                0 <= j <= k,
                                k <= stream_edges@.len(),
                                cnt <= j,
                            decreases k - j,
                        {
                            let e2 = &stream_edges[j];
                            if e2.src_block == src {
                                cnt = cnt + 1;
                            }
                            j = j + 1;
                        }
                        reader = cnt;
                    }
                    k = k + 1;
                }
                if found {
                    if src >= n || src == b {
                        return Err(Error::RuntimeError);
                    }
                    wire = Some((src, reader));
                }
            }
            // take the block out; a placeholder keeps the positions of
            // the blocks still to be processed stable
            let ghost before_take = src_iter@;
            let mut placed = src_iter.remove(b);
            proof {
                assert(before_take[b as int] == tb[b as int]);
            }
            placed.state = BlockState::Initialized;
            src_iter.insert(b, Block {
                type_label: String::new(),
                stream_inputs: Vec::new(),
                stream_outputs: Vec::new(),
                message_inputs: Vec::new(),
                message_outputs: Vec::new(),
                kernel: Kernel::Passthrough,
                state: BlockState::Initialized,
                deinit_done: false,
            });
            blocks.push(placed);
            buffers.push(buf);
            wiring.push(wire);
            mailboxes.push(Mailbox::new());
            b = b + 1;
        }
        let rt = Runtime {
            blocks,
            buffers,
            wiring,
            mailboxes,
            stream_edges,
            message_edges,
            terminating: false,
            invocations: Ghost(Seq::empty()),
        };
        Ok(rt)
    }

    /// Starts every initialized block.
    pub fn start(&mut self)
        requires
            old(self).wf(),
        ensures
            final(self).wf(),
            final(self).blocks@.len() == old(self).blocks@.len(),
            final(self).buffers@ == old(self).buffers@,
            final(self).wiring@ == old(self).wiring@,
            final(self).mailboxes@ == old(self).mailboxes@,
            final(self).stream_edges == old(self).stream_edges,
            final(self).message_edges == old(self).message_edges,
            final(self).terminating == old(self).terminating,
            final(self).invocations@ == old(self).invocations@,
            termination_flushed(*old(self)) ==> termination_flushed(*final(self)),
            forall|i: int|
                0 <= i < old(self).blocks@.len() ==> (#[trigger] final(self).blocks@[i]) == (Block {
                    state: if old(self).blocks@[i].state == BlockState::Initialized {
                        BlockState::Running
                    } else {
                        old(self).blocks@[i].state
                    },
                    ..old(self).blocks@[i]
                }),
    {
        let mut b: usize = 0;
        while b < self.blocks.len()
            invariant
                old(self).wf(),
                0 <= b <= self.blocks@.len(),
                self.blocks@.len() == old(self).blocks@.len(),
                self.buffers@ == old(self).buffers@,
                self.wiring@ == old(self).wiring@,
                self.mailboxes@ == old(self).mailboxes@,
                self.stream_edges == old(self).stream_edges,
                self.message_edges == old(self).message_edges,
                self.invocations@ == old(self).invocations@,
                self.terminating == old(self).terminating,
                forall|i: int|
                    b <= i < self.blocks@.len() ==> (#[trigger] self.blocks@[i]) == old(self).blocks@[i],
                forall|i: int|
                    0 <= i < b ==> (#[trigger] self.blocks@[i]) == (Block {
                        state: if old(self).blocks@[i].state == BlockState::Initialized {
                            BlockState::Running
                        } else {
                            old(self).blocks@[i].state
                        },
                        ..old(self).blocks@[i]
                    }),
            decreases self.blocks@.len() - b,
        {
            let mut block = self.blocks.remove(b);
            if block.state == BlockState::Initialized {
                block.state = BlockState::Running;
            }
            let ghost before = self.blocks@;
            self.blocks.insert(b, block);
            proof {
                assert(self.blocks@ =~= before.insert(b as int, block));
            }
            b = b + 1;
        }
        proof {
            assert(self.wf()) by {
                assert(forall|i: int|
                    0 <= i < self.blocks@.len() ==> (#[trigger] self.mailboxes@[i]).wf());
            }
        }
    }
}


/// Index of the block feeding `b`'s input, or -1 when unwired.
pub open spec fn src_of(pre: Runtime, b: int) -> int {
    match pre.wiring@[b] {
        Some(w) => w.0 as int,
        None => -1,
    }
}

/// What a step never touches: every table except the stepped block,
/// its own buffer, and its upstream buffer.
pub open spec fn step_frame(pre: Runtime, post: Runtime, b: int) -> bool {
    &&& post.mailboxes == pre.mailboxes
    &&& post.invocations == pre.invocations
    &&& post.stream_edges == pre.stream_edges
    &&& post.message_edges == pre.message_edges
    &&& post.wiring == pre.wiring
    &&& post.terminating == pre.terminating
    &&& post.blocks@.len() == pre.blocks@.len()
    &&& post.buffers@.len() == pre.buffers@.len()
    &&& forall|i: int|
        0 <= i < pre.blocks@.len() && i != b ==> post.blocks@[i] == pre.blocks@[i]
    &&& forall|j: int|
        0 <= j < pre.buffers@.len() && j != b && j != src_of(pre, b) ==> post.buffers@[j]
            == pre.buffers@[j]
}

/// A finished copy of an optional buffer.
pub open spec fn finished_opt(o: Option<StreamBuffer>) -> Option<StreamBuffer> {
    match o {
        Some(x) => Some(crate::buffer::spec_finish(x)),
        None => None,
    }
}

/// The block terminated with its deinit run.
pub open spec fn terminated_block(blk: Block) -> Block {
    Block { state: BlockState::Terminated, deinit_done: true, ..blk }
}

/// The block moved to the absorbing error state.
pub open spec fn errored_block(blk: Block) -> Block {
    Block { state: BlockState::Error, ..blk }
}

/// What one step does to a running vector source: it emits the next
/// whole items its write space allows, attaches the tags of that
/// range, and finishes and terminates at the end of its data or on a
/// termination request.
pub open spec fn step_rel_source(pre: Runtime, post: Runtime, b: int, progressed: bool) -> bool {
    let blk = pre.blocks@[b];
    blk.kernel matches Kernel::VectorSource { data, pos, tags } ==> (match pre.wiring@[b] {
        Some(w) => post.buffers@[w.0 as int] == pre.buffers@[w.0 as int],
        None => true,
    }) && match pre.buffers@[b] {
        None => post.blocks@[b] == errored_block(blk) && post.buffers@[b] == pre.buffers@[b]
            && progressed,
        Some(buf0) => if pre.terminating {
            &&& post.blocks@[b] == terminated_block(blk)
            &&& post.buffers@[b] == Some(crate::buffer::spec_finish(buf0))
            &&& progressed
        } else {
            let is = buf0.item_size as int;
            let space_items = buf0.spec_space() / is;
            let remaining = if pos <= data@.len() {
                (data@.len() - pos) / is
            } else {
                0
            };
            if remaining == 0 || space_items == 0 {
                if pos >= data@.len() {
                    &&& post.blocks@[b] == terminated_block(blk)
                    &&& post.buffers@[b] == Some(crate::buffer::spec_finish(buf0))
                    &&& progressed
                } else {
                    &&& post.blocks@[b] == blk
                    &&& post.buffers@[b] == pre.buffers@[b]
                    &&& !progressed
                }
            } else {
                let n = if remaining <= space_items {
                    remaining
                } else {
                    space_items
                };
                let nb = n * is;
                let accept = commit_accepts(buf0, nb);
                let pos2 = if accept {
                    pos + nb
                } else {
                    pos as int
                };
                let eos = pos2 >= data@.len();
                let tags_ok = (pos as int) / is + n <= usize::MAX;
                &&& (post.blocks@[b].kernel matches Kernel::VectorSource {
                    data: d2,
                    pos: p2,
                    tags: t2,
                } && d2 == data && t2 == tags && p2 == pos2)
                &&& post.blocks@[b].state == (if eos {
                    BlockState::Terminated
                } else {
                    blk.state
                })
                &&& post.blocks@[b].deinit_done == (eos || blk.deinit_done)
                &&& post.blocks@[b].type_label == blk.type_label
                &&& post.blocks@[b].stream_inputs == blk.stream_inputs
                &&& post.blocks@[b].stream_outputs == blk.stream_outputs
                &&& post.blocks@[b].message_inputs == blk.message_inputs
                &&& post.blocks@[b].message_outputs == blk.message_outputs
                &&& (post.buffers@[b] matches Some(pb) && {
                    &&& pb.item_size == buf0.item_size
                    &&& pb.capacity == buf0.capacity
                    &&& pb.cursors@ == buf0.cursors@
                    &&& pb.logs@ == buf0.logs@
                    &&& pb.committed_bytes() == (if accept {
                        buf0.committed_bytes() + data@.subrange(pos as int, pos2)
                    } else {
                        buf0.committed_bytes()
                    })
                    &&& pb.items as int == (if accept {
                        buf0.items + n
                    } else {
                        buf0.items as int
                    })
                    &&& (accept ==> crate::tag::itags(pb.tags@) =~= crate::tag::itags(buf0.tags@)
                        + (if tags_ok {
                        crate::buffer::shift_tags(
                            crate::tag::tags_in_range(
                                crate::tag::itags(tags@),
                                (pos as int) / is,
                                (pos as int) / is + n,
                            ),
                            buf0.items as int,
                        )
                    } else {
                        Seq::<ItemTagV>::empty()
                    }))
                    &&& (!accept ==> pb.tags@ == buf0.tags@)
                    &&& pb.done == (eos || buf0.done)
                })
                &&& progressed == (accept || eos)
            }
        },
    }
}

/// What one step does to a running passthrough: it moves the largest
/// item count both sides allow from its input to its output, carries
/// the range's tags, and finishes and terminates once the upstream is
/// done and drained or on a termination request.
pub open spec fn step_rel_pass(pre: Runtime, post: Runtime, b: int, progressed: bool) -> bool {
    let blk = pre.blocks@[b];
    blk.kernel is Passthrough ==> match pre.wiring@[b] {
        None => if pre.terminating {
            &&& post.blocks@[b] == terminated_block(blk)
            &&& post.buffers@[b] == finished_opt(pre.buffers@[b])
            &&& progressed
        } else {
            post.blocks@[b] == blk && post.buffers@[b] == pre.buffers@[b] && !progressed
        },
        Some(w) => {
            let src = w.0 as int;
            let rdr = w.1 as int;
            match pre.buffers@[src] {
                None => post.blocks@[b] == errored_block(blk) && post.buffers@[b]
                    == pre.buffers@[b] && post.buffers@[src] == pre.buffers@[src] && progressed,
                Some(up0) => if rdr >= up0.cursors@.len() {
                    &&& post.blocks@[b] == errored_block(blk)
                    &&& post.buffers@[b] == pre.buffers@[b]
                    &&& post.buffers@[src] == pre.buffers@[src]
                    &&& progressed
                } else {
                    match pre.buffers@[b] {
                        None => post.blocks@[b] == errored_block(blk) && post.buffers@[b]
                            == pre.buffers@[b] && post.buffers@[src] == pre.buffers@[src]
                            && progressed,
                        Some(own0) => if pre.terminating {
                            &&& post.blocks@[b] == terminated_block(blk)
                            &&& post.buffers@[b] == Some(crate::buffer::spec_finish(own0))
                            &&& post.buffers@[src] == pre.buffers@[src]
                            &&& progressed
                        } else {
                            let cur = up0.cursors@[rdr] as int;
                            let uis = up0.item_size as int;
                            let avail = up0.items - cur;
                            let sp = own0.spec_space() / (own0.item_size as int);
                            if avail == 0 || sp == 0 {
                                let sig = avail == 0 && up0.done;
                                if sig {
                                    &&& post.blocks@[b] == terminated_block(blk)
                                    &&& post.buffers@[b] == Some(crate::buffer::spec_finish(own0))
                                    &&& post.buffers@[src] == pre.buffers@[src]
                                    &&& progressed
                                } else {
                                    &&& post.blocks@[b] == blk
                                    &&& post.buffers@[b] == pre.buffers@[b]
                                    &&& post.buffers@[src] == pre.buffers@[src]
                                    &&& !progressed
                                }
                            } else {
                                let n = if avail <= sp {
                                    avail
                                } else {
                                    sp
                                };
                                let chunk = up0.store@.subrange(cur * uis, (cur + n) * uis);
                                let rtags = crate::tag::tags_in_range(
                                    crate::tag::itags(up0.tags@),
                                    cur,
                                    cur + n,
                                );
                                let accept = up0.item_size == own0.item_size && commit_accepts(
                                    own0,
                                    n * uis,
                                );
                                let sig = cur + n == up0.items && up0.done;
                                &&& (post.buffers@[src] matches Some(pu) && {
                                    &&& pu.item_size == up0.item_size
                                    &&& pu.capacity == up0.capacity
                                    &&& pu.items == up0.items
                                    &&& pu.done == up0.done
                                    &&& pu.committed_bytes() == up0.committed_bytes()
                                    &&& pu.tags@ == up0.tags@
                                    &&& pu.cursors@ == up0.cursors@.update(
                                        rdr,
                                        (cur + n) as usize,
                                    )
                                })
                                &&& (post.buffers@[b] matches Some(pb) && {
                                    &&& pb.item_size == own0.item_size
                                    &&& pb.capacity == own0.capacity
                                    &&& pb.cursors@ == own0.cursors@
                                    &&& pb.committed_bytes() == (if accept {
                                        own0.committed_bytes() + chunk
                                    } else {
                                        own0.committed_bytes()
                                    })
                                    &&& pb.items as int == (if accept {
                                        own0.items + n
                                    } else {
                                        own0.items as int
                                    })
                                    &&& (accept ==> crate::tag::itags(pb.tags@)
                                        =~= crate::tag::itags(own0.tags@)
                                        + crate::buffer::shift_tags(rtags, own0.items as int))
                                    &&& (!accept ==> pb.tags@ == own0.tags@)
                                    &&& pb.done == (sig || own0.done)
                                })
                                &&& post.blocks@[b].kernel == blk.kernel
                                &&& post.blocks@[b].state == (if sig {
                                    BlockState::Terminated
                                } else {
                                    blk.state
                                })
                                &&& post.blocks@[b].deinit_done == (sig || blk.deinit_done)
                                &&& post.blocks@[b].type_label == blk.type_label
                                &&& post.blocks@[b].stream_inputs == blk.stream_inputs
                                &&& post.blocks@[b].stream_outputs == blk.stream_outputs
                                &&& post.blocks@[b].message_inputs == blk.message_inputs
                                &&& post.blocks@[b].message_outputs == blk.message_outputs
                                &&& progressed == (accept || sig)
                            }
                        },
                    }
                },
            }
        },
    }
}

/// What one step does to a running vector sink: it consumes everything
/// readable, appends those bytes to its record with the range's tags
/// rebased to the record, and terminates once the upstream is done and
/// drained, or on a termination request when unwired.
pub open spec fn step_rel_sink(pre: Runtime, post: Runtime, b: int, progressed: bool) -> bool {
    let blk = pre.blocks@[b];
    blk.kernel matches Kernel::VectorSink { collected, tags } ==> match pre.wiring@[b] {
        None => if pre.terminating {
            &&& post.blocks@[b] == terminated_block(blk)
            &&& post.buffers@[b] == finished_opt(pre.buffers@[b])
            &&& progressed
        } else {
            post.blocks@[b] == blk && post.buffers@[b] == pre.buffers@[b] && !progressed
        },
        Some(w) => {
            let src = w.0 as int;
            let rdr = w.1 as int;
            match pre.buffers@[src] {
                None => post.blocks@[b] == errored_block(blk) && post.buffers@[b]
                    == pre.buffers@[b] && post.buffers@[src] == pre.buffers@[src] && progressed,
                Some(up0) => if rdr >= up0.cursors@.len() {
                    &&& post.blocks@[b] == errored_block(blk)
                    &&& post.buffers@[b] == pre.buffers@[b]
                    &&& post.buffers@[src] == pre.buffers@[src]
                    &&& progressed
                } else {
                    let cur = up0.cursors@[rdr] as int;
                    let uis = up0.item_size as int;
                    let avail = up0.items - cur;
                    let chunk = up0.store@.subrange(cur * uis, (cur + avail) * uis);
                    let rtags = crate::tag::tags_in_range(
                        crate::tag::itags(up0.tags@),
                        cur,
                        cur + avail,
                    );
                    let sig = up0.done;
                    &&& (post.buffers@[src] matches Some(pu) && {
                        &&& pu.item_size == up0.item_size
                        &&& pu.items == up0.items
                        &&& pu.done == up0.done
                        &&& pu.committed_bytes() == up0.committed_bytes()
                        &&& pu.tags@ == up0.tags@
                        &&& pu.cursors@ == (if avail > 0 {
                            up0.cursors@.update(rdr, up0.items)
                        } else {
                            up0.cursors@
                        })
                    })
                    &&& (post.blocks@[b].kernel matches Kernel::VectorSink {
                        collected: c2,
                        tags: t2,
                    } && {
                        &&& (avail > 0 ==> c2@ == collected@ + chunk && crate::tag::itags(t2@)
                            =~= crate::tag::itags(tags@) + crate::tag::shift_clip_tags(
                            rtags,
                            (collected@.len() as int) / uis,
                        ))
                        &&& (avail == 0 ==> c2 == collected && t2 == tags)
                    })
                    &&& post.blocks@[b].state == (if sig {
                        BlockState::Terminated
                    } else {
                        blk.state
                    })
                    &&& post.blocks@[b].deinit_done == (sig || blk.deinit_done)
                    &&& post.blocks@[b].type_label == blk.type_label
                    &&& post.blocks@[b].stream_inputs == blk.stream_inputs
                    &&& post.blocks@[b].stream_outputs == blk.stream_outputs
                    &&& post.blocks@[b].message_inputs == blk.message_inputs
                    &&& post.blocks@[b].message_outputs == blk.message_outputs
                    &&& post.buffers@[b] == (if sig {
                        finished_opt(pre.buffers@[b])
                    } else {
                        pre.buffers@[b]
                    })
                    &&& progressed == (avail > 0 || sig)
                },
            }
        },
    }
}

/// What one step does to a running message-handler block: it
/// terminates on a termination request and otherwise rests.
pub open spec fn step_rel_echo(pre: Runtime, post: Runtime, b: int, progressed: bool) -> bool {
    let blk = pre.blocks@[b];
    blk.kernel is MessageEcho ==> (match pre.wiring@[b] {
        Some(w) => post.buffers@[w.0 as int] == pre.buffers@[w.0 as int],
        None => true,
    }) && if pre.terminating {
        &&& post.blocks@[b] == terminated_block(blk)
        &&& post.buffers@[b] == finished_opt(pre.buffers@[b])
        &&& progressed
    } else {
        post.blocks@[b] == blk && post.buffers@[b] == pre.buffers@[b] && !progressed
    }
}

/// The full step relation: a non-running block rests; a running block
/// moves data, tags and lifecycle per its kernel, touching nothing
/// else.
pub open spec fn step_rel(pre: Runtime, post: Runtime, b: int, progressed: bool) -> bool {
    if pre.blocks@[b].state != BlockState::Running {
        post == pre && !progressed
    } else {
        &&& step_frame(pre, post, b)
        &&& step_rel_source(pre, post, b, progressed)
        &&& step_rel_pass(pre, post, b, progressed)
        &&& step_rel_sink(pre, post, b, progressed)
        &&& step_rel_echo(pre, post, b, progressed)
    }
}

impl Runtime {
    /// One executor step for block `b`: drain lifecycle work, move as
    /// many whole items as readiness allows, propagate the range's
    /// tags, finish outputs and terminate on end-of-stream or on a
    /// termination request. Nothing is moved when nothing is ready.
    #[verifier::rlimit(100)]
    pub fn step_block(&mut self, b: usize) -> (progressed: bool)
        requires
            old(self).wf(),
            b < old(self).blocks@.len(),
        ensures
            final(self).wf(),
            step_rel(*old(self), *final(self), b as int, progressed),
    {
        let state = self.blocks[b].state;
        if state != BlockState::Running {
            return false;
        }
        let terminating = self.terminating;
        let wire = self.wiring[b];
        let mut block = self.blocks.remove(b);
        let mut progressed = false;
        match &mut block.kernel {
            Kernel::VectorSource { data, pos, tags } => {
                let slot = &mut self.buffers[b];
                let buf_opt = slot.take();
                match buf_opt {
                    Some(mut buf) => {
                        let is = buf.item_size;
                        if terminating {
                            buf.finish();
                            block.state = BlockState::Terminated;
                            block.deinit_done = true;
                            progressed = true;
                        } else {
                            let space_b = buf.space();
                            let space_items = space_b / is;
                            let remaining_items = if *pos <= data.len() {
                                (data.len() - *pos) / is
                            } else {
                                0
                            };
                            match work_amount(remaining_items, space_items) {
                                WorkStatus::Did(n) => {
                                    proof {
                                        let isi = is as int;
                                        vstd::arithmetic::div_mod::lemma_fundamental_div_mod(
                                            data@.len() - *pos as int,
                                            isi,
                                        );
                                        vstd::arithmetic::mul::lemma_mul_is_commutative(
                                            remaining_items as int,
                                            isi,
                                        );
                                        assert(remaining_items as int * isi <= data@.len()
                                            - *pos as int);
                                        assert(n as int * isi <= remaining_items as int * isi)
                                            by (nonlinear_arith)
                                            requires
                                                n <= remaining_items,
                                                isi >= 0,
                                        ;
                                    }
                                    let moved = emit_from(data, *pos, n, is);
                                    let pos_items = *pos / is;
                                    let mut out_tags: Vec<ItemTag> = Vec::new();
                                    let ghost no_tags = out_tags@;
                                    if pos_items <= usize::MAX - n {
                                        crate::tag::push_tags_in_range(
                                            &mut out_tags,
                                            tags,
                                            pos_items,
                                            pos_items + n,
                                        );
                                        proof {
                                            assert(crate::tag::itags(no_tags) =~= Seq::<
                                                ItemTagV,
                                            >::empty());
                                            assert(crate::tag::itags(out_tags@)
                                                =~= crate::tag::tags_in_range(
                                                crate::tag::itags(tags@),
                                                pos_items as int,
                                                pos_items + n,
                                            ));
                                            crate::tag::lemma_tags_in_range_bounded(
                                                crate::tag::itags(tags@),
                                                pos_items as int,
                                                pos_items + n,
                                            );
                                        }
                                    } else {
                                        proof {
                                            assert(crate::tag::itags(out_tags@) =~= Seq::<
                                                ItemTagV,
                                            >::empty());
                                        }
                                    }
                                    proof {
                                        let isi = is as int;
                                        assert(moved@.len() == n as int * isi);
                                        vstd::arithmetic::div_mod::lemma_div_multiples_vanish(
                                            n as int,
                                            isi,
                                        );
                                        vstd::arithmetic::mul::lemma_mul_is_commutative(
                                            n as int,
                                            isi,
                                        );
                                        assert((moved@.len() as int) / isi == n as int);
                                        crate::tag::lemma_clip_tags_noop(
                                            crate::tag::itags(out_tags@),
                                            n as int,
                                        );
                                    }
                                    if try_commit(&mut buf, &moved, &out_tags, n) {
                                        *pos = *pos + moved.len();
                                        progressed = true;
                                    }
                                    if *pos >= data.len() {
                                        buf.finish();
                                        block.state = BlockState::Terminated;
                                        block.deinit_done = true;
                                        progressed = true;
                                    }
                                },
                                WorkStatus::Pending => {
                                    if *pos >= data.len() {
                                        buf.finish();
                                        block.state = BlockState::Terminated;
                                        block.deinit_done = true;
                                        progressed = true;
                                    }
                                },
                            }
                        }
                        *slot = Some(buf);
                    },
                    None => {
                        block.state = BlockState::Error;
                        progressed = true;
                    },
                }
            },
            Kernel::Passthrough => {
                match wire {
                    Some((src, rdr)) => {
                        let up_slot = &mut self.buffers[src];
                        let up_opt = up_slot.take();
                        match up_opt {
                            Some(mut up) => {
                                if rdr < up.cursors.len() {
                                    let avail = up.readable(rdr);
                                    let own_slot = &mut self.buffers[b];
                                    let own_opt = own_slot.take();
                                    match own_opt {
                                        Some(mut own) => {
                                            if terminating {
                                                own.finish();
                                                block.state = BlockState::Terminated;
                                                block.deinit_done = true;
                                                progressed = true;
                                            } else {
                                                let space_items = own.space() / own.item_size;
                                                match work_amount(avail, space_items) {
                                                    WorkStatus::Did(n) => {
                                                        let ghost cur_g = up.cursors@[rdr as int] as int;
                                                        let moved = up.consume(rdr, n);
                                                        proof {
                                                            let uisi = up.item_size as int;
                                                            assert((cur_g + n) * uisi - cur_g * uisi
                                                                == n as int * uisi) by (nonlinear_arith);
                                                            assert(cur_g * uisi >= 0) by (nonlinear_arith)
                                                                requires
                                                                    cur_g >= 0,
                                                                    uisi >= 0,
                                                            ;
                                                            assert(cur_g * uisi <= (cur_g + n) * uisi)
                                                                by (nonlinear_arith)
                                                                requires
                                                                    n >= 0,
                                                                    uisi >= 0,
                                                            ;
                                                            assert((cur_g + n) * uisi <= up.items as int
                                                                * uisi) by (nonlinear_arith)
                                                                requires
                                                                    cur_g + n <= up.items as int,
                                                                    uisi >= 1,
                                                            ;
                                                            assert(moved.0@.len() == n as int * uisi);
                                                            vstd::arithmetic::div_mod::lemma_div_multiples_vanish(
                                                                n as int,
                                                                uisi,
                                                            );
                                                            vstd::arithmetic::mul::lemma_mul_is_commutative(
                                                                n as int,
                                                                uisi,
                                                            );
                                                            assert((moved.0@.len() as int) / uisi == n as int);
                                                            crate::tag::lemma_tags_in_range_bounded(
                                                                crate::tag::itags(up.tags@),
                                                                cur_g,
                                                                cur_g + n,
                                                            );
                                                            crate::tag::lemma_clip_tags_noop(
                                                                crate::tag::itags(moved.1@),
                                                                n as int,
                                                            );
                                                        }
                                                        if up.item_size == own.item_size {
                                                            if try_commit(&mut own, &moved.0, &moved.1, n) {
                                                                progressed = true;
                                                            }
                                                        }
                                                    },
                                                    WorkStatus::Pending => {
                                                    },
                                                }
                                                match up.poll(rdr) {
                                                    ReadSignal::Done => {
                                                        own.finish();
                                                        block.state = BlockState::Terminated;
                                                        block.deinit_done = true;
                                                        progressed = true;
                                                    },
                                                    _ => {},
                                                }
                                            }
                                            *own_slot = Some(own);
                                        },
                                        None => {
                                            block.state = BlockState::Error;
                                            progressed = true;
                                        },
                                    }
                                } else {
                                    block.state = BlockState::Error;
                                    progressed = true;
                                }
                                let up_back = &mut self.buffers[src];
                                *up_back = Some(up);
                            },
                            None => {
                                block.state = BlockState::Error;
                                progressed = true;
                            },
                        }
                    },
                    None => {
                        if terminating {
                            block.state = BlockState::Terminated;
                            block.deinit_done = true;
                            progressed = true;
                        }
                    },
                }
            },
            Kernel::VectorSink { collected, tags } => {
                match wire {
                    Some((src, rdr)) => {
                        let up_slot = &mut self.buffers[src];
                        let up_opt = up_slot.take();
                        match up_opt {
                            Some(mut up) => {
                                if rdr < up.cursors.len() {
                                    let avail = up.readable(rdr);
                                    let is = up.item_size;
                                    if avail > 0 {
                                        let base_items = collected.len() / is;
                                        let moved = up.consume(rdr, avail);
                                        append_bytes(collected, &moved.0);
                                        append_tags_shifted(tags, &moved.1, base_items);
                                        progressed = true;
                                    }
                                    match up.poll(rdr) {
                                        ReadSignal::Done => {
                                            block.state = BlockState::Terminated;
                                            block.deinit_done = true;
                                            progressed = true;
                                        },
                                        _ => {},
                                    }
                                } else {
                                    block.state = BlockState::Error;
                                    progressed = true;
                                }
                                let up_back = &mut self.buffers[src];
                                *up_back = Some(up);
                            },
                            None => {
                                block.state = BlockState::Error;
                                progressed = true;
                            },
                        }
                    },
                    None => {
                        if terminating {
                            block.state = BlockState::Terminated;
                            block.deinit_done = true;
                            progressed = true;
                        }
                    },
                }
            },
            Kernel::MessageEcho => {
                if terminating {
                    block.state = BlockState::Terminated;
                    block.deinit_done = true;
                    progressed = true;
                }
            },
        }
        let ghost before_ins = self.blocks@;
        self.blocks.insert(b, block);
        proof {
            assert(self.blocks@ =~= before_ins.insert(b as int, block));
        }
        if self.blocks[b].state == BlockState::Terminated {
            let slot = &mut self.buffers[b];
            let o = slot.take();
            match o {
                Some(mut bf) => {
                    bf.finish();
                    *slot = Some(bf);
                },
                None => {},
            }
        }
        progressed
    }

    /// Steps every block once, mailboxes first; reports whether any
    /// block made progress.
    pub fn step_all(&mut self) -> (progressed: bool)
        requires
            old(self).wf(),
        ensures
            final(self).wf(),
            final(self).blocks@.len() == old(self).blocks@.len(),
            final(self).terminating == old(self).terminating,
            final(self).wiring@ == old(self).wiring@,
            final(self).stream_edges == old(self).stream_edges,
            final(self).message_edges == old(self).message_edges,
            forall|i: int|
                0 <= i < old(self).blocks@.len() && (#[trigger] old(self).blocks@[i]).state
                    == BlockState::Terminated ==> final(self).blocks@[i] == old(self).blocks@[i],
            !progressed ==> final(self).blocks@ =~= old(self).blocks@ && final(self).mailboxes@
                =~= old(self).mailboxes@ && final(self).invocations@ == old(self).invocations@,
    {
        let mut progressed = false;
        let mut b: usize = 0;
        while b < self.blocks.len()
            invariant
                self.wf(),
                self.blocks@.len() == old(self).blocks@.len(),
                self.buffers@.len() == old(self).buffers@.len(),
                self.terminating == old(self).terminating,
                self.wiring@ == old(self).wiring@,
                self.stream_edges == old(self).stream_edges,
                self.message_edges == old(self).message_edges,
                0 <= b <= self.blocks@.len(),
                forall|i: int|
                    0 <= i < old(self).blocks@.len() && (#[trigger] old(self).blocks@[i]).state
                        == BlockState::Terminated ==> self.blocks@[i] == old(self).blocks@[i],
                !progressed ==> self.blocks@ =~= old(self).blocks@,
                !progressed ==> self.mailboxes@ =~= old(self).mailboxes@,
                !progressed ==> self.invocations@ == old(self).invocations@,
            decreases self.blocks@.len() - b,
        {
            if self.deliver_one(b) {
                progressed = true;
            }
            if self.step_block(b) {
                progressed = true;
            }
            b = b + 1;
        }
        progressed
    }

    /// Whether every block has terminated and run its deinit.
    pub fn finished(&self) -> (r: bool)
        ensures
            r == self.all_terminated(),
    {
        let mut b: usize = 0;
        while b < self.blocks.len()
            invariant
                0 <= b <= self.blocks@.len(),
                forall|i: int|
                    0 <= i < b ==> (#[trigger] self.blocks@[i]).state == BlockState::Terminated
                        && self.blocks@[i].deinit_done,
            decreases self.blocks@.len() - b,
        {
            let ok = self.blocks[b].state == BlockState::Terminated && self.blocks[b].deinit_done;
            if !ok {
                return false;
            }
            b = b + 1;
        }
        true
    }

    /// Drives the flowgraph for at most `fuel` rounds; reports whether
    /// every block terminated.
    pub fn run_rounds(&mut self, fuel: usize) -> (done: bool)
        requires
            old(self).wf(),
        ensures
            final(self).wf(),
            final(self).terminating == old(self).terminating,
            done == final(self).all_terminated(),
    {
        let mut round: usize = 0;
        while round < fuel
            invariant
                self.wf(),
                self.terminating == old(self).terminating,
                0 <= round <= fuel,
            decreases fuel - round,
        {
            if self.finished() {
                return true;
            }
            self.step_all();
            round = round + 1;
        }
        self.finished()
    }

    /// Requests termination and waits until every block has terminated
    /// and completed its deinit; returns only then with `Ok`.
    pub fn terminate_and_wait(&mut self, fuel: usize) -> (r: Result<(), Error>)
        requires
            old(self).wf(),
        ensures
            final(self).wf(),
            final(self).terminating,
            r is Ok <==> final(self).all_terminated(),
    {
        self.terminate();
        if self.run_rounds(fuel) {
            Ok(())
        } else {
            Err(Error::RuntimeError)
        }
    }
}

/// A copy of the `n * item_size` bytes of `data` starting at `pos`,
/// clipped to the data's end.
fn emit_from(data: &Vec<u8>, pos: usize, n: usize, item_size: usize) -> (r: Vec<u8>)
    requires
        item_size >= 1,
        pos <= data@.len(),
    ensures
        r@.len() <= n * item_size,
        pos + r@.len() <= data@.len(),
        r@ == data@.subrange(pos as int, pos + r@.len()),
        (pos <= data@.len() && n * item_size <= data@.len() - pos) ==> r@.len() == n
            * item_size,
    decreases n,
{
    let mut out: Vec<u8> = Vec::new();
    let dl = data.len();
    if n == 0 {
        proof {
            assert(n * item_size >= 0) by (nonlinear_arith)
                requires
                    n >= 0,
                    item_size >= 0,
            ;
            assert(out@ =~= data@.subrange(pos as int, pos as int));
        }
        return out;
    }
    proof {
        assert(n * item_size == (n - 1) * item_size + item_size) by (nonlinear_arith);
        assert((n - 1) * item_size >= 0) by (nonlinear_arith)
            requires
                n >= 1,
                item_size >= 0,
        ;
    }
    if dl - pos < item_size {
        proof {
            assert(out@ =~= data@.subrange(pos as int, pos as int));
        }
        return out;
    }
    let mut k: usize = 0;
    while k < item_size
        invariant
            0 <= k <= item_size,
            dl == data@.len(),
            pos + item_size <= dl,
            out@ =~= data@.subrange(pos as int, pos + k),
        decreases item_size - k,
    {
        out.push(data[pos + k]);
        proof {
            assert(data@.subrange(pos as int, pos + k + 1) =~= data@.subrange(
                pos as int,
                pos + k,
            ).push(data@[pos + k]));
        }
        k = k + 1;
    }
    let rest = emit_from(data, pos + item_size, n - 1, item_size);
    let mut combined = out;
    append_bytes(&mut combined, &rest);
    proof {
        assert(combined@ =~= data@.subrange(pos as int, pos + combined@.len()));
    }
    combined
}

/// Appends a byte vector.
fn append_bytes(dst: &mut Vec<u8>, src: &Vec<u8>)
    ensures
        final(dst)@ == old(dst)@ + src@,
{
    let mut k: usize = 0;
    proof {
        assert(old(dst)@ + src@.take(0) =~= old(dst)@);
    }
    while k < src.len()
        invariant
            0 <= k <= src@.len(),
            dst@ =~= old(dst)@ + src@.take(k as int),
        decreases src@.len() - k,
    {
        dst.push(src[k]);
        proof {
            assert(src@.take(k + 1) =~= src@.take(k as int).push(src@[k as int]));
        }
        k = k + 1;
    }
    proof {
        assert(src@.take(src@.len() as int) =~= src@);
        assert(dst@ =~= old(dst)@ + src@);
    }
}

/// Appends item tags with their offsets moved up by `base`, dropping
/// any whose shifted offset would not fit the machine word.
fn append_tags_shifted(dst: &mut Vec<ItemTag>, src: &Vec<ItemTag>, base: usize)
    ensures
        crate::tag::itags(final(dst)@) =~= crate::tag::itags(old(dst)@)
            + crate::tag::shift_clip_tags(crate::tag::itags(src@), base as int),
{
    let ghost start = dst@;
    let mut k: usize = 0;
    proof {
        assert(crate::tag::itags(src@.take(0)) =~= Seq::<ItemTagV>::empty());
        assert(crate::tag::shift_clip_tags(Seq::<ItemTagV>::empty(), base as int) =~= Seq::<
            ItemTagV,
        >::empty());
        assert(crate::tag::itags(dst@) =~= crate::tag::itags(start)
            + crate::tag::shift_clip_tags(crate::tag::itags(src@.take(0)), base as int));
    }
    while k < src.len()
        invariant
            0 <= k <= src@.len(),
            crate::tag::itags(dst@) =~= crate::tag::itags(start) + crate::tag::shift_clip_tags(
                crate::tag::itags(src@.take(k as int)),
                base as int,
            ),
        decreases src@.len() - k,
    {
        let ghost pre = dst@;
        let t = &src[k];
        if t.index <= usize::MAX - base {
            let moved = ItemTag {
                index: base + t.index,
                tag: crate::tag::clone_tag(&t.tag),
            };
            dst.push(moved);
            proof {
                assert(crate::tag::itags(dst@) =~= crate::tag::itags(pre).push(
                    ItemTagV {
                        index: (src@[k as int].index + base) as usize,
                        tag: crate::tag::itemtagv(src@[k as int]).tag,
                    },
                ));
            }
        }
        proof {
            assert(crate::tag::itags(src@.take(k + 1)) =~= crate::tag::itags(
                src@.take(k as int),
            ).push(crate::tag::itemtagv(src@[k as int])));
            crate::tag::lemma_shift_clip_tags_snoc(
                crate::tag::itags(src@.take(k as int)),
                crate::tag::itemtagv(src@[k as int]),
                base as int,
            );
        }
        k = k + 1;
    }
    proof {
        assert(src@.take(src@.len() as int) =~= src@);
    }
}

/// Whether a buffer accepts a commit of `nbytes` bytes: open, whole
/// items, within the free space, and within address range.
pub open spec fn commit_accepts(buf: StreamBuffer, nbytes: int) -> bool {
    &&& !buf.done
    &&& nbytes % (buf.item_size as int) == 0
    &&& nbytes <= buf.spec_space()
    &&& buf.store@.len() + nbytes <= usize::MAX
}

/// Commits `data` with its tags when the buffer accepts it; tags at
/// offsets beyond the committed items are dropped. Reports exactly
/// whether the commit happened.
fn try_commit(buf: &mut StreamBuffer, data: &Vec<u8>, tags: &Vec<ItemTag>, n_items: usize) -> (ok:
    bool)
    requires
        old(buf).wf(),
    ensures
        final(buf).wf(),
        ok == commit_accepts(*old(buf), data@.len() as int),
        final(buf).item_size == old(buf).item_size,
        final(buf).capacity == old(buf).capacity,
        final(buf).cursors@ == old(buf).cursors@,
        final(buf).logs@ == old(buf).logs@,
        ok ==> {
            &&& final(buf).committed_bytes() == old(buf).committed_bytes() + data@
            &&& final(buf).items == old(buf).items + (data@.len() as int) / (old(
                buf,
            ).item_size as int)
            &&& final(buf).done == old(buf).done
            &&& crate::tag::itags(final(buf).tags@) =~= crate::tag::itags(old(buf).tags@)
                + crate::buffer::shift_tags(
                crate::tag::clip_tags(
                    crate::tag::itags(tags@),
                    (data@.len() as int) / (old(buf).item_size as int),
                ),
                old(buf).items as int,
            )
        },
        !ok ==> *final(buf) == *old(buf),
{
    if buf.done {
        return false;
    }
    let is = buf.item_size;
    if data.len() % is != 0 {
        return false;
    }
    let space = buf.space();
    if data.len() > space {
        return false;
    }
    if buf.store.len() > usize::MAX - data.len() {
        return false;
    }
    let d_items = data.len() / is;
    let mut clipped: Vec<ItemTag> = Vec::new();
    let mut k: usize = 0;
    proof {
        assert(crate::tag::itags(tags@.take(0)) =~= Seq::<ItemTagV>::empty());
        assert(crate::tag::clip_tags(Seq::<ItemTagV>::empty(), d_items as int) =~= Seq::<
            ItemTagV,
        >::empty());
        assert(crate::tag::itags(clipped@) =~= crate::tag::clip_tags(
            crate::tag::itags(tags@.take(0)),
            d_items as int,
        ));
    }
    while k < tags.len()
        invariant
            0 <= k <= tags@.len(),
            d_items as int == data@.len() as int / (is as int),
            crate::tag::itags(clipped@) =~= crate::tag::clip_tags(
                crate::tag::itags(tags@.take(k as int)),
                d_items as int,
            ),
            forall|i: int|
                0 <= i < clipped@.len() ==> ((#[trigger] clipped@[i]).index as int)
                    < (data@.len() as int) / (is as int),
            is == old(buf).item_size,
            is >= 1,
            data@.len() as int % is as int == 0,
        decreases tags@.len() - k,
    {
        let ghost pre = clipped@;
        let t = &tags[k];
        if t.index < d_items {
            clipped.push(ItemTag { index: t.index, tag: crate::tag::clone_tag(&t.tag) });
            proof {
                assert(crate::tag::itags(clipped@) =~= crate::tag::itags(pre).push(
                    crate::tag::itemtagv(tags@[k as int]),
                ));
            }
        }
        proof {
            assert(crate::tag::itags(tags@.take(k + 1)) =~= crate::tag::itags(
                tags@.take(k as int),
            ).push(crate::tag::itemtagv(tags@[k as int])));
            crate::tag::lemma_clip_tags_snoc(
                crate::tag::itags(tags@.take(k as int)),
                crate::tag::itemtagv(tags@[k as int]),
                d_items as int,
            );
        }
        k = k + 1;
    }
    proof {
        assert(tags@.take(tags@.len() as int) =~= tags@);
    }
    buf.commit(data, &clipped);
    proof {
        assert(crate::buffer::shift_tags(crate::tag::itags(clipped@), old(buf).items as int)
            =~= crate::buffer::shift_tags(
            crate::tag::clip_tags(crate::tag::itags(tags@), d_items as int),
            old(buf).items as int,
        ));
    }
    true
}

} // verus!
