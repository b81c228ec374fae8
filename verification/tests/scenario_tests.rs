use futuresdr::PortId;
use futuresdr::flowgraph::Flowgraph;
use futuresdr::pmt::Pmt;
use futuresdr::runtime::Runtime;
use futuresdr::topology::Block;
use futuresdr::topology::BlockState;
use futuresdr::topology::Kernel;
use futuresdr::tag::ItemTag;
use futuresdr::tag::Tag;
use futuresdr::flowgraph::DefaultBuffer;
use futuresdr::runtime::Mailbox;

fn f32_bytes(samples: &[f32]) -> Vec<u8> {
    let mut out = Vec::new();
    for s in samples {
        out.extend_from_slice(&s.to_le_bytes());
    }
    out
}

fn u32_bytes(samples: &[u32]) -> Vec<u8> {
    let mut out = Vec::new();
    for s in samples {
        out.extend_from_slice(&s.to_le_bytes());
    }
    out
}

fn sink_contents(rt: &Runtime, id: usize) -> Vec<u8> {
    match &rt.blocks[id].kernel {
        Kernel::VectorSink { collected, .. } => collected.clone(),
        _ => panic!("not a sink"),
    }
}

fn sink_tags(rt: &Runtime, id: usize) -> Vec<(usize, u64)> {
    match &rt.blocks[id].kernel {
        Kernel::VectorSink { tags, .. } => tags
            .iter()
            .filter_map(|t: &ItemTag| match t.tag {
                Tag::Id(v) => Some((t.index, v)),
                _ => None,
            })
            .collect(),
        _ => panic!("not a sink"),
    }
}

#[test]
fn passthrough_delivers_the_samples() {
    // samples flow source -> passthrough -> sink unchanged
    let data = f32_bytes(&[1.0, 2.0, 3.0, 4.0]);
    let mut fg = Flowgraph::new();
    let src = fg.add_block(Block::vector_source(4, data.clone(), Vec::new())).unwrap();
    let mid = fg.add_block(Block::passthrough(4)).unwrap();
    let snk = fg.add_block(Block::vector_sink(4)).unwrap();
    fg.connect_stream(src, PortId::Index(0), mid, PortId::Index(0)).unwrap();
    fg.connect_stream(mid, PortId::Index(0), snk, PortId::Index(0)).unwrap();
    let mut rt = Runtime::from_topology(fg.topology.take().unwrap()).unwrap();
    rt.start();
    assert!(rt.run_rounds(100));
    assert_eq!(sink_contents(&rt, snk), data);
    for b in &rt.blocks {
        assert_eq!(b.state, BlockState::Terminated);
    }
}

#[test]
fn fan_out_feeds_both_sinks() {
    let data = u32_bytes(&[1, 2, 3]);
    let mut fg = Flowgraph::new();
    let src = fg.add_block(Block::vector_source(4, data.clone(), Vec::new())).unwrap();
    let s1 = fg.add_block(Block::vector_sink(4)).unwrap();
    let s2 = fg.add_block(Block::vector_sink(4)).unwrap();
    fg.connect_stream(src, PortId::Index(0), s1, PortId::Index(0)).unwrap();
    fg.connect_stream(src, PortId::Index(0), s2, PortId::Index(0)).unwrap();
    let mut rt = Runtime::from_topology(fg.topology.take().unwrap()).unwrap();
    rt.start();
    assert!(rt.run_rounds(100));
    assert_eq!(sink_contents(&rt, s1), data);
    assert_eq!(sink_contents(&rt, s2), data);
}

#[test]
fn tag_propagates_through_passthrough() {
    // ten one-byte items; a tag Id(42) rides on item 4
    let data: Vec<u8> = (0u8..10).collect();
    let tags = vec![ItemTag { index: 4, tag: Tag::Id(42) }];
    let mut fg = Flowgraph::new();
    let src = fg.add_block(Block::vector_source(1, data.clone(), tags)).unwrap();
    let mid = fg.add_block(Block::passthrough(1)).unwrap();
    let snk = fg.add_block(Block::vector_sink(1)).unwrap();
    fg.connect_stream(src, PortId::Index(0), mid, PortId::Index(0)).unwrap();
    fg.connect_stream(mid, PortId::Index(0), snk, PortId::Index(0)).unwrap();
    let mut rt = Runtime::from_topology(fg.topology.take().unwrap()).unwrap();
    rt.start();
    assert!(rt.run_rounds(100));
    assert_eq!(sink_contents(&rt, snk), data);
    assert_eq!(sink_tags(&rt, snk), vec![(4, 42)]);
}

#[test]
fn echo_callback_returns_the_argument() {
    let mut fg = Flowgraph::new();
    let blk = fg.add_block(Block::message_echo()).unwrap();
    let mut rt = Runtime::from_topology(fg.topology.take().unwrap()).unwrap();
    rt.start();
    let r = rt.callback(blk, PortId::Name(String::from("echo")), Pmt::Str(String::from("hi")));
    assert_eq!(r, Ok(Pmt::Str(String::from("hi"))));
}

#[test]
fn callback_errors_on_bad_targets() {
    let mut fg = Flowgraph::new();
    let blk = fg.add_block(Block::message_echo()).unwrap();
    let mut rt = Runtime::from_topology(fg.topology.take().unwrap()).unwrap();
    rt.start();
    assert_eq!(
        rt.callback(9, PortId::Index(0), Pmt::Null),
        Err(futuresdr::Error::InvalidBlock(9))
    );
    assert_eq!(
        rt.callback(blk, PortId::Name(String::from("nope")), Pmt::Null),
        Err(futuresdr::Error::InvalidPort(blk, PortId::Name(String::from("nope"))))
    );
}

#[test]
fn termination_leaves_a_prefix_in_the_sink() {
    let samples: Vec<u32> = (0u32..1000).collect();
    let data = u32_bytes(&samples);
    let mut fg = Flowgraph::new();
    let src = fg.add_block(Block::vector_source(4, data.clone(), Vec::new())).unwrap();
    let snk = fg.add_block(Block::vector_sink(4)).unwrap();
    fg.connect_stream(src, PortId::Index(0), snk, PortId::Index(0)).unwrap();
    let mut rt = Runtime::from_topology(fg.topology.take().unwrap()).unwrap();
    rt.start();
    // let roughly half the stream through, then terminate
    rt.step_block(src);
    rt.step_block(snk);
    assert!(rt.terminate_and_wait(100).is_ok());
    let got = sink_contents(&rt, snk);
    assert!(got.len() % 4 == 0);
    assert!(got.len() <= data.len());
    assert_eq!(&data[..got.len()], &got[..]);
    for b in &rt.blocks {
        assert_eq!(b.state, BlockState::Terminated);
        assert!(b.deinit_done);
    }
}

#[test]
fn terminate_is_idempotent() {
    let mut fg = Flowgraph::new();
    let _ = fg.add_block(Block::message_echo()).unwrap();
    let mut rt = Runtime::from_topology(fg.topology.take().unwrap()).unwrap();
    rt.start();
    rt.terminate();
    let was = rt.terminating;
    rt.terminate();
    assert!(was && rt.terminating);
    assert!(rt.run_rounds(10));
}

#[test]
fn terminate_and_wait_completes_deinit() {
    let mut fg = Flowgraph::new();
    let src = fg.add_block(Block::vector_source(1, vec![1, 2, 3], Vec::new())).unwrap();
    let snk = fg.add_block(Block::vector_sink(1)).unwrap();
    fg.connect_stream(src, PortId::Index(0), snk, PortId::Index(0)).unwrap();
    let mut rt = Runtime::from_topology(fg.topology.take().unwrap()).unwrap();
    rt.start();
    assert!(rt.terminate_and_wait(100).is_ok());
    for b in &rt.blocks {
        assert_eq!(b.state, BlockState::Terminated);
        assert!(b.deinit_done);
    }
}

#[test]
fn single_item_buffer_pipeline() {
    let data: Vec<u8> = vec![7, 8, 9];
    let mut fg = Flowgraph::new();
    let src = fg.add_block(Block::vector_source(1, data.clone(), Vec::new())).unwrap();
    let snk = fg.add_block(Block::vector_sink(1)).unwrap();
    fg.connect_stream_with_type(
        src,
        PortId::Index(0),
        snk,
        PortId::Index(0),
        DefaultBuffer::with_capacity(1),
    )
    .unwrap();
    let mut rt = Runtime::from_topology(fg.topology.take().unwrap()).unwrap();
    rt.start();
    assert!(rt.run_rounds(100));
    assert_eq!(sink_contents(&rt, snk), data);
}

#[test]
fn mailbox_preserves_send_order() {
    let mut m = Mailbox::new();
    m.send(Pmt::U32(1));
    m.send(Pmt::U32(2));
    m.send(Pmt::U32(3));
    assert_eq!(m.next(), Some(Pmt::U32(1)));
    assert_eq!(m.next(), Some(Pmt::U32(2)));
    assert_eq!(m.next(), Some(Pmt::U32(3)));
    assert_eq!(m.next(), None);
}

#[test]
fn call_queues_and_deliver_drains() {
    let mut fg = Flowgraph::new();
    let blk = fg.add_block(Block::message_echo()).unwrap();
    let mut rt = Runtime::from_topology(fg.topology.take().unwrap()).unwrap();
    rt.start();
    assert!(rt.call(blk, PortId::Index(0), Pmt::U32(5)).is_ok());
    assert!(rt.deliver_one(blk));
    assert!(!rt.deliver_one(blk));
}

#[test]
fn descriptions_reflect_the_graph() {
    let mut fg = Flowgraph::new();
    let src = fg.add_block(Block::vector_source(1, vec![1], Vec::new())).unwrap();
    let snk = fg.add_block(Block::vector_sink(1)).unwrap();
    fg.connect_stream(src, PortId::Index(0), snk, PortId::Index(0)).unwrap();
    let rt = Runtime::from_topology(fg.topology.take().unwrap()).unwrap();
    let d = rt.description();
    assert_eq!(d.blocks.len(), 2);
    assert_eq!(d.blocks[0].id, 0);
    assert_eq!(d.blocks[0].type_label, "VectorSource");
    assert_eq!(d.stream_edges.len(), 1);
    let bd = rt.block_description(snk).unwrap();
    assert_eq!(bd.type_label, "VectorSink");
    assert!(rt.block_description(42).is_err());
}
