use futuresdr::Error;
use futuresdr::ConnectReason;
use futuresdr::PortId;
use futuresdr::flowgraph::Flowgraph;
use futuresdr::flowgraph::DefaultBuffer;
use futuresdr::topology::Block;
use futuresdr::topology::Kernel;

#[test]
fn add_block_assigns_dense_ids() {
    let mut fg = Flowgraph::new();
    let a = fg.add_block(Block::vector_source(4, vec![0, 0, 0, 0], Vec::new())).unwrap();
    let b = fg.add_block(Block::vector_sink(4)).unwrap();
    assert_eq!(a, 0);
    assert_eq!(b, 1);
}

#[test]
fn connect_stream_accepts_matching_ports() {
    let mut fg = Flowgraph::new();
    let s = fg.add_block(Block::vector_source(4, vec![1, 2, 3, 4], Vec::new())).unwrap();
    let k = fg.add_block(Block::vector_sink(4)).unwrap();
    assert!(fg.connect_stream(s, PortId::Index(0), k, PortId::Index(0)).is_ok());
}

#[test]
fn connect_stream_resolves_port_names() {
    let mut fg = Flowgraph::new();
    let s = fg.add_block(Block::vector_source(4, vec![1, 2, 3, 4], Vec::new())).unwrap();
    let k = fg.add_block(Block::vector_sink(4)).unwrap();
    let r = fg.connect_stream(
        s,
        PortId::Name(String::from("out")),
        k,
        PortId::Name(String::from("in")),
    );
    assert!(r.is_ok());
}

#[test]
fn item_size_mismatch_is_a_connect_error() {
    let mut fg = Flowgraph::new();
    let s = fg.add_block(Block::vector_source(4, vec![0, 0, 0, 0], Vec::new())).unwrap();
    let k = fg.add_block(Block::vector_sink(8)).unwrap();
    let r = fg.connect_stream(s, PortId::Index(0), k, PortId::Index(0));
    assert_eq!(r, Err(Error::ConnectError(ConnectReason::ItemSizeMismatch)));
}

#[test]
fn duplicate_input_is_rejected() {
    let mut fg = Flowgraph::new();
    let s1 = fg.add_block(Block::vector_source(4, vec![0, 0, 0, 0], Vec::new())).unwrap();
    let s2 = fg.add_block(Block::vector_source(4, vec![0, 0, 0, 0], Vec::new())).unwrap();
    let k = fg.add_block(Block::vector_sink(4)).unwrap();
    assert!(fg.connect_stream(s1, PortId::Index(0), k, PortId::Index(0)).is_ok());
    let r = fg.connect_stream(s2, PortId::Index(0), k, PortId::Index(0));
    assert_eq!(r, Err(Error::ConnectError(ConnectReason::DuplicateInput)));
}

#[test]
fn unknown_block_and_port_errors() {
    let mut fg = Flowgraph::new();
    let s = fg.add_block(Block::vector_source(4, vec![0, 0, 0, 0], Vec::new())).unwrap();
    let r = fg.connect_stream(s, PortId::Index(0), 7, PortId::Index(0));
    assert_eq!(r, Err(Error::InvalidBlock(7)));
    let k = fg.add_block(Block::vector_sink(4)).unwrap();
    let r2 = fg.connect_stream(s, PortId::Index(3), k, PortId::Index(0));
    assert_eq!(r2, Err(Error::InvalidPort(s, PortId::Index(3))));
    let r3 = fg.connect_stream(s, PortId::Index(0), k, PortId::Name(String::from("zzz")));
    assert_eq!(r3, Err(Error::InvalidPort(k, PortId::Name(String::from("zzz")))));
}

#[test]
fn connect_message_and_duplicate_edge() {
    let mut fg = Flowgraph::new();
    let mut echo_src = Block::message_echo();
    echo_src.message_outputs.push(String::from("out"));
    let a = fg.add_block(echo_src).unwrap();
    let b = fg.add_block(Block::message_echo()).unwrap();
    assert!(fg.connect_message(a, PortId::Index(0), b, PortId::Name(String::from("echo"))).is_ok());
    let r = fg.connect_message(a, PortId::Index(0), b, PortId::Index(0));
    assert_eq!(r, Err(Error::ConnectError(ConnectReason::DuplicateEdge)));
}

#[test]
fn kernel_accessors() {
    let mut fg = Flowgraph::new();
    let id = fg.add_block(Block::passthrough(4)).unwrap();
    assert!(matches!(fg.kernel(id), Some(Kernel::Passthrough)));
    assert!(matches!(fg.kernel_mut(id), Some(Kernel::Passthrough)));
    assert!(fg.kernel(99).is_none());
    assert!(fg.kernel_mut(99).is_none());
}

#[test]
fn default_buffer_capacity() {
    let d = DefaultBuffer::new();
    assert_eq!(d.capacity_items, futuresdr::flowgraph::DEFAULT_CAPACITY_ITEMS);
    let c = DefaultBuffer::with_capacity(2);
    assert_eq!(c.capacity_items, 2);
}
