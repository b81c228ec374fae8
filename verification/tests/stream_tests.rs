use futuresdr::buffer::StreamBuffer;
use futuresdr::buffer::ReadSignal;
use futuresdr::runtime::work_amount;
use futuresdr::runtime::WorkStatus;
use futuresdr::tag::ItemTag;
use futuresdr::tag::Tag;
use futuresdr::tag::default_tag_propagation;
use futuresdr::tag::StreamInput;
use futuresdr::tag::StreamOutput;

#[test]
fn commit_then_consume_returns_the_bytes_in_order() {
    let mut b = StreamBuffer::new(1, 8, 1);
    b.commit(&vec![10, 11, 12], &Vec::new());
    b.commit(&vec![13], &Vec::new());
    let (bytes, _tags) = b.consume(0, 4);
    assert_eq!(bytes, vec![10, 11, 12, 13]);
    assert_eq!(b.readable(0), 0);
}

#[test]
fn capacity_bounds_outstanding_bytes() {
    let mut b = StreamBuffer::new(2, 3, 1);
    assert_eq!(b.space(), 6);
    b.commit(&vec![0, 1, 2, 3], &Vec::new());
    assert_eq!(b.space(), 2);
    let _ = b.consume(0, 1);
    assert_eq!(b.space(), 4);
}

#[test]
fn slow_reader_backpressures_the_writer() {
    let mut b = StreamBuffer::new(1, 4, 2);
    b.commit(&vec![1, 2, 3, 4], &Vec::new());
    assert_eq!(b.space(), 0);
    // the fast reader drains everything, the slow one nothing
    let _ = b.consume(0, 4);
    // free space still follows the slow reader
    assert_eq!(b.space(), 0);
    let _ = b.consume(1, 3);
    assert_eq!(b.space(), 3);
}

#[test]
fn finish_is_idempotent() {
    let mut b = StreamBuffer::new(1, 4, 1);
    b.commit(&vec![9], &Vec::new());
    b.finish();
    let done_once = b.done;
    let items_once = b.items;
    b.finish();
    assert!(done_once && b.done);
    assert_eq!(items_once, b.items);
    // remaining bytes are still delivered, then Done
    assert_eq!(b.poll(0), ReadSignal::Data(1));
    let (bytes, _) = b.consume(0, 1);
    assert_eq!(bytes, vec![9]);
    assert_eq!(b.poll(0), ReadSignal::Done);
}

#[test]
fn pending_before_any_commit() {
    let b = StreamBuffer::new(4, 4, 1);
    assert_eq!(b.poll(0), ReadSignal::Pending);
}

#[test]
fn single_item_buffer_still_delivers() {
    let mut b = StreamBuffer::new(4, 1, 1);
    assert_eq!(b.space(), 4);
    b.commit(&vec![1, 2, 3, 4], &Vec::new());
    assert_eq!(b.space(), 0);
    let (bytes, _) = b.consume(0, 1);
    assert_eq!(bytes, vec![1, 2, 3, 4]);
    assert_eq!(b.space(), 4);
}

#[test]
fn zero_space_work_is_pending() {
    assert_eq!(work_amount(5, 0), WorkStatus::Pending);
    assert_eq!(work_amount(0, 5), WorkStatus::Pending);
    assert_eq!(work_amount(3, 5), WorkStatus::Did(3));
    assert_eq!(work_amount(5, 3), WorkStatus::Did(3));
}

#[test]
fn tags_travel_with_their_items() {
    let mut b = StreamBuffer::new(1, 8, 1);
    let tags = vec![ItemTag { index: 2, tag: Tag::Id(42) }];
    b.commit(&vec![5, 6, 7, 8], &tags);
    // consume the first two items: the tag at offset 2 is not in range
    let (_, t1) = b.consume(0, 2);
    assert!(t1.is_empty());
    // the next two items carry the tag, rebased to the slice start
    let (_, t2) = b.consume(0, 2);
    assert_eq!(t2.len(), 1);
    assert_eq!(t2[0].index, 0);
    assert!(matches!(t2[0].tag, Tag::Id(42)));
}

#[test]
fn fan_out_readers_see_the_same_bytes() {
    let mut b = StreamBuffer::new(1, 8, 2);
    b.commit(&vec![1, 2, 3], &Vec::new());
    let (r0, _) = b.consume(0, 3);
    let (r1, _) = b.consume(1, 3);
    assert_eq!(r0, vec![1, 2, 3]);
    assert_eq!(r1, vec![1, 2, 3]);
}

#[test]
fn default_tag_propagation_copies_positionally() {
    let inputs = vec![StreamInput {
        consumed: 4,
        tags: vec![
            ItemTag { index: 1, tag: Tag::Id(7) },
            ItemTag { index: 3, tag: Tag::Id(9) },
        ],
        done: false,
    }];
    let mut outputs = vec![
        StreamOutput { produced: 2, tags: Vec::new() },
        StreamOutput { produced: 4, tags: Vec::new() },
    ];
    default_tag_propagation(&inputs, &mut outputs);
    // the first output produced 2 of 4 consumed: offsets floor-map 2:1
    assert_eq!(outputs[0].tags.len(), 2);
    assert_eq!(outputs[0].tags[0].index, 0);
    assert_eq!(outputs[0].tags[1].index, 1);
    // the second produced 4 of 4: the identity mapping
    assert_eq!(outputs[1].tags.len(), 2);
    assert_eq!(outputs[1].tags[0].index, 1);
    assert_eq!(outputs[1].tags[1].index, 3);
    assert!(matches!(outputs[1].tags[1].tag, Tag::Id(9)));
}
