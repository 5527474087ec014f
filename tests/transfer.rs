use canadensis::filter::{optimize, Filter};
use canadensis::frame::{frame_from_parts, CanFrame, CanId, InvalidFrameFormat, TailByte};
use canadensis::link::{
    accept_bxcan_frame, bxcan_frame_to_uavcan, next_frame_to_send, record_transmission,
    uavcan_frame_to_bxcan, DeadlineTracker,
};
use canadensis::node::{heartbeat_payload, Node};
use canadensis::publisher::Publisher;
use canadensis::queue::{FrameQueue, OutOfMemoryError};
use canadensis::requester::{send_response, Requester};
use canadensis::rx::{Port, PortKind, Receiver, Slot, Subscription};
use canadensis::time::{Microseconds48, MicrosecondsDuration48, U48};
use canadensis::tx::{split_transfer, Transmitter};

fn at(micros: u64) -> Microseconds48 {
    Microseconds48::new(U48::try_from(micros).unwrap())
}

fn duration(micros: u64) -> MicrosecondsDuration48 {
    MicrosecondsDuration48::new(U48::try_from(micros).unwrap())
}

fn msg(subject: u16) -> Port {
    Port { kind: PortKind::Message, id: subject }
}

fn s1_id() -> CanId {
    CanId::message(4, 1234, 42)
}

fn s2_frames() -> Vec<CanFrame> {
    let payload: Vec<u8> = (0u8..10).collect();
    split_transfer(&payload, 8, s1_id(), 7, at(1000))
}

fn arrived(frame: &CanFrame, micros: u64) -> CanFrame {
    CanFrame::new(at(micros), frame.id, &frame.data)
}

#[test]
fn message_id_fields() {
    let id = s1_id();
    assert_eq!(id.priority(), 4);
    assert_eq!(id.subject(), 1234);
    assert_eq!(id.source(), 42);
    assert!(!id.is_service());
    assert!(!id.flag24());
    assert_eq!(id.as_u32(), (4 << 26) | (3 << 21) | (1234 << 8) | 42);
    let anon = CanId::anonymous_message(2, 7, 99);
    assert!(anon.flag24());
    assert_eq!(anon.source(), 99);
    let svc = CanId::service(3, 430, true, 10, 20);
    assert!(svc.is_service());
    assert!(svc.flag24());
    assert_eq!(svc.service_id(), 430);
    assert_eq!(svc.destination(), 10);
    assert_eq!(svc.source(), 20);
}

#[test]
fn can_id_rejects_nonconforming() {
    assert_eq!(CanId::try_from(0x2000_0000), Err(InvalidFrameFormat));
    assert_eq!(CanId::try_from(0x0080_0000), Err(InvalidFrameFormat));
    assert_eq!(CanId::try_from(0x0000_0080), Err(InvalidFrameFormat));
    assert!(CanId::try_from(0x0200_0080).is_ok());
    assert_eq!(CanId::try_from(0x1000_0000).unwrap().as_u32(), 0x1000_0000);
}

#[test]
fn tail_byte_round_trip() {
    let t = TailByte { start: true, end: false, toggle: true, transfer_id: 7 };
    assert_eq!(t.encode(), 0b1010_0111);
    assert_eq!(TailByte::decode(0b0110_0111), TailByte { start: false, end: true, toggle: true, transfer_id: 7 });
}

#[test]
fn single_frame_message() {
    let frames = split_transfer(&[0xDE, 0xAD, 0xBE, 0xEF], 8, s1_id(), 7, at(5));
    assert_eq!(frames.len(), 1);
    assert_eq!(frames[0].id, s1_id());
    assert_eq!(frames[0].data, vec![0xDE, 0xAD, 0xBE, 0xEF, 0b1110_0111]);
    assert_eq!(frames[0].timestamp, at(5));
}

#[test]
fn multi_frame_message() {
    let frames = s2_frames();
    assert_eq!(frames.len(), 2);
    assert_eq!(frames[0].data, vec![0, 1, 2, 3, 4, 5, 6, 0b1010_0111]);
    // CRC-16/CCITT-FALSE of 0..=9 is 0xC241, appended least significant byte first; the
    // second frame has its toggle bit clear
    assert_eq!(frames[1].data, vec![7, 8, 9, 0x41, 0xC2, 0b0100_0111]);
    assert_eq!(frames[0].id, frames[1].id);
    assert_eq!(frames[0].timestamp, frames[1].timestamp);
}

#[test]
fn multi_frame_toggle_alternates() {
    let payload: Vec<u8> = (0u8..20).collect();
    let frames = split_transfer(&payload, 8, s1_id(), 3, at(0));
    // 22 bytes with the CRC, 7 in each frame
    assert_eq!(frames.len(), 4);
    let tails: Vec<u8> = frames.iter().map(|f| *f.data.last().unwrap()).collect();
    assert_eq!(tails, vec![0b1010_0011, 0b0000_0011, 0b0010_0011, 0b0100_0011]);
    assert_eq!(frames[3].data.len(), 2);
}

#[test]
fn reassembly_round_trip() {
    let frames = s2_frames();
    let mut sub = Subscription::new(msg(1234), 64, duration(1_000_000));
    assert!(sub.accept(&arrived(&frames[0], 100)).is_none());
    let transfer = sub.accept(&arrived(&frames[1], 200)).unwrap();
    assert_eq!(transfer.payload, (0u8..10).collect::<Vec<u8>>());
    assert_eq!(transfer.source, Some(42));
    assert_eq!(transfer.transfer_id, 7);
    assert_eq!(transfer.timestamp, at(100));
    assert_eq!(transfer.port, msg(1234));
    assert_eq!(transfer.priority, 4);
}

#[test]
fn duplicate_suppression() {
    let frames = s2_frames();
    let mut sub = Subscription::new(msg(1234), 64, duration(1_000_000));
    assert!(sub.accept(&arrived(&frames[0], 100)).is_none());
    assert!(sub.accept(&arrived(&frames[1], 200)).is_some());
    assert!(sub.accept(&arrived(&frames[0], 300)).is_none());
    assert!(sub.accept(&arrived(&frames[1], 400)).is_none());
    // After the timeout the same transfer id is accepted again
    assert!(sub.accept(&arrived(&frames[0], 2_000_000)).is_none());
    assert!(sub.accept(&arrived(&frames[1], 2_000_100)).is_some());
}

#[test]
fn session_timeout() {
    let frames = s2_frames();
    let mut sub = Subscription::new(msg(1234), 64, duration(1000));
    assert!(sub.accept(&arrived(&frames[0], 100)).is_none());
    assert!(sub.accept(&arrived(&frames[1], 5000)).is_none());
}

#[test]
fn corrupted_crc_is_dropped() {
    let frames = s2_frames();
    let mut bad = arrived(&frames[1], 200);
    bad.data[3] ^= 1;
    let mut sub = Subscription::new(msg(1234), 64, duration(1_000_000));
    assert!(sub.accept(&arrived(&frames[0], 100)).is_none());
    assert!(sub.accept(&bad).is_none());
}

#[test]
fn oversized_transfer_is_dropped() {
    let frames = s2_frames();
    let mut sub = Subscription::new(msg(1234), 4, duration(1_000_000));
    assert!(sub.accept(&arrived(&frames[0], 100)).is_none());
    assert!(sub.accept(&arrived(&frames[1], 200)).is_none());
}

#[test]
fn orphan_continuation_is_dropped() {
    let frames = s2_frames();
    let mut slot = Slot::new();
    assert!(slot.accept(&frames[1].data, at(0), duration(1000), 64).is_none());
    assert!(slot.session.is_none());
}

#[test]
fn anonymous_single_frame() {
    let id = CanId::anonymous_message(4, 1234, 5);
    let frames = split_transfer(&[1, 2, 3], 8, id, 9, at(0));
    let mut sub = Subscription::new(msg(1234), 64, duration(1000));
    let t = sub.accept(&arrived(&frames[0], 10)).unwrap();
    assert_eq!(t.source, None);
    assert_eq!(t.payload, vec![1, 2, 3]);
    assert_eq!(t.transfer_id, 9);
}

fn frame_with_id(id: u32, tag: u8) -> CanFrame {
    CanFrame::new(at(0), CanId::try_from(id).unwrap(), &[tag])
}

#[test]
fn queue_priority_order() {
    let mut q = FrameQueue::new(4);
    q.push(frame_with_id(0x1000_0000, 1)).unwrap();
    q.push(frame_with_id(0x0800_0000, 2)).unwrap();
    assert_eq!(q.peek_priority().unwrap().as_u32(), 0x0800_0000);
    assert_eq!(q.pop_frame().unwrap().id.as_u32(), 0x0800_0000);
    assert_eq!(q.pop_frame().unwrap().id.as_u32(), 0x1000_0000);
    assert!(q.pop_frame().is_none());
}

#[test]
fn queue_fifo_among_equal_ids() {
    let mut q = FrameQueue::new(4);
    q.push(frame_with_id(0x100, 1)).unwrap();
    q.push(frame_with_id(0x100, 2)).unwrap();
    assert_eq!(q.pop_frame().unwrap().data, vec![1]);
    let second = q.pop_frame().unwrap();
    assert_eq!(second.data, vec![2]);
    // A returned frame goes back ahead of equal ones
    q.push(frame_with_id(0x100, 3)).unwrap();
    q.return_frame(second).unwrap();
    assert_eq!(q.pop_frame().unwrap().data, vec![2]);
}

#[test]
fn queue_capacity() {
    let mut q = FrameQueue::new(1);
    q.push(frame_with_id(0x100, 1)).unwrap();
    assert_eq!(q.push(frame_with_id(0x100, 2)), Err(OutOfMemoryError));
    assert_eq!(q.return_frame(frame_with_id(0x100, 3)), Err(OutOfMemoryError));
    assert_eq!(q.len(), 1);
}

#[test]
fn transmitter_is_all_or_nothing() {
    let mut tx = Transmitter::new(8, 1);
    let payload: Vec<u8> = (0u8..10).collect();
    assert_eq!(tx.push(at(0), s1_id(), 7, &payload), Err(OutOfMemoryError));
    assert_eq!(tx.frame_queue().len(), 0);
    assert_eq!(tx.push(at(0), s1_id(), 7, &[1]), Ok(()));
    assert_eq!(tx.frame_queue().len(), 1);
}

#[test]
fn publisher_counts_transfer_ids() {
    let mut publisher = Publisher::new(42, duration(500), 4);
    let mut tx = Transmitter::new(8, 8);
    assert_eq!(publisher.next_transfer_id(), 0);
    publisher.publish(at(1000), 1234, &[0xDE, 0xAD, 0xBE, 0xEF], &mut tx).unwrap();
    assert_eq!(publisher.next_transfer_id(), 1);
    let frame = tx.frame_queue_mut().pop_frame().unwrap();
    assert_eq!(frame.id, s1_id());
    assert_eq!(frame.timestamp, at(1500));
    assert_eq!(frame.data, vec![0xDE, 0xAD, 0xBE, 0xEF, 0b1110_0000]);
    for _ in 0..31 {
        publisher.send_payload(1234, &[], at(0), &mut tx).unwrap();
        tx.frame_queue_mut().pop_frame();
    }
    assert_eq!(publisher.next_transfer_id(), 0);
}

#[test]
fn filter_merge_covers_inputs() {
    let a = Filter::new(0x0060_0100, 0x1fff_ffff);
    let b = Filter::new(0x0060_0300, 0x1fff_ffff);
    let c = Filter::new(0x1000_0000, 0x1000_0000);
    let merged = a.merge(&b);
    assert_eq!(merged.id(), 0x0060_0100);
    assert_eq!(merged.mask(), 0x1fff_fdff);
    let out = optimize(&[a, b, c], 2);
    assert_eq!(out.len(), 2);
    for x in [0x0060_0100u32, 0x0060_0300, 0x1234_5678] {
        assert!(out.iter().any(|f| f.accepts(x)));
    }
    assert_eq!(optimize(&[a, b], 4), vec![a, b]);
    assert_eq!(optimize(&[a, b, c], 1).len(), 1);
}

#[test]
fn deadline_tracker_replaces() {
    let mut d = DeadlineTracker::new();
    assert_eq!(d.get(1), None);
    assert_eq!(d.replace(1, at(10)), None);
    assert_eq!(d.replace(1, at(20)), Some(at(10)));
    assert_eq!(d.get(1), Some(at(20)));
    assert!(d.is_expired(1, at(21)));
    assert!(!d.is_expired(1, at(20)));
    assert!(!d.is_expired(0, at(1000)));
}

#[test]
fn expired_frames_are_dropped_before_sending() {
    let mut q = FrameQueue::new(4);
    q.push(CanFrame::new(at(5), CanId::try_from(0x100).unwrap(), &[1])).unwrap();
    q.push(CanFrame::new(at(50), CanId::try_from(0x200).unwrap(), &[2])).unwrap();
    let f = next_frame_to_send(&mut q, at(10)).unwrap();
    assert_eq!(f.data, vec![2]);
    assert_eq!(q.len(), 0);
    assert!(next_frame_to_send(&mut q, at(10)).is_none());
}

#[test]
fn frame_from_parts_checks() {
    assert_eq!(frame_from_parts(None, Some(&[1]), at(0)), Err(InvalidFrameFormat));
    assert_eq!(frame_from_parts(Some(0x100), None, at(0)), Err(InvalidFrameFormat));
    assert_eq!(frame_from_parts(Some(0x0080_0000), Some(&[1]), at(0)), Err(InvalidFrameFormat));
    let f = frame_from_parts(Some(0x100), Some(&[1, 2]), at(3)).unwrap();
    assert_eq!(f.id.as_u32(), 0x100);
    assert_eq!(f.data, vec![1, 2]);
}

#[test]
fn bxcan_conversion_round_trip() {
    let frame = s2_frames().remove(0);
    let bx = uavcan_frame_to_bxcan(&frame);
    let back = bxcan_frame_to_uavcan(&bx, at(77)).unwrap();
    assert_eq!(back.id, frame.id);
    assert_eq!(back.data, frame.data);
    assert_eq!(back.timestamp, at(77));
}

#[test]
fn receiver_routes_by_subject() {
    let mut rx = Receiver::new(Some(7));
    rx.subscribe_message(1234, 64, duration(1_000_000));
    rx.subscribe_message(99, 64, duration(1_000_000));
    let filters = rx.frame_filters();
    assert_eq!(filters.len(), 2);
    assert!(filters[0].accepts(s1_id().as_u32()));
    assert!(!filters[1].accepts(s1_id().as_u32()));
    let frames = s2_frames();
    assert!(rx.accept(&arrived(&frames[0], 100)).is_none());
    let t = rx.accept(&arrived(&frames[1], 200)).unwrap();
    assert_eq!(t.payload.len(), 10);
    // A subject without a subscription, and a service frame, are ignored
    let other = split_transfer(&[1], 8, CanId::message(4, 5, 42), 0, at(0));
    assert!(rx.accept(&arrived(&other[0], 300)).is_none());
    let svc = split_transfer(&[1], 8, CanId::service(4, 5, true, 1, 42), 0, at(0));
    assert!(rx.accept(&arrived(&svc[0], 300)).is_none());
    rx.unsubscribe(msg(1234));
    assert_eq!(rx.frame_filters().len(), 1);
    let again = split_transfer(&[7], 8, s1_id(), 1, at(0));
    assert!(rx.accept(&arrived(&again[0], 400)).is_none());
}

#[test]
fn requester_counts_per_destination() {
    let mut requester = Requester::new(42, duration(100), 3);
    let mut tx = Transmitter::new(8, 8);
    requester.send_request(at(0), 430, 10, &[1, 2], &mut tx).unwrap();
    requester.send_request(at(0), 430, 10, &[3], &mut tx).unwrap();
    requester.send_request(at(0), 430, 11, &[4], &mut tx).unwrap();
    assert_eq!(requester.next_transfer_id(10), 2);
    assert_eq!(requester.next_transfer_id(11), 1);
    assert_eq!(requester.next_transfer_id(12), 0);
    let first = tx.frame_queue_mut().pop_frame().unwrap();
    assert_eq!(first.id, CanId::service(3, 430, true, 10, 42));
    assert_eq!(first.data, vec![1, 2, 0b1110_0000]);
    assert_eq!(first.timestamp, at(100));
    let mut tx2 = Transmitter::new(8, 8);
    send_response(at(9), 3, 430, 42, 10, 5, &[9], &mut tx2).unwrap();
    let resp = tx2.frame_queue_mut().pop_frame().unwrap();
    assert_eq!(resp.id, CanId::service(3, 430, false, 42, 10));
    assert_eq!(resp.data, vec![9, 0b1110_0101]);
}

#[test]
fn can_fd_single_frame() {
    let payload: Vec<u8> = (0u8..40).collect();
    let frames = split_transfer(&payload, 64, s1_id(), 1, at(0));
    assert_eq!(frames.len(), 1);
    assert_eq!(frames[0].data.len(), 41);
    let frames8 = split_transfer(&payload, 8, s1_id(), 1, at(0));
    // 42 bytes with the CRC, 7 per frame
    assert_eq!(frames8.len(), 6);
}

#[test]
fn transmission_bookkeeping() {
    let mut q = FrameQueue::new(4);
    let mut d = DeadlineTracker::new();
    let f1 = CanFrame::new(at(100), CanId::try_from(0x300).unwrap(), &[1]);
    assert!(record_transmission(&mut q, &mut d, f1.clone(), Some(0), None));
    assert_eq!(d.get(0), Some(at(100)));
    assert_eq!(q.len(), 0);
    // A higher-priority frame displaces the first one, which goes back into the queue with its
    // own deadline
    let displaced = uavcan_frame_to_bxcan(&f1);
    let f2 = CanFrame::new(at(200), CanId::try_from(0x100).unwrap(), &[2]);
    assert!(record_transmission(&mut q, &mut d, f2, Some(0), Some(&displaced)));
    assert_eq!(d.get(0), Some(at(200)));
    let back = q.pop_frame().unwrap();
    assert_eq!(back.id.as_u32(), 0x300);
    assert_eq!(back.timestamp, at(100));
    // No mailbox: the frame itself goes back
    let f3 = CanFrame::new(at(300), CanId::try_from(0x200).unwrap(), &[3]);
    assert!(!record_transmission(&mut q, &mut d, f3, None, None));
    assert_eq!(q.pop_frame().unwrap().data, vec![3]);
}

#[test]
fn bxcan_frames_reach_the_receiver() {
    let mut rx = Receiver::new(Some(7));
    rx.subscribe_message(1234, 64, duration(1_000_000));
    let frames = s2_frames();
    let bx0 = uavcan_frame_to_bxcan(&frames[0]);
    let bx1 = uavcan_frame_to_bxcan(&frames[1]);
    assert!(accept_bxcan_frame(&mut rx, &bx0, at(10)).is_none());
    let t = accept_bxcan_frame(&mut rx, &bx1, at(20)).unwrap();
    assert_eq!(t.payload, (0u8..10).collect::<Vec<u8>>());
    assert_eq!(t.timestamp, at(10));
}

#[test]
fn filter_merge_picks_cheapest_pair() {
    let a = Filter::new(0x100, 0x1fff_ffff);
    let b = Filter::new(0x101, 0x1fff_ffff);
    let c = Filter::new(0x1000_0000, 0x1fff_ffff);
    assert_eq!(optimize(&[a, c, b], 2), vec![Filter::new(0x100, 0x1fff_fffe), c]);
    // Among pairs of equal cost, the first in list order is merged
    let x = Filter::new(0x0, 0x1fff_ffff);
    let y = Filter::new(0x1, 0x1fff_ffff);
    let z = Filter::new(0x2, 0x1fff_ffff);
    assert_eq!(optimize(&[x, y, z], 2), vec![Filter::new(0x0, 0x1fff_fffe), z]);
}

#[test]
fn heartbeat_once_per_second() {
    let mut node = Node::new(42, 8, 16);
    node.set_status(1, 2, 0xAB);
    node.run_per_second_tasks(at(0)).unwrap();
    node.run_per_second_tasks(at(1_000_000)).unwrap();
    let first = node.transmitter_mut().frame_queue_mut().pop_frame().unwrap();
    assert_eq!(first.id, CanId::message(4, 7509, 42));
    assert_eq!(first.data, vec![1, 0, 0, 0, 1, 2, 0xAB, 0b1110_0000]);
    assert_eq!(first.timestamp, at(1_000_000));
    let second = node.transmitter_mut().frame_queue_mut().pop_frame().unwrap();
    assert_eq!(second.data, vec![2, 0, 0, 0, 1, 2, 0xAB, 0b1110_0001]);
    assert_eq!(heartbeat_payload(0x0102_0304, 0, 3, 7), vec![4, 3, 2, 1, 0, 3, 7]);
}

#[test]
fn node_routes_frames_to_subscriptions() {
    let mut node = Node::new(1, 8, 16);
    node.receiver_mut().subscribe_message(1234, 64, duration(1_000_000));
    let frames = s2_frames();
    assert!(node.accept_frame(&arrived(&frames[0], 1)).is_none());
    assert_eq!(node.accept_frame(&arrived(&frames[1], 2)).unwrap().transfer_id, 7);
}

#[test]
fn failed_send_keeps_transfer_id() {
    let mut publisher = Publisher::new(42, duration(500), 4);
    let mut tx = Transmitter::new(8, 1);
    let payload: Vec<u8> = (0u8..10).collect();
    assert_eq!(publisher.publish(at(0), 1234, &payload, &mut tx), Err(OutOfMemoryError));
    assert_eq!(publisher.next_transfer_id(), 0);
    assert_eq!(tx.frame_queue().len(), 0);
    let mut requester = Requester::new(42, duration(100), 3);
    assert_eq!(requester.send_request(at(0), 430, 10, &payload, &mut tx), Err(OutOfMemoryError));
    assert_eq!(requester.next_transfer_id(10), 0);
    let mut node = Node::new(42, 8, 0);
    assert_eq!(node.run_per_second_tasks(at(0)), Err(OutOfMemoryError));
}

#[test]
fn bxcan_frame_rejections() {
    let standard = bxcan::Frame::new_data(bxcan::StandardId::new(0x100).unwrap(), [1u8]);
    assert_eq!(bxcan_frame_to_uavcan(&standard, at(0)), Err(InvalidFrameFormat));
    let remote = bxcan::Frame::new_remote(bxcan::ExtendedId::new(0x100).unwrap(), 1);
    assert_eq!(bxcan_frame_to_uavcan(&remote, at(0)), Err(InvalidFrameFormat));
    let reserved = bxcan::Frame::new_data(bxcan::ExtendedId::new(0x0080_0000).unwrap(), [1u8]);
    assert_eq!(bxcan_frame_to_uavcan(&reserved, at(0)), Err(InvalidFrameFormat));
    let good = bxcan::Frame::new_data(bxcan::ExtendedId::new(0x0060_0101).unwrap(), [1u8, 2]);
    let f = bxcan_frame_to_uavcan(&good, at(5)).unwrap();
    assert_eq!(f.id.as_u32(), 0x0060_0101);
    assert_eq!(f.data, vec![1, 2]);
}

#[test]
fn service_transfers_reach_their_node() {
    let mut rx = Receiver::new(Some(42));
    rx.subscribe_response(430, 64, duration(1_000_000));
    rx.subscribe_request(431, 64, duration(1_000_000));
    // A response to this node
    let resp = split_transfer(&[5, 6], 8, CanId::service(3, 430, false, 42, 10), 4, at(0));
    let t = rx.accept(&arrived(&resp[0], 1)).unwrap();
    assert_eq!(t.port, Port { kind: PortKind::Response, id: 430 });
    assert_eq!(t.payload, vec![5, 6]);
    assert_eq!(t.source, Some(10));
    assert_eq!(t.transfer_id, 4);
    // A response to another node is ignored
    let other = split_transfer(&[5], 8, CanId::service(3, 430, false, 43, 10), 5, at(0));
    assert!(rx.accept(&arrived(&other[0], 2)).is_none());
    // A request for a service without a request subscription is ignored; one with it arrives
    let req = split_transfer(&[1], 8, CanId::service(3, 430, true, 42, 10), 6, at(0));
    assert!(rx.accept(&arrived(&req[0], 3)).is_none());
    let req2 = split_transfer(&[1], 8, CanId::service(3, 431, true, 42, 10), 6, at(0));
    assert_eq!(rx.accept(&arrived(&req2[0], 3)).unwrap().port, Port { kind: PortKind::Request, id: 431 });
    let filters = rx.frame_filters();
    assert!(filters[0].accepts(CanId::service(3, 430, false, 42, 99).as_u32()));
    assert!(!filters[0].accepts(CanId::service(3, 430, false, 43, 99).as_u32()));
    assert!(!filters[0].accepts(CanId::service(3, 430, true, 42, 99).as_u32()));
    assert!(filters[1].accepts(CanId::service(0, 431, true, 42, 1).as_u32()));
}

#[test]
fn anonymous_receiver_ignores_services() {
    let mut rx = Receiver::new(None);
    rx.subscribe_message(1234, 64, duration(1000));
    let svc = split_transfer(&[1], 8, CanId::service(4, 1234 % 512, true, 0, 42), 0, at(0));
    assert!(rx.accept(&arrived(&svc[0], 1)).is_none());
}

#[test]
fn node_answers_get_info() {
    let mut node = Node::new(42, 8, 16);
    node.receiver_mut().subscribe_request(430, 64, duration(1_000_000));
    let req = split_transfer(&[], 8, CanId::service(2, 430, true, 42, 10), 9, at(0));
    let request = node.accept_frame(&arrived(&req[0], 5)).unwrap();
    assert_eq!(node.respond_to_get_info(&request, &[0xAA, 0xBB], at(100)), Some(Ok(())));
    let resp = node.transmitter_mut().frame_queue_mut().pop_frame().unwrap();
    assert_eq!(resp.id, CanId::service(2, 430, false, 10, 42));
    assert_eq!(resp.data, vec![0xAA, 0xBB, 0b1110_1001]);
    assert_eq!(resp.timestamp, at(100));
    // A transfer that is not a GetInfo request gets no response
    let mut rx = Receiver::new(Some(42));
    rx.subscribe_message(1234, 64, duration(1000));
    let m = split_transfer(&[1], 8, s1_id(), 0, at(0));
    let message = rx.accept(&arrived(&m[0], 1)).unwrap();
    assert_eq!(node.respond_to_get_info(&message, &[1], at(0)), None);
}
