use bytes::BytesMut;
use mrbgpdv2::connection::get_index_of_message_separator;
use mrbgpdv2::connection::get_message;
use mrbgpdv2::connection::split_buffer_at_message_separator;
use mrbgpdv2::event_queue::Queue;
use mrbgpdv2::ipv4::Ipv4Addr;
use mrbgpdv2::packets::message::Message;
use mrbgpdv2::packets::update::UpdateMessage;
use mrbgpdv2::path_attribute::Origin;
use mrbgpdv2::path_attribute::PathAttribute;

#[test]
fn nothing_is_framed_before_a_header_has_come_in() {
    let mut buffer = BytesMut::new();
    assert_eq!(get_index_of_message_separator(&buffer), None);
    assert_eq!(get_message(&mut buffer), None);
    buffer.extend_from_slice(&[0xFF; 18]);
    assert_eq!(get_index_of_message_separator(&buffer), None);
    assert_eq!(split_buffer_at_message_separator(&mut buffer), None);
    assert_eq!(buffer.len(), 18);
}

#[test]
fn nothing_is_framed_before_the_whole_message_has_come_in() {
    let open = Message::new_open(64512.into(), Ipv4Addr(127, 0, 0, 1));
    let bytes = open.to_bytes();
    let mut buffer = BytesMut::new();
    buffer.extend_from_slice(&bytes[..28]);
    assert_eq!(get_index_of_message_separator(&buffer), Some(29));
    assert_eq!(get_message(&mut buffer), None);
    assert_eq!(&buffer[..], &bytes[..28]);
    buffer.extend_from_slice(&bytes[28..]);
    assert_eq!(get_message(&mut buffer), Some(open));
    assert!(buffer.is_empty());
}

#[test]
fn messages_are_framed_one_by_one_and_the_rest_stays() {
    let open = Message::new_open(64512.into(), Ipv4Addr(127, 0, 0, 1));
    let keepalive = Message::new_keepalive();
    let update = Message::Update(UpdateMessage::new(
        vec![PathAttribute::Origin(Origin::Egp)],
        vec!["10.0.0.0/8".parse().unwrap()],
        vec![],
    ));
    let mut buffer = BytesMut::new();
    buffer.extend_from_slice(&open.to_bytes());
    buffer.extend_from_slice(&keepalive.to_bytes());
    buffer.extend_from_slice(&update.to_bytes());
    buffer.extend_from_slice(&[0xFF, 0xFF, 0xFF]);
    let first = split_buffer_at_message_separator(&mut buffer).unwrap();
    assert_eq!(&first[..], &open.to_bytes()[..]);
    assert_eq!(get_message(&mut buffer), Some(keepalive));
    assert_eq!(get_message(&mut buffer), Some(update));
    assert_eq!(get_message(&mut buffer), None);
    assert_eq!(&buffer[..], &[0xFF, 0xFF, 0xFF]);
}

#[test]
fn bytes_that_do_not_decode_leave_the_buffer_all_the_same() {
    let mut bytes = vec![0xFF; 16];
    bytes.extend_from_slice(&[0x00, 0x14, 0x09, 0xAA]);
    bytes.extend_from_slice(&Message::new_keepalive().to_bytes());
    let mut buffer = BytesMut::from(&bytes[..]);
    assert_eq!(get_message(&mut buffer), None);
    assert_eq!(buffer.len(), 19);
    assert_eq!(get_message(&mut buffer), Some(Message::new_keepalive()));
}

#[test]
fn queue_hands_out_in_the_order_of_arrival() {
    let mut queue: Queue<u8> = Queue::new();
    assert!(queue.is_empty());
    assert_eq!(queue.dequeue(), None);
    queue.enqueue(1);
    queue.enqueue(2);
    queue.enqueue(3);
    assert_eq!(queue.len(), 3);
    assert_eq!(queue.dequeue(), Some(1));
    queue.enqueue(4);
    assert_eq!(queue.dequeue(), Some(2));
    assert_eq!(queue.dequeue(), Some(3));
    assert_eq!(queue.dequeue(), Some(4));
    assert_eq!(queue.dequeue(), None);
    assert!(queue.is_empty());
}
