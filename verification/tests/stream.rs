use txxxt::net::protocol::encode_frame;
use txxxt::net::stream::{Arrival, FrameStream};
use txxxt::render::AsciiCell;

fn grid(tag: char) -> Vec<Vec<AsciiCell>> {
    vec![
        vec![AsciiCell { ch: tag, color: None }, AsciiCell { ch: 'b', color: Some((1, 2, 3)) }],
        vec![AsciiCell { ch: 'c', color: None }, AsciiCell { ch: '한', color: Some((250, 0, 9)) }],
    ]
}

fn frame_of(a: Arrival) -> Option<Vec<Vec<AsciiCell>>> {
    match a {
        Arrival::Frame(g) => Some(g),
        _ => None,
    }
}

#[test]
fn frame_split_over_two_reads() {
    let bytes = encode_frame(&grid('a'));
    let mut s = FrameStream::new();
    assert!(matches!(s.receive(&bytes[..5]), Arrival::Pending));
    assert!(matches!(s.receive(&bytes[5..20]), Arrival::Pending));
    assert_eq!(frame_of(s.receive(&bytes[20..])), Some(grid('a')));
    assert!(matches!(s.receive(&[]), Arrival::Pending));
}

#[test]
fn only_the_last_complete_frame_is_shown() {
    let mut bytes = encode_frame(&grid('x'));
    bytes.extend(encode_frame(&grid('y')));
    let third = encode_frame(&grid('z'));
    bytes.extend_from_slice(&third[..10]);
    let mut s = FrameStream::new();
    assert_eq!(frame_of(s.receive(&bytes)), Some(grid('y')));
    assert_eq!(frame_of(s.receive(&third[10..])), Some(grid('z')));
}

#[test]
fn backlog_over_limit_overflows() {
    let mut s = FrameStream::new();
    // a header announcing a long frame keeps its bytes waiting
    let mut head = vec![1u8, 0, 1, 0];
    head.extend_from_slice(&u32::MAX.to_le_bytes());
    assert!(matches!(s.receive(&head), Arrival::Pending));
    let filler = vec![0u8; 8 * 1024 * 1024 - 8];
    assert!(matches!(s.receive(&filler), Arrival::Pending));
    assert!(matches!(s.receive(&[0u8]), Arrival::Overflow));
    // everything was dropped: empty frames now decode from scratch
    assert_eq!(frame_of(s.receive(&[0u8; 8])), Some(vec![]));
}
