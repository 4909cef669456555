use wayland_client::wire::{decode_message, encode_message, peek_header, ArgKind, Argument, Message, WireError};

fn msg(object_id: u32, opcode: u16, args: Vec<Argument>) -> Message {
    Message { object_id, opcode, args }
}

#[test]
fn encodes_header_and_word() {
    let m = msg(1, 2, vec![Argument::Uint(5)]);
    let (bytes, fds) = encode_message(&m, &vec![ArgKind::Uint]).unwrap();
    assert_eq!(bytes, vec![1, 0, 0, 0, 2, 0, 12, 0, 5, 0, 0, 0]);
    assert!(fds.is_empty());
}

#[test]
fn encodes_string_with_nul_and_padding() {
    let m = msg(3, 0, vec![Argument::Str(b"ab".to_vec())]);
    let (bytes, _) = encode_message(&m, &vec![ArgKind::Str]).unwrap();
    assert_eq!(bytes, vec![3, 0, 0, 0, 0, 0, 16, 0, 3, 0, 0, 0, b'a', b'b', 0, 0]);
}

#[test]
fn encodes_array_with_padding() {
    let m = msg(3, 1, vec![Argument::Array(vec![9, 8, 7, 6, 5])]);
    let (bytes, _) = encode_message(&m, &vec![ArgKind::Array]).unwrap();
    assert_eq!(bytes, vec![3, 0, 0, 0, 1, 0, 20, 0, 5, 0, 0, 0, 9, 8, 7, 6, 5, 0, 0, 0]);
}

#[test]
fn fds_travel_beside_the_bytes() {
    let m = msg(4, 0, vec![Argument::Fd(10), Argument::Int(-1), Argument::Fd(11)]);
    let sig = vec![ArgKind::Fd, ArgKind::Int, ArgKind::Fd];
    let (bytes, fds) = encode_message(&m, &sig).unwrap();
    assert_eq!(bytes, vec![4, 0, 0, 0, 0, 0, 12, 0, 255, 255, 255, 255]);
    assert_eq!(fds, vec![10, 11]);
}

#[test]
fn round_trip_every_kind() {
    let sig = vec![
        ArgKind::Int,
        ArgKind::Uint,
        ArgKind::Fixed,
        ArgKind::Str,
        ArgKind::Object { nullable: true },
        ArgKind::Object { nullable: false },
        ArgKind::NewId { interface: 2 },
        ArgKind::Array,
        ArgKind::Fd,
    ];
    let m = msg(
        7,
        3,
        vec![
            Argument::Int(-42),
            Argument::Uint(0xdead_beef),
            Argument::Fixed(256 * 3 + 128),
            Argument::Str(b"hello".to_vec()),
            Argument::Object(0),
            Argument::Object(9),
            Argument::NewId(0xff00_0001),
            Argument::Array(vec![1, 2, 3]),
            Argument::Fd(5),
        ],
    );
    let (bytes, fds) = encode_message(&m, &sig).unwrap();
    let (back, used, fds_used) = decode_message(&bytes, &fds, &sig).unwrap().unwrap();
    assert_eq!(back, m);
    assert_eq!(used, bytes.len());
    assert_eq!(fds_used, 1);
}

#[test]
fn round_trip_empty_string_and_array() {
    let sig = vec![ArgKind::Str, ArgKind::Array];
    let m = msg(2, 0, vec![Argument::Str(vec![]), Argument::Array(vec![])]);
    let (bytes, fds) = encode_message(&m, &sig).unwrap();
    assert_eq!(bytes.len(), 8 + 8 + 4);
    let (back, used, _) = decode_message(&bytes, &fds, &sig).unwrap().unwrap();
    assert_eq!(back, m);
    assert_eq!(used, 20);
}

#[test]
fn incomplete_until_all_bytes_arrive() {
    let sig = vec![ArgKind::Array];
    let m = msg(5, 1, vec![Argument::Array(vec![7; 28])]);
    let (bytes, fds) = encode_message(&m, &sig).unwrap();
    assert_eq!(bytes.len(), 40);
    let first: Vec<u8> = bytes[..20].to_vec();
    assert_eq!(decode_message(&first, &fds, &sig), Ok(None));
    assert_eq!(first.len(), 20);
    let mut all = first.clone();
    all.extend_from_slice(&bytes[20..]);
    let (back, used, _) = decode_message(&all, &fds, &sig).unwrap().unwrap();
    assert_eq!(back, m);
    assert_eq!(used, 40);
}

#[test]
fn short_header_is_incomplete() {
    assert_eq!(decode_message(&vec![1, 0, 0], &vec![], &vec![]), Ok(None));
    assert_eq!(peek_header(&vec![1, 0, 0]), None);
    assert_eq!(peek_header(&vec![1, 0, 0, 0, 2, 0, 8, 0]), Some((1, 2)));
}

#[test]
fn bad_declared_length_is_malformed() {
    let bytes = vec![1, 0, 0, 0, 0, 0, 6, 0];
    assert_eq!(decode_message(&bytes, &vec![], &vec![]), Err(WireError::Malformed));
    let bytes = vec![1, 0, 0, 0, 0, 0, 10, 0, 0, 0, 0, 0];
    assert_eq!(decode_message(&bytes, &vec![], &vec![]), Err(WireError::Malformed));
}

#[test]
fn leftover_body_is_malformed() {
    let bytes = vec![1, 0, 0, 0, 0, 0, 12, 0, 5, 0, 0, 0];
    assert_eq!(decode_message(&bytes, &vec![], &vec![]), Err(WireError::Malformed));
}

#[test]
fn string_past_message_end_is_malformed() {
    let bytes = vec![1, 0, 0, 0, 0, 0, 12, 0, 9, 0, 0, 0];
    assert_eq!(decode_message(&bytes, &vec![], &vec![ArgKind::Str]), Err(WireError::Malformed));
}

#[test]
fn null_object_where_not_allowed() {
    let bytes = vec![1, 0, 0, 0, 0, 0, 12, 0, 0, 0, 0, 0];
    let sig = vec![ArgKind::Object { nullable: false }];
    assert_eq!(decode_message(&bytes, &vec![], &sig), Err(WireError::BadArgument));
    let m = msg(1, 0, vec![Argument::Object(0)]);
    assert_eq!(encode_message(&m, &sig), Err(WireError::BadArgument));
}

#[test]
fn missing_fd_is_underrun() {
    let bytes = vec![1, 0, 0, 0, 0, 0, 8, 0];
    assert_eq!(decode_message(&bytes, &vec![], &vec![ArgKind::Fd]), Err(WireError::FdUnderrun));
}

#[test]
fn arity_mismatch_is_rejected() {
    let m = msg(1, 0, vec![Argument::Int(1)]);
    assert_eq!(encode_message(&m, &vec![]), Err(WireError::BadArgument));
    assert_eq!(encode_message(&m, &vec![ArgKind::Uint]), Err(WireError::BadArgument));
}

#[test]
fn oversized_message_is_too_long() {
    let m = msg(1, 0, vec![Argument::Array(vec![0; 70000])]);
    assert_eq!(encode_message(&m, &vec![ArgKind::Array]), Err(WireError::TooLong));
    let m = msg(1, 0, vec![Argument::Array(vec![0; 65524])]);
    assert_eq!(encode_message(&m, &vec![ArgKind::Array]), Err(WireError::TooLong));
    let m = msg(1, 0, vec![Argument::Array(vec![0; 65520])]);
    assert_eq!(encode_message(&m, &vec![ArgKind::Array]).unwrap().0.len(), 65532);
}
