use wayland_client::display::{
    connect_target, ConnectError, DispatchError, Display, FlushError, Interface, RequestError, SocketSource,
};
use wayland_client::objects::{ObjectInfo, ObjectTable, CLIENT_ID_BASE, DISPLAY_ID};
use wayland_client::wire::{decode_message, encode_message, ArgKind, Argument, Message};

fn protocol() -> Vec<Interface> {
    vec![
        Interface {
            name: "wl_display".to_string(),
            version: 1,
            requests: vec![vec![ArgKind::NewId { interface: 1 }]],
            events: vec![
                vec![ArgKind::Object { nullable: false }, ArgKind::Uint, ArgKind::Str],
                vec![ArgKind::Uint],
            ],
        },
        Interface {
            name: "wl_registry".to_string(),
            version: 1,
            requests: vec![vec![ArgKind::Uint, ArgKind::NewId { interface: 2 }]],
            events: vec![
                vec![ArgKind::Uint, ArgKind::Str, ArgKind::Uint],
                vec![ArgKind::NewId { interface: 2 }],
                vec![ArgKind::Fd],
            ],
        },
        Interface {
            name: "wl_thing".to_string(),
            version: 3,
            requests: vec![vec![]],
            events: vec![vec![ArgKind::Int]],
        },
    ]
}

fn event_bytes(object_id: u32, opcode: u16, args: Vec<Argument>, sig: &Vec<ArgKind>) -> Vec<u8> {
    encode_message(&Message { object_id, opcode, args }, sig).unwrap().0
}

fn connected() -> Display {
    Display::from_fd(3, protocol()).unwrap()
}

#[test]
fn from_fd_rejects_negative_fd() {
    assert!(matches!(Display::from_fd(-1, protocol()), Err(ConnectError::InvalidFd)));
}

#[test]
fn from_fd_binds_root_object() {
    let d = connected();
    assert_eq!(d.get_connection_fd(), 3);
    assert_eq!(d.resolve(DISPLAY_ID), Some(ObjectInfo { interface: 0, version: 1, queue: 0 }));
    assert!(d.protocol_error().is_none());
    assert!(d.pending_output().is_empty());
}

#[test]
fn connect_target_choices() {
    assert_eq!(connect_target(Some(Some(7)), None, None), Ok(SocketSource::Fd(7)));
    assert_eq!(connect_target(Some(None), Some("/run".to_string()), None), Err(ConnectError::InvalidFd));
    assert_eq!(connect_target(None, None, Some("wayland-0".to_string())), Err(ConnectError::XdgRuntimeDirNotSet));
    assert_eq!(connect_target(None, Some("/run".to_string()), None), Err(ConnectError::NoCompositorListening));
    assert_eq!(
        connect_target(None, Some("/run".to_string()), Some("wayland-0".to_string())),
        Ok(SocketSource::Path { runtime_dir: "/run".to_string(), name: "wayland-0".to_string() })
    );
}

#[test]
fn connect_error_descriptions() {
    assert_eq!(ConnectError::XdgRuntimeDirNotSet.description(), "XDG_RUNTIME_DIR is not set.");
    assert_eq!(ConnectError::InvalidFd.description(), "The FD provided in WAYLAND_SOCKET is invalid.");
}

#[test]
fn flush_with_nothing_pending_is_a_no_op() {
    let mut d = connected();
    for _ in 0..3 {
        assert_eq!(d.flush(0), Ok(()));
        assert!(d.pending_output().is_empty());
    }
}

#[test]
fn flush_keeps_the_unwritten_rest() {
    let mut d = connected();
    let id = d.create_object(DISPLAY_ID, 1, 1).unwrap();
    d.send_request(&Message { object_id: DISPLAY_ID, opcode: 0, args: vec![Argument::NewId(id)] }).unwrap();
    assert_eq!(d.pending_output().len(), 12);
    assert_eq!(d.flush(5), Err(FlushError::WouldBlock));
    assert_eq!(d.pending_output().len(), 7);
    assert_eq!(d.flush(7), Ok(()));
    assert_eq!(d.flush(0), Ok(()));
}

#[test]
fn client_ids_are_fresh_and_freed() {
    let mut t = ObjectTable::new();
    let a = t.allocate_client_id().unwrap();
    let b = t.allocate_client_id().unwrap();
    assert_eq!(a, CLIENT_ID_BASE);
    assert_ne!(a, b);
    let info = ObjectInfo { interface: 2, version: 1, queue: 0 };
    assert_eq!(t.register(a, info), Ok(()));
    assert!(t.register(a, info).is_err());
    let c = t.allocate_client_id().unwrap();
    assert!(t.resolve(c).is_none());
    assert!(t.destroy(a));
    assert!(t.resolve(a).is_none());
    assert!(!t.destroy(a));
    assert!(t.register(c + 1, info).is_err());
}

#[test]
fn request_on_destroyed_object_fails_locally() {
    let mut d = connected();
    let id = d.create_object(DISPLAY_ID, 2, 3).unwrap();
    assert_eq!(d.send_request(&Message { object_id: id, opcode: 0, args: vec![] }), Ok(()));
    assert!(d.destroy_object(id));
    assert_eq!(d.send_request(&Message { object_id: id, opcode: 0, args: vec![] }), Err(RequestError::DeadObject));
    assert!(d.protocol_error().is_none());
    assert_eq!(d.send_request(&Message { object_id: DISPLAY_ID, opcode: 9, args: vec![] }), Err(RequestError::UnknownOpcode));
    assert_eq!(d.create_object(DISPLAY_ID, 9, 1), Err(RequestError::UnknownInterface));
}

#[test]
fn new_object_request_reaches_the_other_side() {
    let mut client = connected();
    let registry = client.create_object(DISPLAY_ID, 1, 1).unwrap();
    assert_eq!(client.resolve(registry), Some(ObjectInfo { interface: 1, version: 1, queue: 0 }));
    client.send_request(&Message { object_id: DISPLAY_ID, opcode: 0, args: vec![Argument::NewId(registry)] }).unwrap();
    let sent = client.pending_output().clone();
    let sig = protocol()[0].requests[0].clone();
    let (m, used, _) = decode_message(&sent, &vec![], &sig).unwrap().unwrap();
    assert_eq!(m.args, vec![Argument::NewId(registry)]);
    assert_eq!(used, sent.len());

    // The server creates an object through an event; the receiving side binds it.
    let mut other = connected();
    let reg = other.create_object(DISPLAY_ID, 1, 1).unwrap();
    let q = other.create_event_queue();
    let bytes = event_bytes(reg, 1, vec![Argument::NewId(40)], &protocol()[1].events[1]);
    other.push_incoming(&bytes, &vec![]);
    let evs = other.dispatch_pending(&wayland_client::display::EventQueue { id: 0 }).unwrap();
    assert_eq!(evs.len(), 1);
    assert_eq!(other.resolve(40), Some(ObjectInfo { interface: 2, version: 1, queue: 0 }));
    assert_eq!(other.dispatch_pending(&q).unwrap().len(), 0);
}

#[test]
fn events_keep_stream_order_per_queue() {
    let mut d = connected();
    let q1 = d.create_event_queue();
    let a = d.create_object(DISPLAY_ID, 2, 1).unwrap();
    let reg = d.create_object(DISPLAY_ID, 1, 1).unwrap();
    let sig = protocol()[2].events[0].clone();
    let mut stream = Vec::new();
    stream.extend(event_bytes(a, 0, vec![Argument::Int(1)], &sig));
    stream.extend(event_bytes(reg, 0, vec![Argument::Uint(9), Argument::Str(b"x".to_vec()), Argument::Uint(1)], &protocol()[1].events[0]));
    stream.extend(event_bytes(a, 0, vec![Argument::Int(2)], &sig));
    stream.extend(event_bytes(a, 0, vec![Argument::Int(3)], &sig));
    // Feed the stream in uneven pieces.
    d.push_incoming(&stream[..5].to_vec(), &vec![]);
    assert_eq!(d.dispatch_pending(&q1).unwrap().len(), 0);
    d.push_incoming(&stream[5..].to_vec(), &vec![]);
    let default = wayland_client::display::EventQueue { id: 0 };
    let evs = d.dispatch_pending(&default).unwrap();
    let ints: Vec<Argument> = evs.iter().filter(|m| m.object_id == a).map(|m| m.args[0].clone()).collect();
    assert_eq!(ints, vec![Argument::Int(1), Argument::Int(2), Argument::Int(3)]);
    assert_eq!(evs.len(), 4);
    assert_eq!(evs[1].object_id, reg);
    assert_eq!(d.dispatch_pending(&default).unwrap().len(), 0);
    assert_eq!(d.dispatch_pending(&q1).unwrap().len(), 0);
}

#[test]
fn missing_fd_latches_a_protocol_error() {
    let mut d = connected();
    let reg = d.create_object(DISPLAY_ID, 1, 1).unwrap();
    let q1 = d.create_event_queue();
    let bytes = vec![
        (reg & 0xff) as u8, ((reg >> 8) & 0xff) as u8, ((reg >> 16) & 0xff) as u8, (reg >> 24) as u8,
        2, 0, 8, 0,
    ];
    d.push_incoming(&bytes, &vec![]);
    let default = wayland_client::display::EventQueue { id: 0 };
    assert_eq!(d.dispatch_pending(&default), Err(DispatchError::ProtocolViolation));
    let e = d.protocol_error().unwrap();
    assert_eq!(e.object_id, reg);
    assert_eq!(e.object_interface, "wl_registry");
    // The latch is permanent, on every queue.
    assert_eq!(d.dispatch_pending(&default), Err(DispatchError::ProtocolViolation));
    assert_eq!(d.dispatch_pending(&q1), Err(DispatchError::ProtocolViolation));
    assert!(d.protocol_error().is_some());
}

#[test]
fn fd_is_taken_from_the_queue() {
    let mut d = connected();
    let reg = d.create_object(DISPLAY_ID, 1, 1).unwrap();
    let bytes = event_bytes(reg, 2, vec![Argument::Fd(17)], &protocol()[1].events[2]);
    assert_eq!(bytes.len(), 8);
    d.push_incoming(&bytes, &vec![17, 18]);
    let evs = d.dispatch_pending(&wayland_client::display::EventQueue { id: 0 }).unwrap();
    assert_eq!(evs[0].args, vec![Argument::Fd(17)]);
}

#[test]
fn unknown_object_is_a_violation() {
    let mut d = connected();
    d.push_incoming(&vec![99, 0, 0, 0, 0, 0, 8, 0], &vec![]);
    assert_eq!(d.dispatch_pending(&wayland_client::display::EventQueue { id: 0 }), Err(DispatchError::ProtocolViolation));
    assert_eq!(d.protocol_error().unwrap().object_id, 99);
}

#[test]
fn server_error_event_is_latched() {
    let mut d = connected();
    let thing = d.create_object(DISPLAY_ID, 2, 1).unwrap();
    let bytes = event_bytes(
        DISPLAY_ID,
        0,
        vec![Argument::Object(thing), Argument::Uint(4), Argument::Str(b"bad size".to_vec())],
        &protocol()[0].events[0],
    );
    d.push_incoming(&bytes, &vec![]);
    assert_eq!(d.dispatch_pending(&wayland_client::display::EventQueue { id: 0 }), Err(DispatchError::ProtocolViolation));
    let e = d.protocol_error().unwrap();
    assert_eq!(e.code, 4);
    assert_eq!(e.object_id, thing);
    assert_eq!(e.object_interface, "wl_thing");
    assert_eq!(e.message, "bad size");
}

#[test]
fn each_queue_gets_its_objects_events_in_order() {
    let mut d = connected();
    let q1 = d.create_event_queue();
    let default = wayland_client::display::EventQueue { id: 0 };
    let a = d.create_object(DISPLAY_ID, 2, 1).unwrap();
    let b = d.create_object(DISPLAY_ID, 2, 1).unwrap();
    assert!(d.attach(b, &q1));
    assert_eq!(d.resolve(b).unwrap().queue, 1);
    let sig = protocol()[2].events[0].clone();
    let mut stream = Vec::new();
    for (target, v) in [(a, 1), (b, 10), (b, 11), (a, 2), (b, 12), (a, 3)] {
        stream.extend(event_bytes(target, 0, vec![Argument::Int(v)], &sig));
    }
    d.push_incoming(&stream, &vec![]);
    let on_q1 = d.dispatch_pending(&q1).unwrap();
    let on_default = d.dispatch_pending(&default).unwrap();
    let values = |evs: &Vec<Message>| -> Vec<Argument> { evs.iter().map(|m| m.args[0].clone()).collect() };
    assert_eq!(values(&on_q1), vec![Argument::Int(10), Argument::Int(11), Argument::Int(12)]);
    assert_eq!(values(&on_default), vec![Argument::Int(1), Argument::Int(2), Argument::Int(3)]);
    assert!(on_q1.iter().all(|m| m.object_id == b));
}

#[test]
fn attach_needs_a_live_object() {
    let mut d = connected();
    let q1 = d.create_event_queue();
    assert!(!d.attach(12345, &q1));
    assert!(d.has_queue(&q1));
    assert!(!d.has_queue(&wayland_client::display::EventQueue { id: 7 }));
}

#[test]
fn protocol_error_description() {
    let e = wayland_client::display::ProtocolError {
        code: 1,
        object_id: 2,
        object_interface: "wl_thing".to_string(),
        message: "m".to_string(),
    };
    assert_eq!(e.description(), "Wayland protocol error");
    assert_eq!(e.clone().object_interface, "wl_thing");
}

#[test]
fn from_fd_rejects_empty_interface_table() {
    assert!(matches!(Display::from_fd(3, vec![]), Err(ConnectError::NoInterfaces)));
}

#[test]
fn half_a_message_waits_for_the_rest() {
    let mut d = connected();
    let thing = d.create_object(DISPLAY_ID, 1, 1).unwrap();
    let q1 = d.create_event_queue();
    assert!(d.attach(thing, &q1));
    let sig = protocol()[1].events[0].clone();
    let bytes = event_bytes(thing, 0, vec![Argument::Uint(0), Argument::Str(vec![b'x'; 19]), Argument::Uint(0)], &sig);
    assert_eq!(bytes.len(), 40);
    d.push_incoming(&bytes[..20].to_vec(), &vec![]);
    assert_eq!(d.dispatch_pending(&q1).unwrap().len(), 0);
    assert!(d.protocol_error().is_none());
    d.push_incoming(&bytes[20..].to_vec(), &vec![]);
    let evs = d.dispatch_pending(&q1).unwrap();
    assert_eq!(evs.len(), 1);
    assert_eq!(evs[0].object_id, thing);
    assert!(d.protocol_error().is_none());
}

#[test]
fn declared_length_under_header_is_fatal() {
    let mut d = connected();
    d.push_incoming(&vec![1, 0, 0, 0, 1, 0, 4, 0], &vec![]);
    let default = wayland_client::display::EventQueue { id: 0 };
    assert_eq!(d.dispatch_pending(&default), Err(DispatchError::ProtocolViolation));
    assert!(d.protocol_error().is_some());
}

#[test]
fn request_with_unallocated_new_id_is_refused() {
    let mut d = connected();
    let r = d.send_request(&Message { object_id: DISPLAY_ID, opcode: 0, args: vec![Argument::NewId(CLIENT_ID_BASE + 7)] });
    assert_eq!(r, Err(RequestError::UnallocatedNewId));
    assert!(d.pending_output().is_empty());
}

#[test]
fn partial_message_to_unknown_object_waits() {
    let mut d = connected();
    d.push_incoming(&vec![99, 0, 0, 0, 0, 0, 16, 0, 1, 2], &vec![]);
    let default = wayland_client::display::EventQueue { id: 0 };
    assert_eq!(d.dispatch_pending(&default).unwrap().len(), 0);
    assert!(d.protocol_error().is_none());
    d.push_incoming(&vec![3, 4, 5, 6, 7, 8], &vec![]);
    assert_eq!(d.dispatch_pending(&default), Err(DispatchError::ProtocolViolation));
}

#[test]
fn dispatch_ready_asks_for_a_read_when_empty() {
    let mut d = connected();
    let a = d.create_object(DISPLAY_ID, 2, 1).unwrap();
    let default = wayland_client::display::EventQueue { id: 0 };
    assert_eq!(d.dispatch_ready(&default), Ok(None));
    let bytes = event_bytes(a, 0, vec![Argument::Int(5)], &protocol()[2].events[0]);
    d.push_incoming(&bytes, &vec![]);
    let evs = d.dispatch_ready(&default).unwrap().unwrap();
    assert_eq!(evs[0].args, vec![Argument::Int(5)]);
}
