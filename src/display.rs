//! The connection state of one client: outgoing and incoming buffers, the
//! object table, the event queues and the latched protocol error.
//!
//! The socket itself is driven from outside: bytes and descriptors read from
//! it are handed to [`Display::push_incoming`], and after writing
//! [`Display::pending_output`] the number of bytes the socket took is handed to
//! [`Display::flush`].
use vstd::prelude::*;
use crate::bytes::{copy_range, word_at};
use crate::objects::{ObjectTable, ObjectInfo, CLIENT_ID_BASE, DISPLAY_ID};
use crate::wire::{values_of, ArgKind, ArgValue, Argument, Message, MessageView, WireError, encode_message, decode_message, peek_header, declared_length, encode_outcome, decode_outcome, declared_opcode, declared_len, len_ok, HEADER_LEN};

verus! {

broadcast use vstd::std_specs::hash::group_hash_axioms;

/// Opcode of the root object's event by which the server reports a protocol error.
pub const ERROR_EVENT_OPCODE: u16 = 0;

/// Error code latched for a violation found while decoding, not reported by the server.
pub const LOCAL_VIOLATION_CODE: u32 = 0;

/// A named, versioned set of request and event signatures.
pub struct Interface {
    pub name: String,
    pub version: u32,
    pub requests: Vec<Vec<ArgKind>>,
    pub events: Vec<Vec<ArgKind>>,
}

/// Why connecting to the server failed.
#[derive(Clone, Copy, Debug, PartialEq, Eq)]
pub enum ConnectError {
    /// The native client library could not be found at run time.
    NoWaylandLib,
    /// The runtime directory variable is not set while it should be.
    XdgRuntimeDirNotSet,
    /// No server is listening on the socket.
    NoCompositorListening,
    /// The socket name is invalid.
    InvalidName,
    /// The file descriptor handed over is invalid.
    InvalidFd,
    /// The protocol's interface table is empty: it lacks the display interface.
    NoInterfaces,
}

/// The sentence that describes a connection error.
pub open spec fn connect_error_text(e: ConnectError) -> Seq<char> {
    match e {
        ConnectError::NoWaylandLib => "Could not find libwayland-client.so."@,
        ConnectError::XdgRuntimeDirNotSet => "XDG_RUNTIME_DIR is not set."@,
        ConnectError::NoCompositorListening => "Could not find a listening wayland compositor."@,
        ConnectError::InvalidName => "The wayland socket name is invalid."@,
        ConnectError::InvalidFd => "The FD provided in WAYLAND_SOCKET is invalid."@,
        ConnectError::NoInterfaces => "The interface table has no display interface."@,
    }
}

impl ConnectError {
    /// A sentence describing the error.
    pub fn description(&self) -> (r: String)
        ensures
            r@ == connect_error_text(*self),
    {
        broadcast use vstd::string::group_string_axioms;
        match self {
            ConnectError::NoWaylandLib => "Could not find libwayland-client.so.".to_string(),
            ConnectError::XdgRuntimeDirNotSet => "XDG_RUNTIME_DIR is not set.".to_string(),
            ConnectError::NoCompositorListening => "Could not find a listening wayland compositor.".to_string(),
            ConnectError::InvalidName => "The wayland socket name is invalid.".to_string(),
            ConnectError::InvalidFd => "The FD provided in WAYLAND_SOCKET is invalid.".to_string(),
            ConnectError::NoInterfaces => "The interface table has no display interface.".to_string(),
        }
    }
}

/// Where to reach the server.
#[derive(Clone, Debug, PartialEq, Eq)]
pub enum SocketSource {
    /// An already connected socket handed over by file descriptor.
    Fd(i32),
    /// The socket named `name` in the runtime directory `runtime_dir`.
    Path { runtime_dir: String, name: String },
}

/// Chooses where to reach the server from the environment's values:
/// `socket_fd` is the inherited-socket variable, if set (`Some(None)` when its
/// text is not a number); then the runtime directory and the display name.
/// An inherited socket wins; otherwise both the directory and the name are needed.
pub fn connect_target(socket_fd: Option<Option<i32>>, runtime_dir: Option<String>, display_name: Option<String>) -> (r: Result<SocketSource, ConnectError>)
    ensures
        socket_fd is Some && socket_fd->0 is Some ==> r == Ok::<SocketSource, ConnectError>(SocketSource::Fd(socket_fd->0->0)),
        socket_fd is Some && socket_fd->0 is None ==> r == Err::<SocketSource, ConnectError>(ConnectError::InvalidFd),
        socket_fd is None && runtime_dir is None ==> r == Err::<SocketSource, ConnectError>(ConnectError::XdgRuntimeDirNotSet),
        socket_fd is None && runtime_dir is Some && display_name is None ==> r == Err::<SocketSource, ConnectError>(ConnectError::NoCompositorListening),
        socket_fd is None && runtime_dir is Some && display_name is Some ==> r is Ok && r->Ok_0 is Path
            && r->Ok_0->runtime_dir@ == runtime_dir->0@ && r->Ok_0->name@ == display_name->0@,
{
    match socket_fd {
        Some(Some(fd)) => Ok(SocketSource::Fd(fd)),
        Some(None) => Err(ConnectError::InvalidFd),
        None => match runtime_dir {
            None => Err(ConnectError::XdgRuntimeDirNotSet),
            Some(dir) => match display_name {
                None => Err(ConnectError::NoCompositorListening),
                Some(name) => Ok(SocketSource::Path { runtime_dir: dir, name }),
            },
        },
    }
}

/// A protocol error: reported by the server, or found while decoding what it sent.
/// Once latched, the connection is dead.
#[derive(Debug)]
pub struct ProtocolError {
    /// The error code, an entry of the error enumeration of the object's interface.
    pub code: u32,
    /// The id of the object that caused the error.
    pub object_id: u32,
    /// The name of the interface of that object.
    pub object_interface: String,
    /// The message describing the error.
    pub message: String,
}

impl ProtocolError {
    /// A short name for this kind of error.
    pub fn description(&self) -> (r: String)
        ensures
            r@ == "Wayland protocol error"@,
    {
        broadcast use vstd::string::group_string_axioms;
        "Wayland protocol error".to_string()
    }
}

impl Clone for ProtocolError {
    fn clone(&self) -> (r: ProtocolError)
        ensures
            r.code == self.code,
            r.object_id == self.object_id,
            r.object_interface@ == self.object_interface@,
            r.message@ == self.message@,
    {
        ProtocolError {
            code: self.code,
            object_id: self.object_id,
            object_interface: self.object_interface.clone(),
            message: self.message.clone(),
        }
    }
}

/// Why a dispatch failed. Either way the connection is dead and
/// [`Display::protocol_error`] tells what happened.
#[derive(Clone, Copy, Debug, PartialEq, Eq)]
pub enum DispatchError {
    /// The server sent something that breaks the protocol, or reported a protocol error.
    ProtocolViolation,
}

/// Why pending output is not fully written.
#[derive(Clone, Copy, Debug, PartialEq, Eq)]
pub enum FlushError {
    /// Bytes remain; the socket did not take them all.
    WouldBlock,
}

/// Why a request could not be queued. None of these harms the connection.
#[derive(Clone, Copy, Debug, PartialEq, Eq)]
pub enum RequestError {
    /// The target object is not live (destroyed, or never created).
    DeadObject,
    /// The target's interface has no request with this opcode.
    UnknownOpcode,
    /// The arguments do not encode against the request's signature.
    Encoding(WireError),
    /// No client id is left.
    IdsExhausted,
    /// The interface index is outside the protocol's table.
    UnknownInterface,
    /// A new-id argument names no object allocated by `create_object`.
    UnallocatedNewId,
}

/// Whether `v`, if it is a new id, names a live object from the client's range.
pub open spec fn new_id_allocated(objs: Map<u32, ObjectInfo>, v: ArgValue) -> bool {
    match v {
        ArgValue::NewId(id) => id >= CLIENT_ID_BASE && objs.contains_key(id),
        _ => true,
    }
}

/// Whether every new-id argument names a live object from the client's range:
/// a request can only create an object that `create_object` allocated first.
pub open spec fn new_ids_allocated(objs: Map<u32, ObjectInfo>, args: Seq<ArgValue>) -> bool {
    forall|i: int| 0 <= i < args.len() ==> #[trigger] new_id_allocated(objs, args[i])
}

/// Handle to one event queue of a display.
#[derive(Clone, Copy, Debug, PartialEq, Eq)]
pub struct EventQueue {
    pub id: usize,
}

/// A connection to a server.
pub struct Display {
    fd: i32,
    interfaces: Vec<Interface>,
    objects: ObjectTable,
    queues: Vec<Vec<Message>>,
    outgoing: Vec<u8>,
    outgoing_fds: Vec<i32>,
    incoming: Vec<u8>,
    incoming_fds: Vec<i32>,
    error: Option<ProtocolError>,
}

/// Text that `String::from_utf8_lossy` makes of the bytes `b`.
pub uninterp spec fn lossy_text(b: Seq<u8>) -> Seq<char>;

/// Relies on `String::from_utf8_lossy`: the text depends on the bytes alone,
/// and no bytes give no text.
#[verifier::external_body]
fn text_of_bytes(b: &Vec<u8>) -> (r: String)
    ensures
        r@ == lossy_text(b@),
        b@.len() == 0 ==> r@.len() == 0,
{
    String::from_utf8_lossy(b.as_slice()).into_owned()
}

pub open spec fn messages_view(q: Seq<Message>) -> Seq<MessageView> {
    q.map_values(|m: Message| m@)
}

/// The receiving side of a connection: live objects, queued events, and the
/// bytes and descriptors received but not yet routed.
pub struct ConnState {
    pub objects: Map<u32, ObjectInfo>,
    pub queues: Seq<Seq<MessageView>>,
    pub incoming: Seq<u8>,
    pub fds: Seq<i32>,
}

impl ConnState {
    /// The object a message at the front of the incoming bytes is aimed at.
    pub open spec fn front_target(&self) -> u32 {
        word_at(self.incoming, 0)
    }

    /// Whether the front message's target is live and has an event with its opcode.
    pub open spec fn front_known(&self, ifaces: Seq<Interface>) -> bool {
        &&& self.incoming.len() >= HEADER_LEN
        &&& self.objects.contains_key(self.front_target())
        &&& (declared_opcode(self.incoming) as int) < ifaces[self.objects[self.front_target()].interface as int].events@.len()
    }

    /// Signature of the event at the front of the incoming bytes.
    pub open spec fn front_sig(&self, ifaces: Seq<Interface>) -> Seq<ArgKind> {
        ifaces[self.objects[self.front_target()].interface as int].events@[declared_opcode(self.incoming) as int]@
    }

    /// What decoding the front of the incoming bytes gives.
    pub open spec fn front_outcome(&self, ifaces: Seq<Interface>) -> Result<Option<(MessageView, nat, nat)>, WireError> {
        decode_outcome(self.incoming, self.fds, self.front_sig(ifaces))
    }

    /// Whether the front message is aimed at the root object's error event.
    pub open spec fn front_is_error_opcode(&self) -> bool {
        self.front_target() == DISPLAY_ID && declared_opcode(self.incoming) == ERROR_EVENT_OPCODE
    }

    /// Whether the front message decodes to the server's error event, with an
    /// object, a code and a message.
    pub open spec fn front_is_error_event(&self, ifaces: Seq<Interface>) -> bool {
        &&& self.front_known(ifaces)
        &&& self.front_is_error_opcode()
        &&& self.front_outcome(ifaces) is Ok
        &&& self.front_outcome(ifaces)->Ok_0 is Some
        &&& ({
            let args = self.front_outcome(ifaces)->Ok_0->Some_0.0.args;
            &&& args.len() == 3
            &&& args[0] is Object
            &&& args[1] is Uint
            &&& args[2] is Str
        })
    }

    /// The protocol error that the server's error event at the front reports.
    pub open spec fn front_error(&self, ifaces: Seq<Interface>) -> (u32, u32, Seq<char>, Seq<char>) {
        let args = self.front_outcome(ifaces)->Ok_0->Some_0.0.args;
        let oid = args[0]->Object_0;
        let name = if self.objects.contains_key(oid) {
            ifaces[self.objects[oid].interface as int].name@
        } else {
            Seq::<char>::empty()
        };
        (args[1]->Uint_0, oid, name, lossy_text(args[2]->Str_0))
    }
}

/// Binds, from slot `i` on, the objects that the new-id arguments of an event
/// create, in the queue and at the version of the event's target (`parent`).
/// `None` when one is not a server id, is already bound, or names an interface
/// outside a table of `n_ifaces` entries.
pub open spec fn bind_new_ids(objs: Map<u32, ObjectInfo>, args: Seq<ArgValue>, sig: Seq<ArgKind>, i: int, parent: ObjectInfo, n_ifaces: nat) -> Option<Map<u32, ObjectInfo>>
    decreases args.len() - i,
{
    if i >= args.len() || i < 0 {
        Some(objs)
    } else {
        let next = if i < sig.len() {
            match (args[i], sig[i]) {
                (ArgValue::NewId(nid), ArgKind::NewId { interface }) => {
                    if nid != 0 && nid < CLIENT_ID_BASE && interface < n_ifaces && !objs.contains_key(nid) {
                        Some(objs.insert(nid, ObjectInfo { interface, version: parent.version, queue: parent.queue }))
                    } else {
                        None
                    }
                },
                _ => Some(objs),
            }
        } else {
            Some(objs)
        };
        match next {
            Some(o) => bind_new_ids(o, args, sig, i + 1, parent, n_ifaces),
            None => None,
        }
    }
}

/// What routing the front of the incoming bytes does.
pub enum Step {
    /// No whole message is there yet.
    Drained,
    /// One message was routed; the state after it.
    Routed(ConnState),
    /// The front message breaks the protocol, or is the server's error event.
    Violation,
}

/// One routing step: wait while the front message is incomplete, then decode
/// it against its target's event signature, bind the objects it creates, append it to its target's queue.
pub open spec fn step(s: ConnState, ifaces: Seq<Interface>) -> Step {
    if s.incoming.len() < HEADER_LEN {
        Step::Drained
    } else if !len_ok(declared_len(s.incoming)) {
        Step::Violation
    } else if declared_len(s.incoming) > s.incoming.len() {
        Step::Drained
    } else if !s.front_known(ifaces) {
        Step::Violation
    } else {
        match s.front_outcome(ifaces) {
            Ok(None) => Step::Drained,
            Err(_) => Step::Violation,
            Ok(Some((mv, n, k))) => {
                if s.front_is_error_opcode() {
                    Step::Violation
                } else {
                    let parent = s.objects[s.front_target()];
                    match bind_new_ids(s.objects, mv.args, s.front_sig(ifaces), 0, parent, ifaces.len()) {
                        None => Step::Violation,
                        Some(objs) => Step::Routed(ConnState {
                            objects: objs,
                            queues: s.queues.update(parent.queue as int, s.queues[parent.queue as int].push(mv)),
                            incoming: s.incoming.skip(n as int),
                            fds: s.fds.skip(k as int),
                        }),
                    }
                }
            },
        }
    }
}

/// Routes every whole message of the incoming bytes, in stream order.
/// `Ok` with the state once no whole message is left, or `Err` with the state
/// just before the first message that breaks the protocol.
pub open spec fn replay(s: ConnState, ifaces: Seq<Interface>) -> Result<ConnState, ConnState>
    decreases s.incoming.len(),
{
    match step(s, ifaces) {
        Step::Drained => Ok(s),
        Step::Violation => Err(s),
        Step::Routed(next) => {
            if next.incoming.len() < s.incoming.len() {
                replay(next, ifaces)
            } else {
                Err(s)
            }
        },
    }
}

/// Routing never reorders or drops queued events: after a replay that
/// succeeds, every queue still starts with what it held before, in the same
/// order, and only events appended after them follow.
pub proof fn lemma_replay_keeps_queue_order(s: ConnState, ifaces: Seq<Interface>)
    requires
        forall|i: u32| #[trigger] s.objects.contains_key(i) ==> (s.objects[i].queue as int) < s.queues.len(),
        replay(s, ifaces) is Ok,
    ensures
        replay(s, ifaces)->Ok_0.queues.len() == s.queues.len(),
        forall|q: int| 0 <= q < s.queues.len() ==> s.queues[q].is_prefix_of(#[trigger] replay(s, ifaces)->Ok_0.queues[q]),
    decreases s.incoming.len(),
{
    match step(s, ifaces) {
        Step::Drained => {},
        Step::Violation => {},
        Step::Routed(next) => {
            let parent = s.objects[s.front_target()];
            assert(forall|i: u32| #[trigger] next.objects.contains_key(i) ==> (next.objects[i].queue as int) < next.queues.len()) by {
                lemma_bind_keeps_queues(s.objects, s.front_outcome(ifaces)->Ok_0->Some_0.0.args, s.front_sig(ifaces), 0, parent, ifaces.len(), s.queues.len());
            }
            lemma_replay_keeps_queue_order(next, ifaces);
            assert forall|q: int| 0 <= q < s.queues.len() implies s.queues[q].is_prefix_of(#[trigger] replay(s, ifaces)->Ok_0.queues[q]) by {
                assert(s.queues[q].is_prefix_of(next.queues[q]));
                assert(next.queues[q].is_prefix_of(replay(next, ifaces)->Ok_0.queues[q]));
            }
        },
    }
}

/// Routing delivers what was encoded: when the incoming bytes start with an
/// event encoded against its live target's signature (its descriptors at the
/// front of the descriptor queue), one step appends exactly that event to the
/// target's queue and consumes exactly its bytes and descriptors.
pub proof fn lemma_encoded_event_is_routed(s: ConnState, ifaces: Seq<Interface>, m: MessageView, rest_bytes: Seq<u8>, rest_fds: Seq<i32>)
    requires
        s.objects.contains_key(m.object_id),
        (m.opcode as int) < ifaces[s.objects[m.object_id].interface as int].events@.len(),
        !(m.object_id == DISPLAY_ID && m.opcode == ERROR_EVENT_OPCODE),
        encode_outcome(m, ifaces[s.objects[m.object_id].interface as int].events@[m.opcode as int]@) is Ok,
        ({
            let (b, f) = encode_outcome(m, ifaces[s.objects[m.object_id].interface as int].events@[m.opcode as int]@)->Ok_0;
            s.incoming == b + rest_bytes && s.fds == f + rest_fds
        }),
        bind_new_ids(s.objects, m.args, ifaces[s.objects[m.object_id].interface as int].events@[m.opcode as int]@, 0, s.objects[m.object_id], ifaces.len()) is Some,
    ensures
        step(s, ifaces) is Routed,
        ({
            let next = step(s, ifaces)->Routed_0;
            let t = s.objects[m.object_id].queue as int;
            let (b, f) = encode_outcome(m, ifaces[s.objects[m.object_id].interface as int].events@[m.opcode as int]@)->Ok_0;
            &&& next.queues == s.queues.update(t, s.queues[t].push(m))
            &&& next.incoming == rest_bytes
            &&& next.fds == rest_fds
        }),
{
    let sig = ifaces[s.objects[m.object_id].interface as int].events@[m.opcode as int]@;
    let (b, f) = encode_outcome(m, sig)->Ok_0;
    crate::wire::lemma_round_trip_sequence(m, sig, rest_bytes, rest_fds);
    assert(s.front_target() == m.object_id);
    assert(declared_opcode(s.incoming) == m.opcode);
    assert(s.front_sig(ifaces) == sig);
}

proof fn lemma_bind_keeps_queues(objs: Map<u32, ObjectInfo>, args: Seq<ArgValue>, sig: Seq<ArgKind>, i: int, parent: ObjectInfo, n_ifaces: nat, nq: nat)
    requires
        (parent.queue as int) < nq,
        forall|k: u32| #[trigger] objs.contains_key(k) ==> (objs[k].queue as int) < nq,
    ensures
        bind_new_ids(objs, args, sig, i, parent, n_ifaces) is Some ==> forall|k: u32| #[trigger] bind_new_ids(objs, args, sig, i, parent, n_ifaces)->Some_0.contains_key(k)
            ==> (bind_new_ids(objs, args, sig, i, parent, n_ifaces)->Some_0[k].queue as int) < nq,
    decreases args.len() - i,
{
    if i >= 0 && i < args.len() {
        if i < sig.len() {
            match (args[i], sig[i]) {
                (ArgValue::NewId(nid), ArgKind::NewId { interface }) => {
                    if nid != 0 && nid < CLIENT_ID_BASE && interface < n_ifaces && !objs.contains_key(nid) {
                        let o = objs.insert(nid, ObjectInfo { interface, version: parent.version, queue: parent.queue });
                        lemma_bind_keeps_queues(o, args, sig, i + 1, parent, n_ifaces, nq);
                    }
                },
                _ => { lemma_bind_keeps_queues(objs, args, sig, i + 1, parent, n_ifaces, nq); },
            }
        } else {
            lemma_bind_keeps_queues(objs, args, sig, i + 1, parent, n_ifaces, nq);
        }
    }
}

impl Display {
    pub closed spec fn wf(&self) -> bool {
        &&& self.objects.wf()
        &&& self.queues@.len() >= 1
        &&& forall|id: u32| #[trigger] self.objects@.contains_key(id) ==> {
            &&& self.objects@[id].interface < self.interfaces@.len()
            &&& self.objects@[id].queue < self.queues@.len()
        }
    }

    /// The live objects.
    pub closed spec fn objects_view(&self) -> Map<u32, ObjectInfo> {
        self.objects@
    }

    /// The next client id the object table will hand out.
    pub closed spec fn next_client_id(&self) -> u32 {
        self.objects.next_id()
    }

    /// Number of event queues.
    pub closed spec fn queue_count(&self) -> nat {
        self.queues@.len()
    }

    /// Events waiting in queue `q`, oldest first.
    pub closed spec fn queue_view(&self, q: int) -> Seq<MessageView> {
        messages_view(self.queues@[q]@)
    }

    /// Bytes not yet written to the socket.
    pub closed spec fn outgoing_view(&self) -> Seq<u8> {
        self.outgoing@
    }

    /// Descriptors not yet passed to the socket.
    pub closed spec fn outgoing_fds_view(&self) -> Seq<i32> {
        self.outgoing_fds@
    }

    /// Bytes read from the socket that do not form a whole message yet.
    pub closed spec fn incoming_view(&self) -> Seq<u8> {
        self.incoming@
    }

    /// Descriptors received and not yet taken by a message.
    pub closed spec fn incoming_fds_view(&self) -> Seq<i32> {
        self.incoming_fds@
    }

    /// Whether a protocol error is latched.
    pub closed spec fn is_dead(&self) -> bool {
        self.error is Some
    }

    /// The latched protocol error: code, object id, interface name and message.
    pub closed spec fn latched(&self) -> (u32, u32, Seq<char>, Seq<char>) {
        let e = self.error->Some_0;
        (e.code, e.object_id, e.object_interface@, e.message@)
    }

    /// The interface table.
    pub closed spec fn interfaces_view(&self) -> Seq<Interface> {
        self.interfaces@
    }

    pub closed spec fn connection_fd(&self) -> i32 {
        self.fd
    }

    /// The model of the receiving side holds exactly what the views show, and a
    /// well-formed display has its default queue.
    pub proof fn lemma_model_views(&self)
        ensures
            self.model().objects == self.objects_view(),
            self.model().incoming == self.incoming_view(),
            self.model().fds == self.incoming_fds_view(),
            self.model().queues.len() == self.queue_count(),
            forall|i: int| 0 <= i < self.queue_count() ==> #[trigger] self.model().queues[i] == self.queue_view(i),
            self.wf() ==> self.queue_count() >= 1,
    {
    }

    /// The receiving side of the connection as a value.
    pub closed spec fn model(&self) -> ConnState {
        ConnState {
            objects: self.objects@,
            queues: self.queues@.map_values(|q: Vec<Message>| messages_view(q@)),
            incoming: self.incoming@,
            fds: self.incoming_fds@,
        }
    }

    /// Starts a connection over the already connected socket `fd`, with the
    /// protocol's interface table, whose first entry is the root display
    /// interface. The root object is live at id 1, in the default queue 0.
    pub fn from_fd(fd: i32, interfaces: Vec<Interface>) -> (r: Result<Display, ConnectError>)
        ensures
            fd < 0 <==> r == Err::<Display, ConnectError>(ConnectError::InvalidFd),
            fd >= 0 && interfaces@.len() == 0 <==> r == Err::<Display, ConnectError>(ConnectError::NoInterfaces),
            fd >= 0 && interfaces@.len() >= 1 <==> r is Ok,
            r is Ok ==> {
                let d = r->Ok_0;
                &&& d.wf()
                &&& !d.is_dead()
                &&& d.connection_fd() == fd
                &&& d.queue_count() == 1
                &&& d.queue_view(0).len() == 0
                &&& d.objects_view() == Map::<u32, ObjectInfo>::empty().insert(DISPLAY_ID, ObjectInfo { interface: 0, version: interfaces@[0].version, queue: 0 })
                &&& d.outgoing_view().len() == 0
                &&& d.outgoing_fds_view().len() == 0
                &&& d.incoming_view().len() == 0
                &&& d.incoming_fds_view().len() == 0
                &&& d.interfaces_view() == interfaces@
            },
    {
        if fd < 0 {
            return Err(ConnectError::InvalidFd);
        }
        if interfaces.len() == 0 {
            return Err(ConnectError::NoInterfaces);
        }
        let mut objects = ObjectTable::new();
        let version = interfaces[0].version;
        let _ = objects.register(DISPLAY_ID, ObjectInfo { interface: 0, version, queue: 0 });
        let mut queues: Vec<Vec<Message>> = Vec::new();
        queues.push(Vec::new());
        let d = Display {
            fd,
            interfaces,
            objects,
            queues,
            outgoing: Vec::new(),
            outgoing_fds: Vec::new(),
            incoming: Vec::new(),
            incoming_fds: Vec::new(),
            error: None,
        };
        assert(d.queue_view(0) =~= Seq::<MessageView>::empty());
        Ok(d)
    }

    /// The socket's file descriptor, for readiness polling only.
    pub fn get_connection_fd(&self) -> (r: i32)
        ensures
            r == self.connection_fd(),
    {
        self.fd
    }

    /// Creates a new, empty event queue.
    pub fn create_event_queue(&mut self) -> (q: EventQueue)
        requires
            old(self).wf(),
        ensures
            final(self).wf(),
            q.id == old(self).queue_count(),
            final(self).queue_count() == old(self).queue_count() + 1,
            final(self).queue_view(q.id as int).len() == 0,
            forall|i: int| 0 <= i < old(self).queue_count() ==> final(self).queue_view(i) == old(self).queue_view(i),
            final(self).objects_view() == old(self).objects_view(),
            final(self).is_dead() == old(self).is_dead(),
            final(self).outgoing_view() == old(self).outgoing_view(),
            final(self).incoming_view() == old(self).incoming_view(),
            final(self).latched() == old(self).latched(),
            final(self).connection_fd() == old(self).connection_fd(),
            final(self).interfaces_view() == old(self).interfaces_view(),
            final(self).incoming_fds_view() == old(self).incoming_fds_view(),
            final(self).outgoing_fds_view() == old(self).outgoing_fds_view(),
            q.id >= 1,
    {
        let id = self.queues.len();
        self.queues.push(Vec::new());
        assert(self.queue_view(id as int) =~= Seq::<MessageView>::empty());
        EventQueue { id }
    }

    /// Whether `q` names an event queue of this display.
    pub fn has_queue(&self, q: &EventQueue) -> (r: bool)
        ensures
            r == (q.id < self.queue_count()),
    {
        q.id < self.queues.len()
    }

    /// The latched protocol error, if any.
    pub fn protocol_error(&self) -> (r: Option<ProtocolError>)
        ensures
            r is Some <==> self.is_dead(),
            r is Some ==> (r->0.code, r->0.object_id, r->0.object_interface@, r->0.message@) == self.latched(),
    {
        match &self.error {
            Some(e) => Some(e.clone()),
            None => None,
        }
    }

    /// Bytes waiting to be written to the socket.
    pub fn pending_output(&self) -> (r: &Vec<u8>)
        ensures
            r@ == self.outgoing_view(),
    {
        &self.outgoing
    }

    /// Descriptors to pass beside the next bytes written.
    pub fn pending_fds(&self) -> (r: &Vec<i32>)
        ensures
            r@ == self.outgoing_fds_view(),
    {
        &self.outgoing_fds
    }

    /// Records that the socket took the first `written` bytes of the pending
    /// output (and, when it took any, the pending descriptors with them).
    /// Success when nothing is left to write, `WouldBlock` otherwise.
    pub fn flush(&mut self, written: usize) -> (r: Result<(), FlushError>)
        requires
            old(self).wf(),
            written <= old(self).outgoing_view().len(),
        ensures
            final(self).wf(),
            final(self).outgoing_view() == old(self).outgoing_view().skip(written as int),
            written > 0 ==> final(self).outgoing_fds_view().len() == 0,
            written == 0 ==> final(self).outgoing_fds_view() == old(self).outgoing_fds_view(),
            r is Ok <==> written == old(self).outgoing_view().len(),
            r is Err ==> r == Err::<(), FlushError>(FlushError::WouldBlock),
            old(self).outgoing_view().len() == 0 ==> r is Ok && final(self).outgoing_view() == old(self).outgoing_view(),
            final(self).objects_view() == old(self).objects_view(),
            final(self).queue_count() == old(self).queue_count(),
            forall|i: int| 0 <= i < old(self).queue_count() ==> final(self).queue_view(i) == old(self).queue_view(i),
            final(self).is_dead() == old(self).is_dead(),
            final(self).incoming_view() == old(self).incoming_view(),
            final(self).latched() == old(self).latched(),
            final(self).connection_fd() == old(self).connection_fd(),
            final(self).interfaces_view() == old(self).interfaces_view(),
            final(self).incoming_fds_view() == old(self).incoming_fds_view(),
            final(self).model() == old(self).model(),
    {
        if written > 0 {
            let len = self.outgoing.len();
            self.outgoing = copy_range(&self.outgoing, written, len);
            self.outgoing_fds = Vec::new();
        }
        assert(old(self).outgoing_view().skip(0) =~= old(self).outgoing_view());
        assert(self.outgoing@ =~= old(self).outgoing@.skip(written as int));
        if self.outgoing.len() == 0 {
            Ok(())
        } else {
            Err(FlushError::WouldBlock)
        }
    }

    /// Latches `e` as the connection's protocol error; a latched error stays.
    fn latch(&mut self, e: ProtocolError)
        requires
            old(self).wf(),
        ensures
            final(self).wf(),
            final(self).is_dead(),
            old(self).is_dead() ==> final(self).latched() == old(self).latched(),
            !old(self).is_dead() ==> final(self).latched() == (e.code, e.object_id, e.object_interface@, e.message@),
            final(self).objects_view() == old(self).objects_view(),
            final(self).queue_count() == old(self).queue_count(),
            forall|i: int| 0 <= i < old(self).queue_count() ==> final(self).queue_view(i) == old(self).queue_view(i),
            final(self).outgoing_view() == old(self).outgoing_view(),
            final(self).incoming_view() == old(self).incoming_view(),
            final(self).incoming_fds_view() == old(self).incoming_fds_view(),
            final(self).interfaces_view() == old(self).interfaces_view(),
            final(self).outgoing_fds_view() == old(self).outgoing_fds_view(),
            final(self).connection_fd() == old(self).connection_fd(),
    {
        if self.error.is_none() {
            self.error = Some(e);
        }
    }

    /// Latches a violation found in a message aimed at `object_id`.
    fn latch_local(&mut self, object_id: u32, message: String)
        requires
            old(self).wf(),
        ensures
            final(self).wf(),
            final(self).is_dead(),
            final(self).objects_view() == old(self).objects_view(),
            final(self).queue_count() == old(self).queue_count(),
            forall|i: int| 0 <= i < old(self).queue_count() ==> final(self).queue_view(i) == old(self).queue_view(i),
            final(self).outgoing_view() == old(self).outgoing_view(),
            final(self).incoming_view() == old(self).incoming_view(),
            final(self).incoming_fds_view() == old(self).incoming_fds_view(),
            final(self).interfaces_view() == old(self).interfaces_view(),
            final(self).outgoing_fds_view() == old(self).outgoing_fds_view(),
            final(self).connection_fd() == old(self).connection_fd(),
    {
        let object_interface = match self.objects.resolve(object_id) {
            Some(info) => self.interfaces[info.interface].name.clone(),
            None => String::new(),
        };
        self.latch(ProtocolError { code: LOCAL_VIOLATION_CODE, object_id, object_interface, message });
    }

    /// Decodes the message at the front of the incoming bytes and appends it to
    /// its target's queue, binding the objects it creates: one [`step`].
    /// `Ok(false)` when no whole message is there yet. A violation, or the
    /// server's error event, latches the protocol error.
    pub fn route_one(&mut self) -> (r: Result<bool, DispatchError>)
        requires
            old(self).wf(),
            !old(self).is_dead(),
        ensures
            final(self).wf(),
            r is Err <==> final(self).is_dead(),
            r is Err ==> r == Err::<bool, DispatchError>(DispatchError::ProtocolViolation),
            final(self).queue_count() == old(self).queue_count(),
            final(self).interfaces_view() == old(self).interfaces_view(),
            final(self).outgoing_view() == old(self).outgoing_view(),
            final(self).outgoing_fds_view() == old(self).outgoing_fds_view(),
            final(self).connection_fd() == old(self).connection_fd(),
            step(old(self).model(), old(self).interfaces_view()) is Drained
                ==> r == Ok::<bool, DispatchError>(false) && final(self).model() == old(self).model(),
            step(old(self).model(), old(self).interfaces_view()) is Routed ==> {
                &&& r == Ok::<bool, DispatchError>(true)
                &&& final(self).model() == step(old(self).model(), old(self).interfaces_view())->Routed_0
                &&& final(self).incoming_view().len() < old(self).incoming_view().len()
            },
            step(old(self).model(), old(self).interfaces_view()) is Violation ==> r is Err,
            old(self).model().front_is_error_event(old(self).interfaces_view())
                ==> final(self).latched() == old(self).model().front_error(old(self).interfaces_view()),
            forall|key: u32| #[trigger] old(self).objects_view().contains_key(key) ==> final(self).objects_view().contains_key(key) && final(self).objects_view()[key] == old(self).objects_view()[key],
    {
        let ghost s0 = self.model();
        let ghost ifaces = self.interfaces@;
        let (id, opcode) = match peek_header(&self.incoming) {
            None => return Ok(false),
            Some(h) => h,
        };
        let len32 = declared_length(&self.incoming);
        if len32 < 8 || len32 % 4 != 0 {
            self.latch_local(id, "malformed message length".to_string());
            return Err(DispatchError::ProtocolViolation);
        }
        if len32 as usize > self.incoming.len() {
            return Ok(false);
        }
        let info = match self.objects.resolve(id) {
            None => {
                self.latch_local(id, "message to an unknown object".to_string());
                return Err(DispatchError::ProtocolViolation);
            },
            Some(i) => i,
        };
        let op = opcode as usize;
        if op >= self.interfaces[info.interface].events.len() {
            self.latch_local(id, "unknown event opcode".to_string());
            return Err(DispatchError::ProtocolViolation);
        }
        let sig = copy_range(&self.interfaces[info.interface].events[op], 0, self.interfaces[info.interface].events[op].len());
        assert(sig@ =~= s0.front_sig(ifaces));
        let decoded = decode_message(&self.incoming, &self.incoming_fds, &sig);
        let (m, n, k) = match decoded {
            Ok(None) => return Ok(false),
            Err(_) => {
                self.latch_local(id, "malformed message".to_string());
                return Err(DispatchError::ProtocolViolation);
            },
            Ok(Some(t)) => t,
        };
        if id == DISPLAY_ID && opcode == ERROR_EVENT_OPCODE {
            let e = if m.args.len() == 3 {
                match (&m.args[0], &m.args[1], &m.args[2]) {
                    (Argument::Object(oid), Argument::Uint(code), Argument::Str(text)) => {
                        let object_interface = match self.objects.resolve(*oid) {
                            Some(oi) => self.interfaces[oi.interface].name.clone(),
                            None => String::new(),
                        };
                        ProtocolError { code: *code, object_id: *oid, object_interface, message: text_of_bytes(text) }
                    },
                    _ => ProtocolError { code: LOCAL_VIOLATION_CODE, object_id: id, object_interface: String::new(), message: "malformed error event".to_string() },
                }
            } else {
                ProtocolError { code: LOCAL_VIOLATION_CODE, object_id: id, object_interface: String::new(), message: "malformed error event".to_string() }
            };
            self.latch(e);
            return Err(DispatchError::ProtocolViolation);
        }
        assert(!s0.front_is_error_event(ifaces));
        let ghost mv = m@;
        let ghost n_ifaces = ifaces.len();
        assert(s0.front_target() == id && s0.objects[s0.front_target()] == info);
        assert(s0.front_known(ifaces));
        assert(s0.front_outcome(ifaces) == Ok::<Option<(MessageView, nat, nat)>, WireError>(Some((mv, n as nat, k as nat))));
        assert(!s0.front_is_error_opcode());
        let mut i: usize = 0;
        while i < m.args.len()
            invariant
                self.wf(),
                !self.is_dead(),
                !s0.front_is_error_event(ifaces),
                s0 == old(self).model(),
                ifaces == old(self).interfaces@,
                mv == m@,
                n_ifaces == ifaces.len(),
                sig@ == s0.front_sig(ifaces),
                info == s0.objects[s0.front_target()],
                s0.front_known(ifaces),
                !s0.front_is_error_opcode(),
                s0.front_outcome(ifaces) == Ok::<Option<(MessageView, nat, nat)>, WireError>(Some((mv, n as nat, k as nat))),
                n <= old(self).incoming@.len(),
                k <= old(self).incoming_fds@.len(),
                n >= HEADER_LEN,
                i <= m.args@.len(),
                self.objects@.contains_key(id),
                self.objects@[id] == info,
                self.incoming@ == old(self).incoming@,
                self.incoming_fds@ == old(self).incoming_fds@,
                self.queues@ == old(self).queues@,
                self.interfaces@ == old(self).interfaces@,
                self.outgoing@ == old(self).outgoing@,
                self.outgoing_fds@ == old(self).outgoing_fds@,
                self.fd == old(self).fd,
                info.queue < self.queues@.len(),
                bind_new_ids(s0.objects, mv.args, sig@, 0, info, n_ifaces) == bind_new_ids(self.objects@, mv.args, sig@, i as int, info, n_ifaces),
                forall|key: u32| #[trigger] old(self).objects@.contains_key(key) ==> self.objects@.contains_key(key) && self.objects@[key] == old(self).objects@[key],
            decreases m.args@.len() - i,
        {
            assert(mv.args[i as int] == m.args@[i as int]@);
            let ghost prev = self.objects@;
            if i < sig.len() {
                match (&m.args[i], sig[i]) {
                    (Argument::NewId(nid), ArgKind::NewId { interface }) => {
                        if *nid >= CLIENT_ID_BASE || interface >= self.interfaces.len() {
                            assert(bind_new_ids(prev, mv.args, sig@, i as int, info, n_ifaces) is None);
                            self.latch_local(id, "invalid new object".to_string());
                            return Err(DispatchError::ProtocolViolation);
                        }
                        let reg = self.objects.register(*nid, ObjectInfo { interface, version: info.version, queue: info.queue });
                        assert forall|key: u32| #[trigger] old(self).objects@.contains_key(key) implies self.objects@.contains_key(key)
                            && self.objects@[key] == old(self).objects@[key] by {
                            assert(prev.contains_key(key));
                        }
                        if reg.is_err() {
                            assert(bind_new_ids(prev, mv.args, sig@, i as int, info, n_ifaces) is None);
                            self.latch_local(id, "new object id already in use".to_string());
                            return Err(DispatchError::ProtocolViolation);
                        }
                    },
                    _ => {},
                }
            }
            i = i + 1;
        }
        let len = self.incoming.len();
        self.incoming = copy_range(&self.incoming, n, len);
        let flen = self.incoming_fds.len();
        self.incoming_fds = copy_range(&self.incoming_fds, k, flen);
        let ghost before = self.queues@[info.queue as int]@;
        self.queues[info.queue].push(m);
        assert(messages_view(self.queues@[info.queue as int]@) =~= messages_view(before).push(mv));
        assert(self.model().queues =~= s0.queues.update(info.queue as int, s0.queues[info.queue as int].push(mv)));
        assert(self.incoming@ =~= s0.incoming.skip(n as int));
        assert(self.incoming_fds@ =~= s0.fds.skip(k as int));
        assert(bind_new_ids(s0.objects, mv.args, sig@, 0, info, n_ifaces) == Some(self.objects@));
        assert(step(s0, ifaces) == Step::Routed(self.model()));
        Ok(true)
    }

    /// Routes every whole message of the incoming bytes to its queue, in stream
    /// order (a [`replay`]), then hands out the events of queue `q`, oldest
    /// first, and empties it. Never reads the socket. Once a protocol error is
    /// latched, this and every later dispatch fails.
    pub fn dispatch_pending(&mut self, q: &EventQueue) -> (r: Result<Vec<Message>, DispatchError>)
        requires
            old(self).wf(),
            q.id < old(self).queue_count(),
        ensures
            final(self).wf(),
            final(self).queue_count() == old(self).queue_count(),
            final(self).interfaces_view() == old(self).interfaces_view(),
            final(self).outgoing_view() == old(self).outgoing_view(),
            final(self).outgoing_fds_view() == old(self).outgoing_fds_view(),
            final(self).connection_fd() == old(self).connection_fd(),
            r is Err <==> final(self).is_dead(),
            r is Err ==> r == Err::<Vec<Message>, DispatchError>(DispatchError::ProtocolViolation),
            old(self).is_dead() ==> {
                &&& r is Err
                &&& final(self).latched() == old(self).latched()
                &&& final(self).model() == old(self).model()
            },
            !old(self).is_dead() ==> (r is Ok <==> replay(old(self).model(), old(self).interfaces_view()) is Ok),
            !old(self).is_dead() && r is Ok ==> ({
                let s = replay(old(self).model(), old(self).interfaces_view())->Ok_0;
                &&& messages_view(r->Ok_0@) == s.queues[q.id as int]
                &&& final(self).model() == ConnState { queues: s.queues.update(q.id as int, Seq::empty()), ..s }
            }),
            !old(self).is_dead() && r is Err ==> ({
                let s = replay(old(self).model(), old(self).interfaces_view())->Err_0;
                s.front_is_error_event(old(self).interfaces_view()) ==> final(self).latched() == s.front_error(old(self).interfaces_view())
            }),
            forall|key: u32| #[trigger] old(self).objects_view().contains_key(key) ==> final(self).objects_view().contains_key(key) && final(self).objects_view()[key] == old(self).objects_view()[key],
    {
        if self.error.is_some() {
            return Err(DispatchError::ProtocolViolation);
        }
        let ghost ifaces = self.interfaces@;
        let mut more = true;
        while more
            invariant
                self.wf(),
                !self.is_dead(),
                !old(self).is_dead(),
                ifaces == old(self).interfaces@,
                self.interfaces@ == ifaces,
                self.outgoing@ == old(self).outgoing@,
                self.outgoing_fds@ == old(self).outgoing_fds@,
                self.fd == old(self).fd,
                self.queue_count() == old(self).queue_count(),
                q.id < self.queue_count(),
                replay(self.model(), ifaces) == replay(old(self).model(), ifaces),
                !more ==> step(self.model(), ifaces) is Drained,
                forall|key: u32| #[trigger] old(self).objects@.contains_key(key) ==> self.objects@.contains_key(key) && self.objects@[key] == old(self).objects@[key],
            decreases self.incoming_view().len() + (if more { 1int } else { 0int }),
        {
            let ghost before = self.model();
            let ghost before_d = *self;
            let r1 = self.route_one();
            assert forall|key: u32| #[trigger] old(self).objects@.contains_key(key) implies self.objects@.contains_key(key)
                && self.objects@[key] == old(self).objects@[key] by {
                assert(before_d.objects_view().contains_key(key));
            }
            match r1 {
                Ok(true) => {
                    assert(replay(before, ifaces) == replay(self.model(), ifaces));
                },
                Ok(false) => {
                    more = false;
                },
                Err(e) => {
                    assert(replay(before, ifaces) == Err::<ConnState, ConnState>(before));
                    return Err(e);
                },
            }
        }
        assert(replay(self.model(), ifaces) == Ok::<ConnState, ConnState>(self.model()));
        let ghost pre = self.model();
        let mut out: Vec<Message> = Vec::new();
        std::mem::swap(&mut self.queues[q.id], &mut out);
        assert(messages_view(out@) == pre.queues[q.id as int]);
        assert(messages_view(self.queues@[q.id as int]@) =~= Seq::<MessageView>::empty());
        assert(self.model().queues =~= pre.queues.update(q.id as int, Seq::empty()));
        Ok(out)
    }

    /// One round of a blocking dispatch: routes what arrived and hands out the
    /// events of queue `q` when there are any; `Ok(None)` tells the caller to
    /// read the socket and try again.
    pub fn dispatch_ready(&mut self, q: &EventQueue) -> (r: Result<Option<Vec<Message>>, DispatchError>)
        requires
            old(self).wf(),
            q.id < old(self).queue_count(),
        ensures
            final(self).wf(),
            final(self).queue_count() == old(self).queue_count(),
            final(self).interfaces_view() == old(self).interfaces_view(),
            final(self).outgoing_view() == old(self).outgoing_view(),
            r is Err <==> final(self).is_dead(),
            old(self).is_dead() ==> r is Err && final(self).latched() == old(self).latched(),
            !old(self).is_dead() ==> (r is Ok <==> replay(old(self).model(), old(self).interfaces_view()) is Ok),
            !old(self).is_dead() && r is Ok ==> ({
                let s = replay(old(self).model(), old(self).interfaces_view())->Ok_0;
                &&& final(self).model() == ConnState { queues: s.queues.update(q.id as int, Seq::empty()), ..s }
                &&& (r->Ok_0 is None <==> s.queues[q.id as int].len() == 0)
                &&& r->Ok_0 is Some ==> messages_view(r->Ok_0->0@) == s.queues[q.id as int]
            }),
    {
        match self.dispatch_pending(q) {
            Err(e) => Err(e),
            Ok(events) => {
                if events.len() == 0 {
                    Ok(None)
                } else {
                    Ok(Some(events))
                }
            },
        }
    }

    /// The live object bound to `id`, if any.
    pub fn resolve(&self, id: u32) -> (r: Option<ObjectInfo>)
        ensures
            r == (if self.objects_view().contains_key(id) { Some(self.objects_view()[id]) } else { None::<ObjectInfo> }),
    {
        self.objects.resolve(id)
    }

    /// Whether every new-id argument names an object that `create_object` allocated and bound.
    fn new_ids_are_allocated(&self, args: &Vec<Argument>) -> (r: bool)
        ensures
            r == new_ids_allocated(self.objects_view(), values_of(args@)),
    {
        let mut i: usize = 0;
        while i < args.len()
            invariant
                i <= args@.len(),
                forall|j: int| 0 <= j < i ==> #[trigger] new_id_allocated(self.objects_view(), values_of(args@)[j]),
            decreases args@.len() - i,
        {
            match &args[i] {
                Argument::NewId(id) => {
                    if *id < CLIENT_ID_BASE || self.objects.resolve(*id).is_none() {
                        assert(!new_id_allocated(self.objects_view(), values_of(args@)[i as int]));
                        return false;
                    }
                },
                _ => {},
            }
            assert(new_id_allocated(self.objects_view(), values_of(args@)[i as int]));
            i = i + 1;
        }
        true
    }

    /// Encodes the request `msg` against its target's signature and queues its
    /// bytes and descriptors for the next flush. Does not write to the socket.
    pub fn send_request(&mut self, msg: &Message) -> (r: Result<(), RequestError>)
        requires
            old(self).wf(),
        ensures
            final(self).wf(),
            final(self).objects_view() == old(self).objects_view(),
            final(self).queue_count() == old(self).queue_count(),
            forall|i: int| 0 <= i < old(self).queue_count() ==> final(self).queue_view(i) == old(self).queue_view(i),
            final(self).is_dead() == old(self).is_dead(),
            final(self).incoming_view() == old(self).incoming_view(),
            final(self).interfaces_view() == old(self).interfaces_view(),
            !old(self).objects_view().contains_key(msg.object_id) <==> r == Err::<(), RequestError>(RequestError::DeadObject),
            ({
                let live = old(self).objects_view().contains_key(msg.object_id);
                let reqs = old(self).interfaces_view()[old(self).objects_view()[msg.object_id].interface as int].requests@;
                &&& live && msg.opcode as int >= reqs.len() ==> r == Err::<(), RequestError>(RequestError::UnknownOpcode)
                &&& live && (msg.opcode as int) < reqs.len() && !new_ids_allocated(old(self).objects_view(), msg@.args)
                    ==> r == Err::<(), RequestError>(RequestError::UnallocatedNewId)
                &&& live && (msg.opcode as int) < reqs.len() && new_ids_allocated(old(self).objects_view(), msg@.args) ==> match encode_outcome(msg@, reqs[msg.opcode as int]@) {
                    Ok((b, f)) => r is Ok && final(self).outgoing_view() == old(self).outgoing_view() + b
                        && final(self).outgoing_fds_view() == old(self).outgoing_fds_view() + f,
                    Err(e) => r == Err::<(), RequestError>(RequestError::Encoding(e)),
                }
            }),
            r is Err ==> final(self).outgoing_view() == old(self).outgoing_view() && final(self).outgoing_fds_view() == old(self).outgoing_fds_view(),
            final(self).latched() == old(self).latched(),
            final(self).connection_fd() == old(self).connection_fd(),
            final(self).incoming_fds_view() == old(self).incoming_fds_view(),
            final(self).model() == old(self).model(),
    {
        let info = match self.objects.resolve(msg.object_id) {
            None => return Err(RequestError::DeadObject),
            Some(i) => i,
        };
        let op = msg.opcode as usize;
        if op >= self.interfaces[info.interface].requests.len() {
            return Err(RequestError::UnknownOpcode);
        }
        if !self.new_ids_are_allocated(&msg.args) {
            return Err(RequestError::UnallocatedNewId);
        }
        match encode_message(msg, &self.interfaces[info.interface].requests[op]) {
            Err(e) => Err(RequestError::Encoding(e)),
            Ok((bytes, fds)) => {
                crate::bytes::push_bytes(&mut self.outgoing, &bytes);
                crate::bytes::push_bytes(&mut self.outgoing_fds, &fds);
                Ok(())
            },
        }
    }

    /// Creates the client side of a new object of interface `interface` at
    /// `version`, in the same queue as the live object `parent`, and returns
    /// its id. The id is known before the request that creates it is sent.
    pub fn create_object(&mut self, parent: u32, interface: usize, version: u32) -> (r: Result<u32, RequestError>)
        requires
            old(self).wf(),
        ensures
            final(self).wf(),
            final(self).queue_count() == old(self).queue_count(),
            forall|i: int| 0 <= i < old(self).queue_count() ==> final(self).queue_view(i) == old(self).queue_view(i),
            final(self).is_dead() == old(self).is_dead(),
            final(self).incoming_view() == old(self).incoming_view(),
            final(self).outgoing_view() == old(self).outgoing_view(),
            final(self).interfaces_view() == old(self).interfaces_view(),
            !old(self).objects_view().contains_key(parent) <==> r == Err::<u32, RequestError>(RequestError::DeadObject),
            old(self).objects_view().contains_key(parent) && interface >= old(self).interfaces_view().len()
                ==> r == Err::<u32, RequestError>(RequestError::UnknownInterface),
            r is Err ==> final(self).objects_view() == old(self).objects_view(),
            r == Err::<u32, RequestError>(RequestError::IdsExhausted) ==> old(self).next_client_id() == u32::MAX,
            old(self).objects_view().contains_key(parent) && interface < old(self).interfaces_view().len() && old(self).next_client_id() < u32::MAX ==> r is Ok,
            r is Ok ==> {
                &&& r->Ok_0 >= CLIENT_ID_BASE
                &&& !old(self).objects_view().contains_key(r->Ok_0)
                &&& final(self).objects_view() == old(self).objects_view().insert(r->Ok_0,
                    ObjectInfo { interface, version, queue: old(self).objects_view()[parent].queue })
            },
            final(self).latched() == old(self).latched(),
            final(self).connection_fd() == old(self).connection_fd(),
            final(self).incoming_fds_view() == old(self).incoming_fds_view(),
            final(self).outgoing_fds_view() == old(self).outgoing_fds_view(),
    {
        let info = match self.objects.resolve(parent) {
            None => return Err(RequestError::DeadObject),
            Some(i) => i,
        };
        if interface >= self.interfaces.len() {
            return Err(RequestError::UnknownInterface);
        }
        let id = match self.objects.allocate_client_id() {
            None => return Err(RequestError::IdsExhausted),
            Some(id) => id,
        };
        let reg = self.objects.register(id, ObjectInfo { interface, version, queue: info.queue });
        assert(reg is Ok);
        Ok(id)
    }

    /// Moves the live object `id` to queue `q`: its later events go there.
    /// Tells whether it was live.
    pub fn attach(&mut self, id: u32, q: &EventQueue) -> (r: bool)
        requires
            old(self).wf(),
            q.id < old(self).queue_count(),
        ensures
            final(self).wf(),
            r == old(self).objects_view().contains_key(id),
            r ==> final(self).objects_view() == old(self).objects_view().insert(id,
                ObjectInfo { queue: q.id, ..old(self).objects_view()[id] }),
            !r ==> final(self).objects_view() == old(self).objects_view(),
            final(self).queue_count() == old(self).queue_count(),
            forall|i: int| 0 <= i < old(self).queue_count() ==> final(self).queue_view(i) == old(self).queue_view(i),
            final(self).is_dead() == old(self).is_dead(),
            final(self).incoming_view() == old(self).incoming_view(),
            final(self).outgoing_view() == old(self).outgoing_view(),
            final(self).latched() == old(self).latched(),
            final(self).connection_fd() == old(self).connection_fd(),
            final(self).interfaces_view() == old(self).interfaces_view(),
            final(self).incoming_fds_view() == old(self).incoming_fds_view(),
            final(self).outgoing_fds_view() == old(self).outgoing_fds_view(),
    {
        match self.objects.resolve(id) {
            None => false,
            Some(info) => {
                self.objects.rebind(id, ObjectInfo { queue: q.id, ..info });
                true
            },
        }
    }

    /// Forgets the object `id` on the client side; tells whether it was live.
    /// Later requests to it fail with `DeadObject`.
    pub fn destroy_object(&mut self, id: u32) -> (r: bool)
        requires
            old(self).wf(),
        ensures
            final(self).wf(),
            final(self).objects_view() == old(self).objects_view().remove(id),
            r == old(self).objects_view().contains_key(id),
            final(self).queue_count() == old(self).queue_count(),
            forall|i: int| 0 <= i < old(self).queue_count() ==> final(self).queue_view(i) == old(self).queue_view(i),
            final(self).is_dead() == old(self).is_dead(),
            final(self).incoming_view() == old(self).incoming_view(),
            final(self).outgoing_view() == old(self).outgoing_view(),
            final(self).latched() == old(self).latched(),
            final(self).connection_fd() == old(self).connection_fd(),
            final(self).interfaces_view() == old(self).interfaces_view(),
            final(self).incoming_fds_view() == old(self).incoming_fds_view(),
            final(self).outgoing_fds_view() == old(self).outgoing_fds_view(),
    {
        self.objects.destroy(id)
    }

    /// Appends bytes and descriptors read from the socket.
    pub fn push_incoming(&mut self, bytes: &Vec<u8>, fds: &Vec<i32>)
        requires
            old(self).wf(),
        ensures
            final(self).wf(),
            final(self).incoming_view() == old(self).incoming_view() + bytes@,
            final(self).incoming_fds_view() == old(self).incoming_fds_view() + fds@,
            final(self).objects_view() == old(self).objects_view(),
            final(self).queue_count() == old(self).queue_count(),
            forall|i: int| 0 <= i < old(self).queue_count() ==> final(self).queue_view(i) == old(self).queue_view(i),
            final(self).is_dead() == old(self).is_dead(),
            final(self).outgoing_view() == old(self).outgoing_view(),
            final(self).latched() == old(self).latched(),
            final(self).connection_fd() == old(self).connection_fd(),
            final(self).interfaces_view() == old(self).interfaces_view(),
            final(self).outgoing_fds_view() == old(self).outgoing_fds_view(),
    {
        crate::bytes::push_bytes(&mut self.incoming, bytes);
        crate::bytes::push_bytes(&mut self.incoming_fds, fds);
    }
}

} // verus!
