//! Framing and argument encoding of one message.
//!
//! A message is an 8-byte header (object id, then a word holding the opcode in
//! its low 16 bits and the total length in bytes in its high 16 bits) followed
//! by the arguments, each padded to a multiple of four bytes. Strings and arrays
//! carry a length prefix; file descriptors travel beside the bytes, in argument
//! order. Words are little-endian (see `crate::bytes`).
use vstd::prelude::*;
use crate::bytes::{le32, word_at, pad_len, padded, zeros, read_word, push_word, push_bytes, push_zeros, copy_range, pad_of, lemma_word_of_le32};

verus! {

/// Largest length a message header can declare.
pub const MAX_MESSAGE_LEN: usize = 0xffff;

/// Size of the message header.
pub const HEADER_LEN: usize = 8;

/// The type of one argument slot in a request or event signature.
#[derive(Clone, Copy, Debug, PartialEq, Eq)]
pub enum ArgKind {
    Int,
    Uint,
    Fixed,
    Str,
    /// An existing object; id 0 stands for "no object" and is only allowed when nullable.
    Object { nullable: bool },
    /// The id of an object that the message creates, whose interface is given
    /// by its index in the protocol's interface table.
    NewId { interface: usize },
    Array,
    /// A file descriptor, carried out of band.
    Fd,
}

/// One argument value.
#[derive(Clone, Debug, PartialEq, Eq)]
pub enum Argument {
    Int(i32),
    Uint(u32),
    /// Signed 24.8 fixed-point number, in its raw 32-bit form.
    Fixed(i32),
    /// String contents, without the terminating nul.
    Str(Vec<u8>),
    Object(u32),
    NewId(u32),
    Array(Vec<u8>),
    Fd(i32),
}

/// Mathematical value of an argument.
pub enum ArgValue {
    Int(i32),
    Uint(u32),
    Fixed(i32),
    Str(Seq<u8>),
    Object(u32),
    NewId(u32),
    Array(Seq<u8>),
    Fd(i32),
}

impl View for Argument {
    type V = ArgValue;

    open spec fn view(&self) -> ArgValue {
        match self {
            Argument::Int(v) => ArgValue::Int(*v),
            Argument::Uint(v) => ArgValue::Uint(*v),
            Argument::Fixed(v) => ArgValue::Fixed(*v),
            Argument::Str(b) => ArgValue::Str(b@),
            Argument::Object(v) => ArgValue::Object(*v),
            Argument::NewId(v) => ArgValue::NewId(*v),
            Argument::Array(b) => ArgValue::Array(b@),
            Argument::Fd(v) => ArgValue::Fd(*v),
        }
    }
}

/// A message: target (or sender) object, opcode and arguments.
#[derive(Clone, Debug, PartialEq, Eq)]
pub struct Message {
    pub object_id: u32,
    pub opcode: u16,
    pub args: Vec<Argument>,
}

pub struct MessageView {
    pub object_id: u32,
    pub opcode: u16,
    pub args: Seq<ArgValue>,
}

pub open spec fn values_of(args: Seq<Argument>) -> Seq<ArgValue> {
    args.map_values(|a: Argument| a@)
}

impl View for Message {
    type V = MessageView;

    open spec fn view(&self) -> MessageView {
        MessageView { object_id: self.object_id, opcode: self.opcode, args: values_of(self.args@) }
    }
}

/// Why a message could not be encoded or decoded.
#[derive(Clone, Copy, Debug, PartialEq, Eq)]
pub enum WireError {
    /// The declared length is shorter than a header, not a multiple of four,
    /// or disagrees with what the arguments occupy.
    Malformed,
    /// An argument does not fit its slot in the signature (wrong type, wrong
    /// count, or a null id where none is allowed).
    BadArgument,
    /// A file descriptor was expected but none was left.
    FdUnderrun,
    /// The encoded message would exceed the largest length a header can declare.
    TooLong,
}

/// Whether `v` may stand in a slot of kind `k`.
pub open spec fn fits_slot(v: ArgValue, k: ArgKind) -> bool {
    match (v, k) {
        (ArgValue::Int(_), ArgKind::Int) => true,
        (ArgValue::Uint(_), ArgKind::Uint) => true,
        (ArgValue::Fixed(_), ArgKind::Fixed) => true,
        (ArgValue::Str(_), ArgKind::Str) => true,
        (ArgValue::Object(id), ArgKind::Object { nullable }) => nullable || id != 0,
        (ArgValue::NewId(id), ArgKind::NewId { .. }) => id != 0,
        (ArgValue::Array(_), ArgKind::Array) => true,
        (ArgValue::Fd(_), ArgKind::Fd) => true,
        _ => false,
    }
}

/// Whether the arguments match the signature slot by slot.
pub open spec fn conforms(args: Seq<ArgValue>, sig: Seq<ArgKind>) -> bool {
    args.len() == sig.len() && forall|i: int| 0 <= i < args.len() ==> #[trigger] fits_slot(args[i], sig[i])
}

/// Bytes of a length-prefixed blob: length, contents, zero padding.
pub open spec fn enc_blob(len_field: u32, b: Seq<u8>) -> Seq<u8> {
    le32(len_field) + b + zeros(pad_len(b.len() as int))
}

/// Bytes that one argument occupies in the stream.
pub open spec fn enc_arg(v: ArgValue) -> Seq<u8> {
    match v {
        ArgValue::Int(x) => le32(x as u32),
        ArgValue::Uint(x) => le32(x),
        ArgValue::Fixed(x) => le32(x as u32),
        ArgValue::Str(s) => enc_blob((s.len() + 1) as u32, s.push(0u8)),
        ArgValue::Object(x) => le32(x),
        ArgValue::NewId(x) => le32(x),
        ArgValue::Array(a) => enc_blob(a.len() as u32, a),
        ArgValue::Fd(_) => Seq::empty(),
    }
}

/// Bytes of a list of arguments, in order.
pub open spec fn enc_args(args: Seq<ArgValue>) -> Seq<u8>
    decreases args.len(),
{
    if args.len() == 0 {
        Seq::empty()
    } else {
        enc_args(args.drop_last()) + enc_arg(args.last())
    }
}

/// File descriptors that a list of arguments carries, in order.
pub open spec fn fds_of(args: Seq<ArgValue>) -> Seq<i32>
    decreases args.len(),
{
    if args.len() == 0 {
        Seq::empty()
    } else {
        match args.last() {
            ArgValue::Fd(fd) => fds_of(args.drop_last()).push(fd),
            _ => fds_of(args.drop_last()),
        }
    }
}

/// Total length of the encoded message.
pub open spec fn message_len(m: MessageView) -> int {
    HEADER_LEN + enc_args(m.args).len()
}

/// The header's second word.
pub open spec fn size_opcode_word(len: u32, opcode: u16) -> u32 {
    (opcode as u32) | (len << 16u32)
}

/// Bytes of a whole message.
pub open spec fn enc_message(m: MessageView) -> Seq<u8> {
    le32(m.object_id) + le32(size_opcode_word(message_len(m) as u32, m.opcode)) + enc_args(m.args)
}

/// Outcome of encoding a message against a signature.
pub open spec fn encode_outcome(m: MessageView, sig: Seq<ArgKind>) -> Result<(Seq<u8>, Seq<i32>), WireError> {
    if !conforms(m.args, sig) {
        Err(WireError::BadArgument)
    } else if message_len(m) > MAX_MESSAGE_LEN {
        Err(WireError::TooLong)
    } else {
        Ok((enc_message(m), fds_of(m.args)))
    }
}


/// Puts `v` (taking `n` descriptors) in front of what the rest decoded to.
pub open spec fn prepend(v: ArgValue, n: nat, r: Result<(Seq<ArgValue>, nat), WireError>) -> Result<(Seq<ArgValue>, nat), WireError> {
    match r {
        Ok((a, k)) => Ok((seq![v] + a, k + n)),
        Err(e) => Err(e),
    }
}

/// Puts the already decoded `vs` (having taken `n` descriptors) in front of what the rest decoded to.
pub open spec fn prepend_all(vs: Seq<ArgValue>, n: nat, r: Result<(Seq<ArgValue>, nat), WireError>) -> Result<(Seq<ArgValue>, nat), WireError> {
    match r {
        Ok((a, k)) => Ok((vs + a, k + n)),
        Err(e) => Err(e),
    }
}

/// Decodes a message body `b` against the signature `sig`, taking descriptors
/// from the front of `fds`. On success: the arguments and how many descriptors
/// they took. The body must be used up exactly.
pub open spec fn parse_args(b: Seq<u8>, fds: Seq<i32>, sig: Seq<ArgKind>) -> Result<(Seq<ArgValue>, nat), WireError>
    decreases sig.len(),
{
    if sig.len() == 0 {
        if b.len() == 0 { Ok((Seq::empty(), 0)) } else { Err(WireError::Malformed) }
    } else if sig[0] == ArgKind::Fd {
        if fds.len() == 0 {
            Err(WireError::FdUnderrun)
        } else {
            prepend(ArgValue::Fd(fds[0]), 1, parse_args(b, fds.skip(1), sig.skip(1)))
        }
    } else if b.len() < 4 {
        Err(WireError::Malformed)
    } else {
        let w = word_at(b, 0);
        match sig[0] {
            ArgKind::Str => {
                if w == 0 || 4 + padded(w as int) > b.len() || b[4 + w - 1] != 0 {
                    Err(WireError::Malformed)
                } else {
                    prepend(ArgValue::Str(b.subrange(4, 4 + w - 1)), 0, parse_args(b.skip(4 + padded(w as int)), fds, sig.skip(1)))
                }
            },
            ArgKind::Array => {
                if 4 + padded(w as int) > b.len() {
                    Err(WireError::Malformed)
                } else {
                    prepend(ArgValue::Array(b.subrange(4, 4 + w)), 0, parse_args(b.skip(4 + padded(w as int)), fds, sig.skip(1)))
                }
            },
            ArgKind::Object { nullable } => {
                if !nullable && w == 0 {
                    Err(WireError::BadArgument)
                } else {
                    prepend(ArgValue::Object(w), 0, parse_args(b.skip(4), fds, sig.skip(1)))
                }
            },
            ArgKind::NewId { .. } => {
                if w == 0 {
                    Err(WireError::BadArgument)
                } else {
                    prepend(ArgValue::NewId(w), 0, parse_args(b.skip(4), fds, sig.skip(1)))
                }
            },
            ArgKind::Int => prepend(ArgValue::Int(w as i32), 0, parse_args(b.skip(4), fds, sig.skip(1))),
            ArgKind::Fixed => prepend(ArgValue::Fixed(w as i32), 0, parse_args(b.skip(4), fds, sig.skip(1))),
            _ => prepend(ArgValue::Uint(w), 0, parse_args(b.skip(4), fds, sig.skip(1))),
        }
    }
}

/// The length that a header starting at `b[0]` declares.
pub open spec fn declared_len(b: Seq<u8>) -> u32 {
    word_at(b, 4) >> 16u32
}

/// The opcode that a header starting at `b[0]` declares.
pub open spec fn declared_opcode(b: Seq<u8>) -> u16 {
    (word_at(b, 4) & 0xffff) as u16
}

/// Whether a declared length can frame a message.
pub open spec fn len_ok(len: u32) -> bool {
    len >= HEADER_LEN && len % 4 == 0
}

/// Outcome of decoding the message at the front of `b`: `Ok(None)` when more
/// bytes are needed, else the message, the bytes it takes and the descriptors it takes.
pub open spec fn decode_outcome(b: Seq<u8>, fds: Seq<i32>, sig: Seq<ArgKind>) -> Result<Option<(MessageView, nat, nat)>, WireError> {
    if b.len() < HEADER_LEN {
        Ok(None)
    } else if !len_ok(declared_len(b)) {
        Err(WireError::Malformed)
    } else if declared_len(b) > b.len() {
        Ok(None)
    } else {
        match parse_args(b.subrange(HEADER_LEN as int, declared_len(b) as int), fds, sig) {
            Ok((args, k)) => Ok(Some((MessageView { object_id: word_at(b, 0), opcode: declared_opcode(b), args }, declared_len(b) as nat, k))),
            Err(e) => Err(e),
        }
    }
}

proof fn lemma_parse_fds_bound(b: Seq<u8>, fds: Seq<i32>, sig: Seq<ArgKind>)
    ensures
        parse_args(b, fds, sig) is Ok ==> parse_args(b, fds, sig)->Ok_0.1 <= fds.len(),
    decreases sig.len(),
{
    if sig.len() > 0 {
        if sig[0] == ArgKind::Fd {
            if fds.len() > 0 {
                lemma_parse_fds_bound(b, fds.skip(1), sig.skip(1));
            }
        } else if b.len() >= 4 {
            let w = word_at(b, 0);
            lemma_parse_fds_bound(b.skip(4), fds, sig.skip(1));
            if 4 + padded(w as int) <= b.len() {
                lemma_parse_fds_bound(b.skip(4 + padded(w as int)), fds, sig.skip(1));
            }
        }
    }
}

proof fn lemma_prepend_all_step(vs: Seq<ArgValue>, n: nat, v: ArgValue, m: nat, r: Result<(Seq<ArgValue>, nat), WireError>)
    ensures
        prepend_all(vs, n, prepend(v, m, r)) == prepend_all(vs.push(v), n + m, r),
{
    match r {
        Ok((a, k)) => {
            assert(vs + (seq![v] + a) =~= vs.push(v) + a);
        },
        Err(e) => {},
    }
}

proof fn lemma_enc_args_prefix_len(vs: Seq<ArgValue>, i: int)
    requires
        0 <= i <= vs.len(),
    ensures
        enc_args(vs.take(i)).len() <= enc_args(vs).len(),
    decreases vs.len() - i,
{
    if i < vs.len() {
        lemma_enc_args_prefix_len(vs, i + 1);
        assert(vs.take(i + 1).drop_last() =~= vs.take(i));
    } else {
        assert(vs.take(i) =~= vs);
    }
}

proof fn lemma_enc_args_front(vs: Seq<ArgValue>)
    requires
        vs.len() > 0,
    ensures
        enc_args(vs) == enc_arg(vs[0]) + enc_args(vs.skip(1)),
        fds_of(vs) == (match vs[0] { ArgValue::Fd(fd) => seq![fd], _ => Seq::<i32>::empty() }) + fds_of(vs.skip(1)),
    decreases vs.len(),
{
    if vs.len() == 1 {
        assert(vs.drop_last() =~= Seq::<ArgValue>::empty());
        assert(vs.skip(1) =~= Seq::<ArgValue>::empty());
        assert(enc_args(vs) =~= enc_arg(vs[0]) + enc_args(vs.skip(1)));
        assert(fds_of(vs) =~= (match vs[0] { ArgValue::Fd(fd) => seq![fd], _ => Seq::<i32>::empty() }) + fds_of(vs.skip(1)));
    } else {
        let d = vs.drop_last();
        lemma_enc_args_front(d);
        assert(vs.skip(1).drop_last() =~= d.skip(1));
        assert(vs.skip(1).last() == vs.last());
        assert(d[0] == vs[0]);
        assert(enc_args(vs) =~= enc_arg(vs[0]) + enc_args(vs.skip(1)));
        assert(fds_of(vs) =~= (match vs[0] { ArgValue::Fd(fd) => seq![fd], _ => Seq::<i32>::empty() }) + fds_of(vs.skip(1)));
    }
}

proof fn lemma_enc_args_aligned(vs: Seq<ArgValue>)
    ensures
        enc_args(vs).len() % 4 == 0,
    decreases vs.len(),
{
    if vs.len() > 0 {
        lemma_enc_args_aligned(vs.drop_last());
    }
}

/// The word that an argument of a one-word kind is encoded as.
pub open spec fn word_of(v: ArgValue) -> u32 {
    match v {
        ArgValue::Int(x) => x as u32,
        ArgValue::Fixed(x) => x as u32,
        ArgValue::Uint(x) => x,
        ArgValue::Object(x) => x,
        ArgValue::NewId(x) => x,
        _ => 0,
    }
}

proof fn lemma_int_cast(x: i32)
    by (bit_vector)
    ensures
        (x as u32) as i32 == x,
{
}

proof fn lemma_header_word(len: u32, op: u16)
    by (bit_vector)
    requires
        len <= 0xffff,
    ensures
        ((op as u32) | (len << 16u32)) >> 16u32 == len,
        (((op as u32) | (len << 16u32)) & 0xffff) as u16 == op,
{
}

#[verifier::rlimit(100)]
proof fn lemma_parse_round_trip(vs: Seq<ArgValue>, sig: Seq<ArgKind>, extra: Seq<i32>)
    requires
        conforms(vs, sig),
        enc_args(vs).len() <= MAX_MESSAGE_LEN,
    ensures
        parse_args(enc_args(vs), fds_of(vs) + extra, sig) == Ok::<(Seq<ArgValue>, nat), WireError>((vs, fds_of(vs).len())),
    decreases vs.len(),
{
    if vs.len() == 0 {
        assert(sig.len() == 0);
        assert(vs =~= Seq::<ArgValue>::empty());
    } else {
        let v = vs[0];
        let rest = vs.skip(1);
        lemma_enc_args_front(vs);
        assert(conforms(rest, sig.skip(1))) by {
            assert forall|i: int| 0 <= i < rest.len() implies #[trigger] fits_slot(rest[i], sig.skip(1)[i]) by {
                assert(fits_slot(vs[i + 1], sig[i + 1]));
            }
        }
        let re = enc_args(rest);
        assert(re.len() <= enc_args(vs).len());
        lemma_parse_round_trip(rest, sig.skip(1), extra);
        let b = enc_args(vs);
        let f = fds_of(vs) + extra;
        assert(fits_slot(vs[0], sig[0]));
        assert(seq![v] + rest =~= vs);
        match v {
            ArgValue::Fd(fd) => {
                assert(b =~= re);
                assert(f[0] == fd);
                assert(f.skip(1) =~= fds_of(rest) + extra);
                assert(sig[0] == ArgKind::Fd);
                assert(parse_args(b, f, sig) == prepend(v, 1, parse_args(re, fds_of(rest) + extra, sig.skip(1))));
            },
            ArgValue::Str(t) => {
                let n: int = t.len() + 1int;
                assert(n <= MAX_MESSAGE_LEN);
                let tail = t.push(0u8) + zeros(pad_len(n)) + re;
                assert(b =~= le32(n as u32) + tail);
                lemma_word_of_le32(n as u32, tail);
                assert(b[4 + n - 1] == 0);
                assert(b.subrange(4, 4 + n - 1) =~= t);
                assert(b.skip(4 + padded(n)) =~= re);
                assert(f =~= fds_of(rest) + extra);
                assert(parse_args(b, f, sig) == prepend(v, 0, parse_args(re, fds_of(rest) + extra, sig.skip(1))));
            },
            ArgValue::Array(a) => {
                let n: int = a.len() as int;
                assert(n <= MAX_MESSAGE_LEN);
                let tail = a + zeros(pad_len(n)) + re;
                assert(b =~= le32(n as u32) + tail);
                lemma_word_of_le32(n as u32, tail);
                assert(b.subrange(4, 4 + n) =~= a);
                assert(b.skip(4 + padded(n)) =~= re);
                assert(f =~= fds_of(rest) + extra);
                assert(parse_args(b, f, sig) == prepend(v, 0, parse_args(re, fds_of(rest) + extra, sig.skip(1))));
            },
            _ => {
                // The kinds that take one word.
                lemma_word_of_le32(word_of(v), re);
                match v {
                    ArgValue::Int(x) => lemma_int_cast(x),
                    ArgValue::Fixed(x) => lemma_int_cast(x),
                    _ => {},
                }
                assert(b =~= le32(word_of(v)) + re);
                assert(b.skip(4) =~= re);
                assert(f =~= fds_of(rest) + extra);
                assert(parse_args(b, f, sig) == prepend(v, 0, parse_args(re, fds_of(rest) + extra, sig.skip(1))));
            },
        }
    }
}

/// Decoding what encoding produced gives back the message: for every message
/// that encodes against a signature, decoding its bytes against the same
/// signature, with its descriptors at the front of the descriptor queue,
/// yields the same message and takes exactly its bytes and its descriptors,
/// whatever bytes (such as later messages) and descriptors follow.
pub proof fn lemma_round_trip(m: MessageView, sig: Seq<ArgKind>, extra_bytes: Seq<u8>, extra_fds: Seq<i32>)
    requires
        encode_outcome(m, sig) is Ok,
    ensures
        ({
            let (b, f) = encode_outcome(m, sig)->Ok_0;
            decode_outcome(b + extra_bytes, f + extra_fds, sig) == Ok::<Option<(MessageView, nat, nat)>, WireError>(Some((m, b.len(), f.len())))
        }),
{
    let body = enc_args(m.args);
    let len = message_len(m);
    let w = size_opcode_word(len as u32, m.opcode);
    let b = enc_message(m);
    lemma_parse_round_trip(m.args, sig, extra_fds);
    lemma_enc_args_aligned(m.args);
    lemma_header_word(len as u32, m.opcode);
    lemma_word_of_le32(m.object_id, le32(w) + body);
    assert(b =~= le32(m.object_id) + (le32(w) + body));
    lemma_word_of_le32(w, body);
    assert(word_at(b, 4) == word_at(le32(w) + body, 0));
    assert(b.subrange(HEADER_LEN as int, len) =~= body);
    let bx = b + extra_bytes;
    assert(word_at(bx, 0) == word_at(b, 0));
    assert(word_at(bx, 4) == word_at(b, 4));
    assert(bx.subrange(HEADER_LEN as int, len) =~= body);
}

/// Messages encoded one after the other decode one after the other: the
/// first decodes from the front of the joined bytes and descriptors, and
/// what it leaves is exactly what the rest encoded to.
pub proof fn lemma_round_trip_sequence(m1: MessageView, sig1: Seq<ArgKind>, rest_bytes: Seq<u8>, rest_fds: Seq<i32>)
    requires
        encode_outcome(m1, sig1) is Ok,
    ensures
        ({
            let (b, f) = encode_outcome(m1, sig1)->Ok_0;
            &&& decode_outcome(b + rest_bytes, f + rest_fds, sig1) == Ok::<Option<(MessageView, nat, nat)>, WireError>(Some((m1, b.len(), f.len())))
            &&& (b + rest_bytes).skip(b.len() as int) == rest_bytes
            &&& (f + rest_fds).skip(f.len() as int) == rest_fds
        }),
{
    lemma_round_trip(m1, sig1, rest_bytes, rest_fds);
    let (b, f) = encode_outcome(m1, sig1)->Ok_0;
    assert((b + rest_bytes).skip(b.len() as int) =~= rest_bytes);
    assert((f + rest_fds).skip(f.len() as int) =~= rest_fds);
}

/// Whether `a` may stand in a slot of kind `k`.
pub fn arg_fits(a: &Argument, k: ArgKind) -> (r: bool)
    ensures
        r == fits_slot(a@, k),
{
    match (a, k) {
        (Argument::Int(_), ArgKind::Int) => true,
        (Argument::Uint(_), ArgKind::Uint) => true,
        (Argument::Fixed(_), ArgKind::Fixed) => true,
        (Argument::Str(_), ArgKind::Str) => true,
        (Argument::Object(id), ArgKind::Object { nullable }) => nullable || *id != 0,
        (Argument::NewId(id), ArgKind::NewId { .. }) => *id != 0,
        (Argument::Array(_), ArgKind::Array) => true,
        (Argument::Fd(_), ArgKind::Fd) => true,
        _ => false,
    }
}

/// Encodes `msg` against the signature `sig`: the bytes to send and the
/// descriptors to pass beside them.
pub fn encode_message(msg: &Message, sig: &Vec<ArgKind>) -> (r: Result<(Vec<u8>, Vec<i32>), WireError>)
    ensures
        match (r, encode_outcome(msg@, sig@)) {
            (Ok((b, f)), Ok((sb, sf))) => b@ == sb && f@ == sf,
            (Err(e), Err(se)) => e == se,
            _ => false,
        },
{
    let ghost vs = values_of(msg.args@);
    if msg.args.len() != sig.len() {
        return Err(WireError::BadArgument);
    }
    let mut i: usize = 0;
    while i < sig.len()
        invariant
            i <= sig@.len(),
            msg.args@.len() == sig@.len(),
            vs == values_of(msg.args@),
            forall|j: int| 0 <= j < i ==> #[trigger] fits_slot(vs[j], sig@[j]),
        decreases sig@.len() - i,
    {
        if !arg_fits(&msg.args[i], sig[i]) {
            assert(!fits_slot(vs[i as int], sig@[i as int]));
            return Err(WireError::BadArgument);
        }
        i = i + 1;
    }
    assert(conforms(vs, sig@));
    let mut body: Vec<u8> = Vec::new();
    let mut fds: Vec<i32> = Vec::new();
    let mut i: usize = 0;
    while i < msg.args.len()
        invariant
            i <= msg.args@.len(),
            vs == values_of(msg.args@),
            body@ == enc_args(vs.take(i as int)),
            fds@ == fds_of(vs.take(i as int)),
            conforms(vs, sig@),
            HEADER_LEN + body@.len() <= MAX_MESSAGE_LEN,
        decreases msg.args@.len() - i,
    {
        let ghost pre = vs.take(i as int);
        let ghost v = vs[i as int];
        assert(vs.take(i as int + 1).drop_last() =~= pre);
        assert(vs.take(i as int + 1).last() == v);
        assert(v == msg.args@[i as int]@);
        assert(enc_args(vs.take(i as int + 1)) == enc_args(pre) + enc_arg(v));
        assert(fds_of(vs.take(i as int + 1)) == match v { ArgValue::Fd(fd) => fds_of(pre).push(fd), _ => fds_of(pre) });
        proof { lemma_enc_args_prefix_len(vs, i as int + 1); }
        match &msg.args[i] {
            Argument::Int(x) => {
                if body.len() + 12 > MAX_MESSAGE_LEN {
                    return Err(WireError::TooLong);
                }
                push_word(&mut body, *x as u32);
            },
            Argument::Uint(x) => {
                if body.len() + 12 > MAX_MESSAGE_LEN {
                    return Err(WireError::TooLong);
                }
                push_word(&mut body, *x);
            },
            Argument::Fixed(x) => {
                if body.len() + 12 > MAX_MESSAGE_LEN {
                    return Err(WireError::TooLong);
                }
                push_word(&mut body, *x as u32);
            },
            Argument::Object(x) => {
                if body.len() + 12 > MAX_MESSAGE_LEN {
                    return Err(WireError::TooLong);
                }
                push_word(&mut body, *x);
            },
            Argument::NewId(x) => {
                if body.len() + 12 > MAX_MESSAGE_LEN {
                    return Err(WireError::TooLong);
                }
                push_word(&mut body, *x);
            },
            Argument::Str(s) => {
                if s.len() >= MAX_MESSAGE_LEN {
                    return Err(WireError::TooLong);
                }
                let n = s.len() + 1;
                let pad = pad_of(n);
                if body.len() + HEADER_LEN + 4 + n + pad > MAX_MESSAGE_LEN {
                    return Err(WireError::TooLong);
                }
                push_word(&mut body, n as u32);
                push_bytes(&mut body, s);
                body.push(0u8);
                push_zeros(&mut body, pad);
                assert(body@ =~= enc_args(pre) + enc_blob(n as u32, s@.push(0u8)));
            },
            Argument::Array(a) => {
                if a.len() >= MAX_MESSAGE_LEN {
                    return Err(WireError::TooLong);
                }
                let n = a.len();
                let pad = pad_of(n);
                if body.len() + HEADER_LEN + 4 + n + pad > MAX_MESSAGE_LEN {
                    return Err(WireError::TooLong);
                }
                push_word(&mut body, n as u32);
                push_bytes(&mut body, a);
                push_zeros(&mut body, pad);
                assert(body@ =~= enc_args(pre) + enc_blob(n as u32, a@));
            },
            Argument::Fd(fd) => {
                fds.push(*fd);
                assert(body@ =~= enc_args(pre) + enc_arg(v));
            },
        }
        i = i + 1;
    }
    assert(vs.take(vs.len() as int) =~= vs);
    let total = body.len() + HEADER_LEN;
    let mut out: Vec<u8> = Vec::new();
    push_word(&mut out, msg.object_id);
    push_word(&mut out, (msg.opcode as u32) | ((total as u32) << 16u32));
    push_bytes(&mut out, &body);
    Ok((out, fds))
}


/// The length that the header at the front of `b` declares.
pub fn declared_length(b: &Vec<u8>) -> (r: u32)
    requires
        b@.len() >= HEADER_LEN,
    ensures
        r == declared_len(b@),
{
    read_word(b, 4) >> 16u32
}

/// Object id and opcode of the message at the front of `b`, once its header is there.
pub fn peek_header(b: &Vec<u8>) -> (r: Option<(u32, u16)>)
    ensures
        b@.len() < HEADER_LEN ==> r is None,
        b@.len() >= HEADER_LEN ==> r == Some((word_at(b@, 0), declared_opcode(b@))),
{
    if b.len() < HEADER_LEN {
        None
    } else {
        let id = read_word(b, 0);
        let w = read_word(b, 4);
        Some((id, (w & 0xffff) as u16))
    }
}

/// Decodes the message at the front of `b` against the signature `sig`, taking
/// descriptors from the front of `fds`. `Ok(None)` means that more bytes are
/// needed; nothing is consumed then. Otherwise the message, the number of bytes
/// and the number of descriptors it takes.
pub fn decode_message(b: &Vec<u8>, fds: &Vec<i32>, sig: &Vec<ArgKind>) -> (r: Result<Option<(Message, usize, usize)>, WireError>)
    ensures
        match (r, decode_outcome(b@, fds@, sig@)) {
            (Ok(None), Ok(None)) => true,
            (Ok(Some((m, n, k))), Ok(Some((sm, sn, sk)))) => m@ == sm && n == sn && k == sk,
            (Err(e), Err(se)) => e == se,
            _ => false,
        },
        r is Ok && r->Ok_0 is Some ==> r->Ok_0->Some_0.1 <= b@.len() && r->Ok_0->Some_0.2 <= fds@.len(),
{
    if b.len() >= HEADER_LEN {
        proof { lemma_parse_fds_bound(b@.subrange(HEADER_LEN as int, declared_len(b@) as int), fds@, sig@); }
    }
    if b.len() < HEADER_LEN {
        return Ok(None);
    }
    let id = read_word(b, 0);
    let w = read_word(b, 4);
    let len32 = w >> 16u32;
    let opcode = (w & 0xffff) as u16;
    if len32 < 8 || len32 % 4 != 0 {
        return Err(WireError::Malformed);
    }
    let len = len32 as usize;
    if len > b.len() {
        return Ok(None);
    }
    let ghost whole = parse_args(b@.subrange(8, len as int), fds@, sig@);
    assert(declared_len(b@) == len32 && declared_opcode(b@) == opcode);
    assert(decode_outcome(b@, fds@, sig@) == match whole {
        Ok((a, k)) => Ok(Some((MessageView { object_id: id, opcode, args: a }, len as nat, k))),
        Err(e) => Err::<Option<(MessageView, nat, nat)>, WireError>(e),
    });
    let mut args: Vec<Argument> = Vec::new();
    let mut off: usize = 8;
    let mut fi: usize = 0;
    let mut i: usize = 0;
    assert(b@.subrange(8, len as int) == b@.subrange(off as int, len as int));
    assert(fds@.skip(0) =~= fds@);
    assert(sig@.skip(0) =~= sig@);
    assert(values_of(args@) =~= Seq::<ArgValue>::empty());
    assert(prepend_all(Seq::empty(), 0, whole) == whole) by {
        match whole {
            Ok((a, k)) => { assert(Seq::<ArgValue>::empty() + a =~= a); },
            Err(e) => {},
        }
    }
    while i < sig.len()
        invariant
            8 <= off <= len <= b@.len(),
            fi <= fds@.len(),
            i <= sig@.len(),
            whole == parse_args(b@.subrange(8, len as int), fds@, sig@),
            decode_outcome(b@, fds@, sig@) == match whole {
                Ok((a, k)) => Ok(Some((MessageView { object_id: id, opcode, args: a }, len as nat, k))),
                Err(e) => Err::<Option<(MessageView, nat, nat)>, WireError>(e),
            },
            whole == prepend_all(values_of(args@), fi as nat,
                parse_args(b@.subrange(off as int, len as int), fds@.skip(fi as int), sig@.skip(i as int))),
        decreases sig@.len() - i,
    {
        let ghost rest = b@.subrange(off as int, len as int);
        let ghost fr = fds@.skip(fi as int);
        let ghost sr = sig@.skip(i as int);
        let ghost old_vals = values_of(args@);
        assert(sr[0] == sig@[i as int]);
        assert(sr.skip(1) =~= sig@.skip(i as int + 1));
        let k = sig[i];
        if matches!(k, ArgKind::Fd) {
            if fi >= fds.len() {
                assert(parse_args(rest, fr, sr) == Err::<(Seq<ArgValue>, nat), WireError>(WireError::FdUnderrun));
                return Err(WireError::FdUnderrun);
            }
            assert(fr[0] == fds@[fi as int]);
            assert(fr.skip(1) =~= fds@.skip(fi as int + 1));
            proof { lemma_prepend_all_step(old_vals, fi as nat, ArgValue::Fd(fds@[fi as int]), 1, parse_args(rest, fds@.skip(fi as int + 1), sig@.skip(i as int + 1))); }
            args.push(Argument::Fd(fds[fi]));
            assert(values_of(args@) =~= old_vals.push(ArgValue::Fd(fds@[fi as int])));
            fi = fi + 1;
        } else {
            if len - off < 4 {
                assert(parse_args(rest, fr, sr) == Err::<(Seq<ArgValue>, nat), WireError>(WireError::Malformed));
                return Err(WireError::Malformed);
            }
            let v = read_word(b, off);
            assert(word_at(rest, 0) == v);
            let ghost next: ArgValue;
            let mut adv: usize = 4;
            match k {
                ArgKind::Str => {
                    if v == 0 || (len - off - 4) < (v as usize) {
                        assert(parse_args(rest, fr, sr) == Err::<(Seq<ArgValue>, nat), WireError>(WireError::Malformed));
                        return Err(WireError::Malformed);
                    }
                    let n = v as usize;
                    let p = n + pad_of(n);
                    if len - off - 4 < p || b[off + 4 + n - 1] != 0 {
                        return Err(WireError::Malformed);
                    }
                    let s = copy_range(b, off + 4, off + 4 + n - 1);
                    assert(s@ =~= rest.subrange(4, 4 + v - 1));
                    proof { next = ArgValue::Str(s@); }
                    adv = 4 + p;
                    args.push(Argument::Str(s));
                },
                ArgKind::Array => {
                    if (len - off - 4) < (v as usize) {
                        return Err(WireError::Malformed);
                    }
                    let n = v as usize;
                    let p = n + pad_of(n);
                    if len - off - 4 < p {
                        return Err(WireError::Malformed);
                    }
                    let a = copy_range(b, off + 4, off + 4 + n);
                    assert(a@ =~= rest.subrange(4, 4 + v));
                    proof { next = ArgValue::Array(a@); }
                    adv = 4 + p;
                    args.push(Argument::Array(a));
                },
                ArgKind::Object { nullable } => {
                    if !nullable && v == 0 {
                        return Err(WireError::BadArgument);
                    }
                    proof { next = ArgValue::Object(v); }
                    args.push(Argument::Object(v));
                },
                ArgKind::NewId { .. } => {
                    if v == 0 {
                        return Err(WireError::BadArgument);
                    }
                    proof { next = ArgValue::NewId(v); }
                    args.push(Argument::NewId(v));
                },
                ArgKind::Int => {
                    proof { next = ArgValue::Int(v as i32); }
                    args.push(Argument::Int(v as i32));
                },
                ArgKind::Fixed => {
                    proof { next = ArgValue::Fixed(v as i32); }
                    args.push(Argument::Fixed(v as i32));
                },
                _ => {
                    proof { next = ArgValue::Uint(v); }
                    args.push(Argument::Uint(v));
                },
            }
            assert(rest.skip(adv as int) =~= b@.subrange(off + adv, len as int));
            assert(parse_args(rest, fr, sr) == prepend(next, 0, parse_args(rest.skip(adv as int), fr, sr.skip(1))));
            proof { lemma_prepend_all_step(old_vals, fi as nat, next, 0, parse_args(rest.skip(adv as int), fr, sr.skip(1))); }
            assert(values_of(args@) =~= old_vals.push(next));
            off = off + adv;
        }
        i = i + 1;
    }
    if off != len {
        return Err(WireError::Malformed);
    }
    assert(whole == prepend_all(values_of(args@), fi as nat, Ok((Seq::<ArgValue>::empty(), 0nat)))) by {
        assert(b@.subrange(off as int, len as int).len() == 0);
    }
    assert(values_of(args@) + Seq::<ArgValue>::empty() =~= values_of(args@));
    Ok(Some((Message { object_id: id, opcode, args }, len, fi)))
}

} // verus!
