//! Wire format between the mux server and its clients.
//!
//! Every message is one frame: `[u8 tag][u32 BE payload_len][payload]`.
//!
//! Server to client: `0x01` Output(payload), `0x02` Resized(cols: u16 BE,
//! rows: u16 BE), `0x03` Exited(code: i32 BE).
//! Client to server: `0x11` Input(payload), `0x12` Resize(cols: u16 BE,
//! rows: u16 BE), `0x13` Kill (no payload).
use vstd::prelude::*;

verus! {

/// Largest payload a reader accepts (16 MiB); longer frames are rejected
/// so that a corrupted length cannot exhaust memory.
pub const MAX_PAYLOAD: usize = 16777216;

pub const TAG_OUTPUT: u8 = 0x01;
pub const TAG_RESIZED: u8 = 0x02;
pub const TAG_EXITED: u8 = 0x03;
pub const TAG_INPUT: u8 = 0x11;
pub const TAG_RESIZE: u8 = 0x12;
pub const TAG_KILL: u8 = 0x13;

/// Messages sent from server to client.
pub enum ServerMsg {
    /// PTY output bytes (also used for the initial screen dump)
    Output(Vec<u8>),
    /// PTY size changed (sent on connect and when other clients cause a resize)
    Resized { cols: u16, rows: u16 },
    /// Child exited with code
    Exited(i32),
}

/// Messages sent from client to server.
pub enum ClientMsg {
    /// Raw bytes for the PTY
    Input(Vec<u8>),
    /// Client terminal size
    Resize { cols: u16, rows: u16 },
    /// Kill the child process
    Kill,
}

/// Mathematical value of a [`ServerMsg`].
pub enum ServerMsgModel {
    Output(Seq<u8>),
    Resized { cols: u16, rows: u16 },
    Exited(i32),
}

/// Mathematical value of a [`ClientMsg`].
pub enum ClientMsgModel {
    Input(Seq<u8>),
    Resize { cols: u16, rows: u16 },
    Kill,
}

impl View for ServerMsg {
    type V = ServerMsgModel;

    open spec fn view(&self) -> ServerMsgModel {
        match self {
            ServerMsg::Output(d) => ServerMsgModel::Output(d@),
            ServerMsg::Resized { cols, rows } => ServerMsgModel::Resized { cols: *cols, rows: *rows },
            ServerMsg::Exited(c) => ServerMsgModel::Exited(*c),
        }
    }
}

impl View for ClientMsg {
    type V = ClientMsgModel;

    open spec fn view(&self) -> ClientMsgModel {
        match self {
            ClientMsg::Input(d) => ClientMsgModel::Input(d@),
            ClientMsg::Resize { cols, rows } => ClientMsgModel::Resize { cols: *cols, rows: *rows },
            ClientMsg::Kill => ClientMsgModel::Kill,
        }
    }
}

/// Why a frame could not be read.
#[derive(Debug, PartialEq, Eq, Structural)]
pub enum ProtocolError {
    /// The input ended before the frame was complete.
    UnexpectedEof,
    /// The length field exceeds [`MAX_PAYLOAD`]; carries the length read.
    PayloadTooLarge(usize),
    /// A Resized/Resize/Exited payload shorter than four bytes; carries the tag.
    ShortPayload(u8),
    /// A tag that is not a server message tag.
    UnknownServerTag(u8),
    /// A tag that is not a client message tag.
    UnknownClientTag(u8),
}

// ---------------------------------------------------------------------------
// Byte-level model
// ---------------------------------------------------------------------------

/// The four big-endian bytes of `n` (taken modulo 2^32).
#[verifier::opaque]
pub open spec fn be_u32(n: nat) -> Seq<u8> {
    let m = n % 0x1_0000_0000;
    seq![(m / 0x100_0000) as u8, ((m / 0x1_0000) % 0x100) as u8, ((m / 0x100) % 0x100) as u8, (m % 0x100) as u8]
}

/// The value of four big-endian bytes.
#[verifier::opaque]
pub open spec fn from_be_u32(b: Seq<u8>) -> nat {
    (b[0] as nat) * 0x100_0000 + (b[1] as nat) * 0x1_0000 + (b[2] as nat) * 0x100 + (b[3] as nat)
}

/// The two big-endian bytes of `v`.
pub open spec fn be_u16(v: u16) -> Seq<u8> {
    seq![(v / 0x100) as u8, (v % 0x100) as u8]
}

/// The value of two big-endian bytes.
pub open spec fn from_be_u16(b0: u8, b1: u8) -> u16 {
    ((b0 as nat) * 0x100 + (b1 as nat)) as u16
}

/// Two's-complement bit pattern of `c` as an unsigned 32-bit value.
pub open spec fn i32_bits(c: i32) -> nat {
    if c < 0 { (c + 0x1_0000_0000) as nat } else { c as nat }
}

/// The signed value of a 32-bit pattern.
pub open spec fn i32_from_bits(u: nat) -> i32 {
    if u >= 0x8000_0000 { (u - 0x1_0000_0000) as i32 } else { u as i32 }
}

/// A complete frame on the wire.
pub open spec fn spec_frame(tag: u8, payload: Seq<u8>) -> Seq<u8> {
    seq![tag] + be_u32(payload.len()) + payload
}

pub open spec fn spec_size_payload(cols: u16, rows: u16) -> Seq<u8> {
    be_u16(cols) + be_u16(rows)
}

pub open spec fn spec_server_tag(m: ServerMsgModel) -> u8 {
    match m {
        ServerMsgModel::Output(_) => TAG_OUTPUT,
        ServerMsgModel::Resized { .. } => TAG_RESIZED,
        ServerMsgModel::Exited(_) => TAG_EXITED,
    }
}

pub open spec fn spec_server_payload(m: ServerMsgModel) -> Seq<u8> {
    match m {
        ServerMsgModel::Output(d) => d,
        ServerMsgModel::Resized { cols, rows } => spec_size_payload(cols, rows),
        ServerMsgModel::Exited(c) => be_u32(i32_bits(c)),
    }
}

pub open spec fn spec_client_tag(m: ClientMsgModel) -> u8 {
    match m {
        ClientMsgModel::Input(_) => TAG_INPUT,
        ClientMsgModel::Resize { .. } => TAG_RESIZE,
        ClientMsgModel::Kill => TAG_KILL,
    }
}

pub open spec fn spec_client_payload(m: ClientMsgModel) -> Seq<u8> {
    match m {
        ClientMsgModel::Input(d) => d,
        ClientMsgModel::Resize { cols, rows } => spec_size_payload(cols, rows),
        ClientMsgModel::Kill => Seq::empty(),
    }
}

/// The bytes that encode a server message.
pub open spec fn spec_encode_server(m: ServerMsgModel) -> Seq<u8> {
    spec_frame(spec_server_tag(m), spec_server_payload(m))
}

/// The bytes that encode a client message.
pub open spec fn spec_encode_client(m: ClientMsgModel) -> Seq<u8> {
    spec_frame(spec_client_tag(m), spec_client_payload(m))
}

/// Reading one frame from the front of `input`: the tag, the payload, and
/// the number of bytes the frame occupies.
pub open spec fn spec_read_frame(input: Seq<u8>) -> Result<(u8, Seq<u8>, nat), ProtocolError> {
    if input.len() < 5 {
        Err(ProtocolError::UnexpectedEof)
    } else {
        let len = from_be_u32(input.subrange(1, 5));
        if len > MAX_PAYLOAD {
            Err(ProtocolError::PayloadTooLarge(len as usize))
        } else if input.len() < 5 + len {
            Err(ProtocolError::UnexpectedEof)
        } else {
            Ok((input[0], input.subrange(5, 5 + len as int), 5 + len))
        }
    }
}

/// Interpreting a frame as a server message.
pub open spec fn spec_decode_server(tag: u8, p: Seq<u8>) -> Result<ServerMsgModel, ProtocolError> {
    if tag == TAG_OUTPUT {
        Ok(ServerMsgModel::Output(p))
    } else if tag == TAG_RESIZED {
        if p.len() < 4 {
            Err(ProtocolError::ShortPayload(tag))
        } else {
            Ok(ServerMsgModel::Resized { cols: from_be_u16(p[0], p[1]), rows: from_be_u16(p[2], p[3]) })
        }
    } else if tag == TAG_EXITED {
        if p.len() < 4 {
            Err(ProtocolError::ShortPayload(tag))
        } else {
            Ok(ServerMsgModel::Exited(i32_from_bits(from_be_u32(p))))
        }
    } else {
        Err(ProtocolError::UnknownServerTag(tag))
    }
}

/// Interpreting a frame as a client message.
pub open spec fn spec_decode_client(tag: u8, p: Seq<u8>) -> Result<ClientMsgModel, ProtocolError> {
    if tag == TAG_INPUT {
        Ok(ClientMsgModel::Input(p))
    } else if tag == TAG_RESIZE {
        if p.len() < 4 {
            Err(ProtocolError::ShortPayload(tag))
        } else {
            Ok(ClientMsgModel::Resize { cols: from_be_u16(p[0], p[1]), rows: from_be_u16(p[2], p[3]) })
        }
    } else if tag == TAG_KILL {
        Ok(ClientMsgModel::Kill)
    } else {
        Err(ProtocolError::UnknownClientTag(tag))
    }
}

/// Reading one server message from the front of `input`.
pub open spec fn spec_read_server(input: Seq<u8>) -> Result<(ServerMsgModel, nat), ProtocolError> {
    match spec_read_frame(input) {
        Err(e) => Err(e),
        Ok((tag, p, n)) => match spec_decode_server(tag, p) {
            Err(e) => Err(e),
            Ok(m) => Ok((m, n)),
        },
    }
}

/// Reading one client message from the front of `input`.
pub open spec fn spec_read_client(input: Seq<u8>) -> Result<(ClientMsgModel, nat), ProtocolError> {
    match spec_read_frame(input) {
        Err(e) => Err(e),
        Ok((tag, p, n)) => match spec_decode_client(tag, p) {
            Err(e) => Err(e),
            Ok(m) => Ok((m, n)),
        },
    }
}

// ---------------------------------------------------------------------------
// Arithmetic facts
// ---------------------------------------------------------------------------

proof fn lemma_be_u32_roundtrip(n: nat)
    requires
        n < 0x1_0000_0000,
    ensures
        from_be_u32(be_u32(n)) == n,
        be_u32(n).len() == 4,
{
    reveal(be_u32);
    reveal(from_be_u32);
    let x = n as u32;
    assert(x as nat == n);
    assert((x / 0x100_0000) * 0x100_0000 + ((x / 0x1_0000) % 0x100) * 0x1_0000 + ((x / 0x100) % 0x100) * 0x100
        + x % 0x100 == x) by (bit_vector);
    assert(x / 0x100_0000 < 0x100) by (bit_vector);
    let b = be_u32(n);
    assert(n % 0x1_0000_0000 == n);
}

proof fn lemma_be_u32_len(n: nat)
    ensures
        be_u32(n).len() == 4,
{
    reveal(be_u32);
}

proof fn lemma_be_u16_roundtrip(v: u16)
    ensures
        from_be_u16(be_u16(v)[0], be_u16(v)[1]) == v,
{
    let b = be_u16(v);
    assert(v / 0x100 < 0x100);
    assert((v / 0x100) * 0x100 + v % 0x100 == v);
}

proof fn lemma_i32_bits_roundtrip(c: i32)
    ensures
        i32_bits(c) < 0x1_0000_0000,
        i32_from_bits(i32_bits(c)) == c,
{
}

// ---------------------------------------------------------------------------
// Encoding
// ---------------------------------------------------------------------------

fn push_be_u32(w: &mut Vec<u8>, n: u32)
    ensures
        final(w)@ == old(w)@ + be_u32(n as nat),
{
    let b0 = (n / 0x100_0000) as u8;
    let b1 = ((n / 0x1_0000) % 0x100) as u8;
    let b2 = ((n / 0x100) % 0x100) as u8;
    let b3 = (n % 0x100) as u8;
    reveal(be_u32);
    w.push(b0);
    w.push(b1);
    w.push(b2);
    w.push(b3);
    assert(final(w)@ =~= old(w)@ + be_u32(n as nat));
}

fn push_be_u16(w: &mut Vec<u8>, v: u16)
    ensures
        final(w)@ == old(w)@ + be_u16(v),
{
    w.push((v / 0x100) as u8);
    w.push((v % 0x100) as u8);
    assert(final(w)@ =~= old(w)@ + be_u16(v));
}

fn push_all(w: &mut Vec<u8>, data: &[u8])
    ensures
        final(w)@ == old(w)@ + data@,
{
    let mut i: usize = 0;
    while i < data.len()
        invariant
            i <= data@.len(),
            w@ == old(w)@ + data@.subrange(0, i as int),
        decreases data@.len() - i,
    {
        w.push(data[i]);
        i = i + 1;
        assert(w@ =~= old(w)@ + data@.subrange(0, i as int));
    }
    assert(data@.subrange(0, data@.len() as int) =~= data@);
}

/// Appends one frame with the given tag and payload. The length field holds
/// the payload length modulo 2^32, as a `u32` cast of it does.
fn write_frame(w: &mut Vec<u8>, tag: u8, payload: &[u8])
    ensures
        final(w)@ == old(w)@ + spec_frame(tag, payload@),
{
    w.push(tag);
    let len: usize = payload.len();
    let len32: u32 = (len as u64 % 0x1_0000_0000) as u32;
    push_be_u32(w, len32);
    push_all(w, payload);
    assert(be_u32(len32 as nat) =~= be_u32(payload@.len())) by {
        reveal(be_u32);
        assert((len32 as nat) % 0x1_0000_0000 == (payload@.len() as nat) % 0x1_0000_0000);
    }
    assert(final(w)@ =~= old(w)@ + spec_frame(tag, payload@));
}

fn exit_code_bits(code: i32) -> (u: u32)
    ensures
        u as nat == i32_bits(code),
{
    if code < 0 {
        (code as i64 + 0x1_0000_0000i64) as u32
    } else {
        code as u32
    }
}

/// Appends the encoding of a server message to `w`.
pub fn write_server_msg(w: &mut Vec<u8>, msg: &ServerMsg)
    ensures
        final(w)@ == old(w)@ + spec_encode_server(msg@),
{
    match msg {
        ServerMsg::Output(data) => write_frame(w, TAG_OUTPUT, data.as_slice()),
        ServerMsg::Resized { cols, rows } => {
            let mut buf: Vec<u8> = Vec::new();
            push_be_u16(&mut buf, *cols);
            push_be_u16(&mut buf, *rows);
            assert(buf@ =~= spec_size_payload(*cols, *rows));
            write_frame(w, TAG_RESIZED, buf.as_slice());
        },
        ServerMsg::Exited(code) => {
            let mut buf: Vec<u8> = Vec::new();
            push_be_u32(&mut buf, exit_code_bits(*code));
            assert(buf@ =~= be_u32(i32_bits(*code)));
            write_frame(w, TAG_EXITED, buf.as_slice());
        },
    }
}

/// Appends the encoding of a client message to `w`.
pub fn write_client_msg(w: &mut Vec<u8>, msg: &ClientMsg)
    ensures
        final(w)@ == old(w)@ + spec_encode_client(msg@),
{
    match msg {
        ClientMsg::Input(data) => write_frame(w, TAG_INPUT, data.as_slice()),
        ClientMsg::Resize { cols, rows } => {
            let mut buf: Vec<u8> = Vec::new();
            push_be_u16(&mut buf, *cols);
            push_be_u16(&mut buf, *rows);
            assert(buf@ =~= spec_size_payload(*cols, *rows));
            write_frame(w, TAG_RESIZE, buf.as_slice());
        },
        ClientMsg::Kill => {
            let empty: Vec<u8> = Vec::new();
            assert(empty@ =~= Seq::<u8>::empty());
            write_frame(w, TAG_KILL, empty.as_slice());
        },
    }
}

/// Serializes a server message into a self-contained byte buffer
/// (tag, length and payload), ready to hand to a per-client writer.
pub fn serialize_server_msg(msg: &ServerMsg) -> (buf: Vec<u8>)
    ensures
        buf@ == spec_encode_server(msg@),
{
    let mut buf: Vec<u8> = Vec::new();
    write_server_msg(&mut buf, msg);
    assert(buf@ =~= spec_encode_server(msg@));
    buf
}

/// Serializes an Output message from a borrowed slice, without cloning it
/// into a message first.
pub fn serialize_output_slice(data: &[u8]) -> (buf: Vec<u8>)
    ensures
        buf@ == spec_encode_server(ServerMsgModel::Output(data@)),
{
    let mut buf: Vec<u8> = Vec::new();
    write_frame(&mut buf, TAG_OUTPUT, data);
    assert(buf@ =~= spec_encode_server(ServerMsgModel::Output(data@)));
    buf
}

// ---------------------------------------------------------------------------
// Decoding
// ---------------------------------------------------------------------------

/// Reads the five-byte header at the front of `input`: the tag and the
/// payload length. Fails when fewer than five bytes are present or the
/// length exceeds [`MAX_PAYLOAD`].
pub fn read_frame_header(input: &[u8]) -> (r: Result<(u8, usize), ProtocolError>)
    ensures
        input@.len() < 5 ==> r == Err::<(u8, usize), ProtocolError>(ProtocolError::UnexpectedEof),
        input@.len() >= 5 ==> ({
            let len = from_be_u32(input@.subrange(1, 5));
            &&& len > MAX_PAYLOAD ==> r == Err::<(u8, usize), ProtocolError>(ProtocolError::PayloadTooLarge(len as usize))
            &&& len <= MAX_PAYLOAD ==> r == Ok::<(u8, usize), ProtocolError>((input@[0], len as usize))
        }),
{
    if input.len() < 5 {
        return Err(ProtocolError::UnexpectedEof);
    }
    let tag = input[0];
    let len: u64 = (input[1] as u64) * 0x100_0000 + (input[2] as u64) * 0x1_0000 + (input[3] as u64) * 0x100
        + (input[4] as u64);
    reveal(from_be_u32);
    assert(len == from_be_u32(input@.subrange(1, 5)));
    if len > MAX_PAYLOAD as u64 {
        return Err(ProtocolError::PayloadTooLarge(len as usize));
    }
    Ok((tag, len as usize))
}

fn read_frame(input: &[u8]) -> (r: Result<(u8, Vec<u8>, usize), ProtocolError>)
    ensures
        match spec_read_frame(input@) {
            Ok((t, p, n)) => r matches Ok((t2, p2, n2)) && t2 == t && p2@ == p && n2 == n,
            Err(e) => r == Err::<(u8, Vec<u8>, usize), ProtocolError>(e),
        },
{
    let (tag, len) = match read_frame_header(input) {
        Ok(h) => h,
        Err(e) => return Err(e),
    };
    if input.len() - 5 < len {
        return Err(ProtocolError::UnexpectedEof);
    }
    let mut payload: Vec<u8> = Vec::new();
    let mut i: usize = 0;
    while i < len
        invariant
            i <= len,
            5 + len <= input@.len(),
            input@.len() == input.len(),
            payload@ == input@.subrange(5, 5 + i as int),
        decreases len - i,
    {
        payload.push(input[5 + i]);
        i = i + 1;
        assert(payload@ =~= input@.subrange(5, 5 + i as int));
    }
    Ok((tag, payload, 5 + len))
}

fn be_u16_at(p: &Vec<u8>, i: usize) -> (v: u16)
    requires
        i + 1 < p@.len(),
    ensures
        v == from_be_u16(p@[i as int], p@[i + 1]),
{
    assert(p@.len() == p.len());
    (p[i] as u16) * 0x100 + (p[i + 1] as u16)
}

fn exit_code_from(p: &Vec<u8>) -> (c: i32)
    requires
        p@.len() >= 4,
    ensures
        c == i32_from_bits(from_be_u32(p@)),
{
    reveal(from_be_u32);
    let u: u64 = (p[0] as u64) * 0x100_0000 + (p[1] as u64) * 0x1_0000 + (p[2] as u64) * 0x100 + (p[3] as u64);
    if u >= 0x8000_0000 {
        (u as i64 - 0x1_0000_0000i64) as i32
    } else {
        u as i32
    }
}

/// Interprets a frame as a server message.
pub fn decode_server_msg(tag: u8, payload: Vec<u8>) -> (r: Result<ServerMsg, ProtocolError>)
    ensures
        match spec_decode_server(tag, payload@) {
            Ok(m) => r matches Ok(msg) && msg@ == m,
            Err(e) => r == Err::<ServerMsg, ProtocolError>(e),
        },
{
    if tag == TAG_OUTPUT {
        Ok(ServerMsg::Output(payload))
    } else if tag == TAG_RESIZED {
        if payload.len() < 4 {
            return Err(ProtocolError::ShortPayload(tag));
        }
        let cols = be_u16_at(&payload, 0);
        let rows = be_u16_at(&payload, 2);
        Ok(ServerMsg::Resized { cols, rows })
    } else if tag == TAG_EXITED {
        if payload.len() < 4 {
            return Err(ProtocolError::ShortPayload(tag));
        }
        Ok(ServerMsg::Exited(exit_code_from(&payload)))
    } else {
        Err(ProtocolError::UnknownServerTag(tag))
    }
}

/// Interprets a frame as a client message.
pub fn decode_client_msg(tag: u8, payload: Vec<u8>) -> (r: Result<ClientMsg, ProtocolError>)
    ensures
        match spec_decode_client(tag, payload@) {
            Ok(m) => r matches Ok(msg) && msg@ == m,
            Err(e) => r == Err::<ClientMsg, ProtocolError>(e),
        },
{
    if tag == TAG_INPUT {
        Ok(ClientMsg::Input(payload))
    } else if tag == TAG_RESIZE {
        if payload.len() < 4 {
            return Err(ProtocolError::ShortPayload(tag));
        }
        let cols = be_u16_at(&payload, 0);
        let rows = be_u16_at(&payload, 2);
        Ok(ClientMsg::Resize { cols, rows })
    } else if tag == TAG_KILL {
        Ok(ClientMsg::Kill)
    } else {
        Err(ProtocolError::UnknownClientTag(tag))
    }
}

/// Reads one server message from the front of `input`, returning it with
/// the number of bytes its frame occupies.
pub fn read_server_msg(input: &[u8]) -> (r: Result<(ServerMsg, usize), ProtocolError>)
    ensures
        match spec_read_server(input@) {
            Ok((m, n)) => r matches Ok((msg, n2)) && msg@ == m && n2 == n,
            Err(e) => r == Err::<(ServerMsg, usize), ProtocolError>(e),
        },
{
    match read_frame(input) {
        Err(e) => Err(e),
        Ok((tag, payload, n)) => match decode_server_msg(tag, payload) {
            Err(e) => Err(e),
            Ok(m) => Ok((m, n)),
        },
    }
}

/// Reads one client message from the front of `input`, returning it with
/// the number of bytes its frame occupies.
pub fn read_client_msg(input: &[u8]) -> (r: Result<(ClientMsg, usize), ProtocolError>)
    ensures
        match spec_read_client(input@) {
            Ok((m, n)) => r matches Ok((msg, n2)) && msg@ == m && n2 == n,
            Err(e) => r == Err::<(ClientMsg, usize), ProtocolError>(e),
        },
{
    match read_frame(input) {
        Err(e) => Err(e),
        Ok((tag, payload, n)) => match decode_client_msg(tag, payload) {
            Err(e) => Err(e),
            Ok(m) => Ok((m, n)),
        },
    }
}

// ---------------------------------------------------------------------------
// Laws
// ---------------------------------------------------------------------------

proof fn lemma_read_frame_of(tag: u8, payload: Seq<u8>, rest: Seq<u8>)
    requires
        payload.len() <= MAX_PAYLOAD,
    ensures
        spec_read_frame(spec_frame(tag, payload) + rest) == Ok::<(u8, Seq<u8>, nat), ProtocolError>(
            (tag, payload, 5 + payload.len()),
        ),
{
    let bytes = spec_frame(tag, payload) + rest;
    lemma_be_u32_len(payload.len());
    lemma_be_u32_roundtrip(payload.len());
    assert(bytes.subrange(1, 5) =~= be_u32(payload.len()));
    assert(bytes.subrange(5, 5 + payload.len() as int) =~= payload);
}

proof fn lemma_decode_server_of_encode(m: ServerMsgModel)
    ensures
        spec_decode_server(spec_server_tag(m), spec_server_payload(m)) == Ok::<ServerMsgModel, ProtocolError>(m),
{
    match m {
        ServerMsgModel::Output(_) => {},
        ServerMsgModel::Resized { cols, rows } => {
            lemma_be_u16_roundtrip(cols);
            lemma_be_u16_roundtrip(rows);
        },
        ServerMsgModel::Exited(c) => {
            lemma_i32_bits_roundtrip(c);
            lemma_be_u32_roundtrip(i32_bits(c));
        },
    }
}

/// A server message read back from the front of its own encoding, followed
/// by any further bytes, is the message written, and the read consumes
/// exactly the encoding (payloads up to [`MAX_PAYLOAD`] bytes).
pub proof fn lemma_server_roundtrip(m: ServerMsgModel, rest: Seq<u8>)
    requires
        spec_server_payload(m).len() <= MAX_PAYLOAD,
    ensures
        spec_read_server(spec_encode_server(m) + rest) == Ok::<(ServerMsgModel, nat), ProtocolError>(
            (m, spec_encode_server(m).len()),
        ),
{
    let tag = spec_server_tag(m);
    let p = spec_server_payload(m);
    let bytes = spec_encode_server(m) + rest;
    lemma_read_frame_of(tag, p, rest);
    lemma_decode_server_of_encode(m);
    lemma_be_u32_len(p.len());
    let fr = spec_read_frame(bytes);
    assert(fr == Ok::<(u8, Seq<u8>, nat), ProtocolError>((tag, p, 5 + p.len())));
    assert(spec_encode_server(m).len() == 5 + p.len());
}

/// A client message read back from the front of its own encoding, followed
/// by any further bytes, is the message written, and the read consumes
/// exactly the encoding (payloads up to [`MAX_PAYLOAD`] bytes).
pub proof fn lemma_client_roundtrip(m: ClientMsgModel, rest: Seq<u8>)
    requires
        spec_client_payload(m).len() <= MAX_PAYLOAD,
    ensures
        spec_read_client(spec_encode_client(m) + rest) == Ok::<(ClientMsgModel, nat), ProtocolError>(
            (m, spec_encode_client(m).len()),
        ),
{
    lemma_read_frame_of(spec_client_tag(m), spec_client_payload(m), rest);
    lemma_be_u32_len(spec_client_payload(m).len());
    match m {
        ClientMsgModel::Input(_) => {},
        ClientMsgModel::Resize { cols, rows } => {
            lemma_be_u16_roundtrip(cols);
            lemma_be_u16_roundtrip(rows);
        },
        ClientMsgModel::Kill => {},
    }
}

/// Every frame is five header bytes followed by the payload.
pub proof fn lemma_frame_length(tag: u8, payload: Seq<u8>)
    ensures
        spec_frame(tag, payload).len() == 5 + payload.len(),
        spec_frame(tag, payload)[0] == tag,
{
    lemma_be_u32_len(payload.len());
}

/// The server and client tag spaces are disjoint: no server message is
/// accepted by the client decoder, and no client message by the server
/// decoder.
pub proof fn lemma_tags_disjoint(sm: ServerMsgModel, cm: ClientMsgModel, p: Seq<u8>)
    ensures
        spec_decode_client(spec_server_tag(sm), p) is Err,
        spec_decode_server(spec_client_tag(cm), p) is Err,
{
}

} // verus!
