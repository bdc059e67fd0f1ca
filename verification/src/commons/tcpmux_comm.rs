use vstd::prelude::*;

use crate::cipher::{lemma_rc4_apply_involution, rc4_apply, Rc4Cipher};
use crate::commons::{rc4_crypto, Address};
use crate::error::ProxyError;
use crate::wire::{
    be16, be32, copy_range, from_be16, from_be32, lemma_be16_roundtrip, lemma_be16_value,
    lemma_be32_roundtrip, lemma_be32_value, lemma_from_be16_value, lemma_from_be32_value,
    put_slice, put_u16, put_u32, put_u8, u16_from_be, u32_from_be,
};

verus! {

/// Type byte of a message that opens a channel.
pub const CONNECT: u8 = 0x00;

/// Type byte of a message that closes a channel.
pub const DISCONNECT: u8 = 0x01;

/// Type byte of a message that carries data on a channel.
pub const DATA: u8 = 0x03;

/// Size of the buffers a reader and a writer work in: the largest payload
/// a frame can carry.
pub const BUFF_SIZE: usize = 65535;

/// Identifies one logical channel inside a multiplexed connection.
pub type ChannelId = u32;

/// A message of the multiplexed protocol.
pub enum Msg<'a> {
    /// Open a channel to a target address.
    Connect(ChannelId, Address),
    /// Close a channel.
    Disconnect(ChannelId),
    /// Bytes for a channel.
    Data(ChannelId, &'a [u8]),
}

/// The mathematical content of a message.
pub enum MsgModel {
    Connect(u32, Seq<u8>, u16),
    Disconnect(u32),
    Data(u32, Seq<u8>),
}

impl<'a> View for Msg<'a> {
    type V = MsgModel;

    open spec fn view(&self) -> MsgModel {
        match self {
            Msg::Connect(id, addr) => MsgModel::Connect(*id, addr.0@, addr.1),
            Msg::Disconnect(id) => MsgModel::Disconnect(*id),
            Msg::Data(id, data) => MsgModel::Data(*id, data@),
        }
    }
}

/// The encoding of a message: its type byte, the channel id in big-endian
/// order, then for a connect message the host bytes and the big-endian port,
/// for a data message the data.
pub open spec fn msg_bytes(m: MsgModel) -> Seq<u8> {
    match m {
        MsgModel::Connect(id, host, port) => seq![CONNECT] + be32(id) + host + be16(port),
        MsgModel::Disconnect(id) => seq![DISCONNECT] + be32(id),
        MsgModel::Data(id, data) => seq![DATA] + be32(id) + data,
    }
}

/// Inputs that decoding accepts without panicking: a type byte and a channel
/// id, and for a connect message at least a port.
pub open spec fn decodable(data: Seq<u8>) -> bool {
    &&& data.len() >= 5
    &&& data[0] == CONNECT ==> data.len() >= 7
}

/// The message that a decodable input holds, or `None` for an unknown type.
/// Whatever follows the channel id of a disconnect message is ignored.
pub open spec fn parse_msg(data: Seq<u8>) -> Option<MsgModel> {
    let id = from_be32(data.subrange(1, 5));
    let len = data.len() as int;
    if data[0] == CONNECT {
        Some(
            MsgModel::Connect(
                id,
                data.subrange(5, len - 2),
                from_be16(data.subrange(len - 2, len)),
            ),
        )
    } else if data[0] == DISCONNECT {
        Some(MsgModel::Disconnect(id))
    } else if data[0] == DATA {
        Some(MsgModel::Data(id, data.subrange(5, len)))
    } else {
        None
    }
}

impl<'a> Msg<'a> {
    /// The encoding of the message.
    pub fn encode(self) -> (r: Vec<u8>)
        ensures
            r@ == msg_bytes(self@),
    {
        encode(self)
    }
}

fn encode(msg: Msg) -> (r: Vec<u8>)
    ensures
        r@ == msg_bytes(msg@),
{
    match msg {
        Msg::Connect(id, addr) => encode_connect_msg(addr, id),
        Msg::Disconnect(id) => encode_disconnect_msg(id),
        Msg::Data(id, data) => encode_data_msg(id, &data),
    }
}

/// Encodes a message that opens channel `channel_id` to `addr`.
pub fn encode_connect_msg(addr: Address, channel_id: ChannelId) -> (r: Vec<u8>)
    ensures
        r@ == msg_bytes(MsgModel::Connect(channel_id, addr.0@, addr.1)),
{
    let (host, port) = addr;
    let mut buff: Vec<u8> = Vec::new();

    put_u8(&mut buff, CONNECT);
    put_u32(&mut buff, channel_id);
    put_slice(&mut buff, host.as_slice());
    put_u16(&mut buff, port);
    buff
}

/// Encodes a message that closes channel `channel_id`.
pub fn encode_disconnect_msg(channel_id: ChannelId) -> (r: Vec<u8>)
    ensures
        r@ == msg_bytes(MsgModel::Disconnect(channel_id)),
{
    let mut buff: Vec<u8> = Vec::new();
    put_u8(&mut buff, DISCONNECT);
    put_u32(&mut buff, channel_id);
    buff
}

/// Encodes a message that carries `data` on channel `channel_id`.
pub fn encode_data_msg(channel_id: ChannelId, data: &[u8]) -> (r: Vec<u8>)
    ensures
        r@ == msg_bytes(MsgModel::Data(channel_id, data@)),
{
    let mut buff: Vec<u8> = Vec::new();
    put_u8(&mut buff, DATA);
    put_u32(&mut buff, channel_id);
    put_slice(&mut buff, data);
    buff
}

/// Decodes a message. A data message borrows its bytes from `data`.
pub fn decode<'a>(data: &'a [u8]) -> (r: Result<Msg<'a>, ProxyError>)
    requires
        decodable(data@),
    ensures
        match parse_msg(data@) {
            Some(m) => r matches Ok(msg) && msg@ == m,
            None => r matches Err(ProxyError::Message),
        },
{
    let len = data.len();
    let mode = data[0];
    let channel_id = u32_from_be(data[1], data[2], data[3], data[4]);
    assert(seq![data@[1], data@[2], data@[3], data@[4]] =~= data@.subrange(1, 5));

    if mode == CONNECT {
        let host = copy_range(data, 5, len - 2);
        let port = u16_from_be(data[len - 2], data[len - 1]);
        assert(seq![data@[len - 2], data@[len - 1]] =~= data@.subrange(len - 2, len as int));
        Ok(Msg::Connect(channel_id, (host, port)))
    } else if mode == DISCONNECT {
        Ok(Msg::Disconnect(channel_id))
    } else if mode == DATA {
        Ok(Msg::Data(channel_id, &data[5..len]))
    } else {
        Err(ProxyError::Message)
    }
}


/// A frame on the wire: the big-endian length of the payload, then the
/// payload encrypted with RC4 from the writer's key-stream offset.
pub open spec fn frame_bytes(key: Seq<u8>, offset: nat, payload: Seq<u8>) -> Seq<u8> {
    be16(payload.len() as u16) + rc4_apply(key, offset, payload)
}

/// Encrypts messages for one direction of a multiplexed connection.
/// `writer` is where the program sends the frames.
pub struct MsgWriter<W> {
    pub writer: W,
    rc4: Rc4Cipher,
    buff: Vec<u8>,
}

impl<W> MsgWriter<W> {
    /// The work buffer has its full size.
    pub closed spec fn wf(&self) -> bool {
        self.buff@.len() == BUFF_SIZE
    }

    /// The key and key-stream offset of the writer's cipher.
    pub closed spec fn cipher(&self) -> (Seq<u8>, nat) {
        self.rc4@
    }

    /// Where the frames go.
    pub closed spec fn sink(&self) -> W {
        self.writer
    }

    /// A writer that sends to `writer`, encrypting with `rc4`.
    pub fn new(writer: W, rc4: Rc4Cipher) -> (r: MsgWriter<W>)
        ensures
            r.wf(),
            r.sink() == writer,
            r.cipher() == rc4@,
    {
        MsgWriter { writer, rc4, buff: vec![0u8; BUFF_SIZE] }
    }

    /// The frame that carries `msg`: its length as two big-endian bytes,
    /// then `msg` encrypted. The cipher moves on by the length of `msg`.
    /// Payloads longer than the work buffer are not accepted.
    pub fn seal_msg(&mut self, msg: &[u8]) -> (r: Result<Vec<u8>, ProxyError>)
        requires
            old(self).wf(),
            msg@.len() <= BUFF_SIZE,
        ensures
            final(self).wf(),
            r matches Ok(f) && f@ == frame_bytes(old(self).cipher().0, old(self).cipher().1, msg@),
            final(self).cipher() == (old(self).cipher().0, old(self).cipher().1 + msg@.len()),
            final(self).sink() == old(self).sink(),
    {
        let msg_len = rc4_crypto(msg, self.buff.as_mut_slice(), &mut self.rc4)?;
        let mut out: Vec<u8> = Vec::with_capacity(msg_len + 2);
        put_u16(&mut out, msg_len as u16);
        put_slice(&mut out, &self.buff.as_slice()[0..msg_len]);
        Ok(out)
    }
}

/// Decrypts the payloads of frames for one direction of a multiplexed
/// connection. `reader` is where the program reads the frames from.
pub struct MsgReader<R> {
    pub reader: R,
    rc4: Rc4Cipher,
    out: Vec<u8>,
}

impl<R> MsgReader<R> {
    /// The work buffer has its full size.
    pub closed spec fn wf(&self) -> bool {
        self.out@.len() == BUFF_SIZE
    }

    /// The key and key-stream offset of the reader's cipher.
    pub closed spec fn cipher(&self) -> (Seq<u8>, nat) {
        self.rc4@
    }

    /// Where the frames come from.
    pub closed spec fn source(&self) -> R {
        self.reader
    }

    /// A reader that reads from `reader`, decrypting with `rc4`.
    pub fn new(reader: R, rc4: Rc4Cipher) -> (r: MsgReader<R>)
        ensures
            r.wf(),
            r.source() == reader,
            r.cipher() == rc4@,
    {
        MsgReader { reader, rc4, out: vec![0u8; BUFF_SIZE] }
    }

    /// Decrypts the payload of a frame. The cipher moves on by its length.
    pub fn open_payload(&mut self, data: &[u8]) -> (r: Result<Vec<u8>, ProxyError>)
        requires
            old(self).wf(),
            data@.len() <= BUFF_SIZE,
        ensures
            final(self).wf(),
            r matches Ok(p) && p@ == rc4_apply(old(self).cipher().0, old(self).cipher().1, data@),
            final(self).cipher() == (old(self).cipher().0, old(self).cipher().1 + data@.len()),
            final(self).source() == old(self).source(),
    {
        let n = rc4_crypto(data, self.out.as_mut_slice(), &mut self.rc4)?;
        let payload = copy_range(self.out.as_slice(), 0, n);
        Ok(payload)
    }
}

/// Decoding an encoded message gives the message back.
pub proof fn lemma_decode_encode(m: MsgModel)
    ensures
        decodable(msg_bytes(m)),
        parse_msg(msg_bytes(m)) == Some(m),
{
    let b = msg_bytes(m);
    match m {
        MsgModel::Connect(id, host, port) => {
            lemma_be32_roundtrip(id);
            lemma_be16_roundtrip(port);
            assert(b.subrange(1, 5) =~= be32(id));
            assert(b.subrange(5, b.len() - 2) =~= host);
            assert(b.subrange(b.len() - 2, b.len() as int) =~= be16(port));
        },
        MsgModel::Disconnect(id) => {
            lemma_be32_roundtrip(id);
            assert(b.subrange(1, 5) =~= be32(id));
        },
        MsgModel::Data(id, data) => {
            lemma_be32_roundtrip(id);
            assert(b.subrange(1, 5) =~= be32(id));
            assert(b.subrange(5, b.len() as int) =~= data);
        },
    }
}

/// The layout of an encoded message, byte by byte: the type byte (0 for a
/// connect, 1 for a disconnect, 3 for data), the channel id in four bytes,
/// most significant first, then for a connect the host bytes followed by the
/// port, high byte first, and for data the data itself.
pub proof fn lemma_msg_layout(m: MsgModel)
    ensures
        ({
            let b = msg_bytes(m);
            let id = match m {
                MsgModel::Connect(id, _, _) => id,
                MsgModel::Disconnect(id) => id,
                MsgModel::Data(id, _) => id,
            };
            &&& b.len() >= 5
            &&& b[1] as int * 0x100_0000 + b[2] as int * 0x1_0000 + b[3] as int * 256 + b[4] as int
                == id as int
            &&& match m {
                MsgModel::Connect(_, host, port) => {
                    &&& b.len() == 5 + host.len() as int + 2
                    &&& b[0] == 0x00u8
                    &&& b.subrange(5, 5 + host.len() as int) == host
                    &&& b[5 + host.len() as int] as int == port as int / 256
                    &&& b[6 + host.len() as int] as int == port as int % 256
                },
                MsgModel::Disconnect(_) => b.len() == 5 && b[0] == 0x01u8,
                MsgModel::Data(_, data) => {
                    &&& b.len() == 5 + data.len()
                    &&& b[0] == 0x03u8
                    &&& b.subrange(5, b.len() as int) == data
                },
            }
        }),
{
    let b = msg_bytes(m);
    match m {
        MsgModel::Connect(id, host, port) => {
            lemma_be32_value(id);
            lemma_be16_value(port);
            assert(b.subrange(5, 5 + host.len() as int) =~= host);
            assert(b[5 + host.len() as int] == be16(port)[0]);
            assert(b[6 + host.len() as int] == be16(port)[1]);
        },
        MsgModel::Disconnect(id) => {
            lemma_be32_value(id);
        },
        MsgModel::Data(id, data) => {
            lemma_be32_value(id);
            assert(b.subrange(5, b.len() as int) =~= data);
        },
    }
}

/// How decoding reads its input: the channel id from bytes 1 to 4, most
/// significant first; for a connect message the port from the last two
/// bytes, high byte first, and the host from what lies between; for data
/// everything after the id.
pub proof fn lemma_parse_values(data: Seq<u8>)
    requires
        decodable(data),
    ensures
        ({
            let id = data[1] as int * 0x100_0000 + data[2] as int * 0x1_0000 + data[3] as int * 256
                + data[4] as int;
            let len = data.len() as int;
            &&& data[0] == 0x00u8 ==> (parse_msg(data) matches Some(MsgModel::Connect(c, host, port))
                && c as int == id && host == data.subrange(5, len - 2) && port as int == data[len
                - 2] as int * 256 + data[len - 1] as int)
            &&& data[0] == 0x01u8 ==> (parse_msg(data) matches Some(MsgModel::Disconnect(c)) && c as int
                == id)
            &&& data[0] == 0x03u8 ==> (parse_msg(data) matches Some(MsgModel::Data(c, d)) && c as int
                == id && d == data.subrange(5, len))
            &&& data[0] != 0x00u8 && data[0] != 0x01u8 && data[0] != 0x03u8 ==> parse_msg(data) is None
        }),
{
    let len = data.len() as int;
    assert(data.subrange(1, 5) =~= seq![data[1], data[2], data[3], data[4]]);
    lemma_from_be32_value(data[1], data[2], data[3], data[4]);
    if data[0] == 0x00u8 {
        assert(data.subrange(len - 2, len) =~= seq![data[len - 2], data[len - 1]]);
        lemma_from_be16_value(data[len - 2], data[len - 1]);
    }
}

/// What a reader gets from a frame is what the writer sealed: when both
/// ciphers have the same key and offset, the frame's header holds the length
/// of the message, and decrypting the rest gives the message back; if the
/// message is an encoded one, decoding it gives that message.
pub proof fn lemma_frame_roundtrip(key: Seq<u8>, offset: nat, m: MsgModel)
    requires
        msg_bytes(m).len() <= BUFF_SIZE,
    ensures
        ({
            let payload = msg_bytes(m);
            let f = frame_bytes(key, offset, payload);
            &&& f.len() == payload.len() + 2
            &&& from_be16(f.subrange(0, 2)) == payload.len()
            &&& rc4_apply(key, offset, f.subrange(2, f.len() as int)) == payload
            &&& decodable(payload)
            &&& parse_msg(payload) == Some(m)
        }),
{
    let payload = msg_bytes(m);
    let f = frame_bytes(key, offset, payload);
    lemma_be16_roundtrip(payload.len() as u16);
    assert(f.subrange(0, 2) =~= be16(payload.len() as u16));
    assert(f.subrange(2, f.len() as int) =~= rc4_apply(key, offset, payload));
    lemma_rc4_apply_involution(key, offset, payload);
    lemma_decode_encode(m);
}


/// The bytes on the wire after sealing `payloads` one after another,
/// starting at key-stream offset `offset`.
pub open spec fn seal_all(key: Seq<u8>, offset: nat, payloads: Seq<Seq<u8>>) -> Seq<u8>
    decreases payloads.len(),
{
    if payloads.len() == 0 {
        Seq::empty()
    } else {
        frame_bytes(key, offset, payloads[0]) + seal_all(
            key,
            offset + payloads[0].len(),
            payloads.drop_first(),
        )
    }
}

/// The payloads of the first `n` frames of `wire`, each read by its length
/// header and decrypted from where the previous one left the cipher.
pub open spec fn open_all(key: Seq<u8>, offset: nat, wire: Seq<u8>, n: nat) -> Seq<Seq<u8>>
    decreases n,
{
    if n == 0 {
        Seq::empty()
    } else {
        let len = from_be16(wire.subrange(0, 2)) as int;
        let payload = rc4_apply(key, offset, wire.subrange(2, 2 + len));
        seq![payload] + open_all(key, offset + len as nat, wire.subrange(2 + len, wire.len() as int), (n - 1) as nat)
    }
}

/// A reader whose cipher starts where the writer's did reads the frames of
/// a stream back in order: every payload the writer sealed comes out as it
/// went in, the two ciphers staying in step from frame to frame.
pub proof fn lemma_stream_roundtrip(key: Seq<u8>, offset: nat, payloads: Seq<Seq<u8>>)
    requires
        forall|i: int| 0 <= i < payloads.len() ==> #[trigger] payloads[i].len() <= BUFF_SIZE,
    ensures
        open_all(key, offset, seal_all(key, offset, payloads), payloads.len()) == payloads,
    decreases payloads.len(),
{
    if payloads.len() > 0 {
        let p = payloads[0];
        let rest = payloads.drop_first();
        assert(forall|i: int| 0 <= i < rest.len() ==> #[trigger] rest[i] == payloads[i + 1]);
        assert(p.len() <= BUFF_SIZE);
        let f = frame_bytes(key, offset, p);
        let tail = seal_all(key, offset + p.len(), rest);
        let wire = seal_all(key, offset, payloads);
        assert(wire == f + tail);
        lemma_be16_roundtrip(p.len() as u16);
        assert(wire.subrange(0, 2) =~= be16(p.len() as u16));
        assert(wire.subrange(2, 2 + p.len() as int) =~= rc4_apply(key, offset, p));
        lemma_rc4_apply_involution(key, offset, p);
        assert(wire.subrange(2 + p.len() as int, wire.len() as int) =~= tail);
        lemma_stream_roundtrip(key, offset + p.len(), rest);
        assert(open_all(key, offset, wire, payloads.len()) =~= seq![p] + rest);
        assert(seq![p] + rest =~= payloads);
    }
}

} // verus!
