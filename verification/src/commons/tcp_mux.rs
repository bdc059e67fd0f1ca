use vstd::prelude::*;

use crate::cipher::{rc4_apply, rc4_decrypt, rc4_encrypt, Rc4Cipher};
use crate::commons::tcpmux_comm::{
    decodable, frame_bytes, msg_bytes, parse_msg, MsgModel, BUFF_SIZE, CONNECT, DATA, DISCONNECT,
};
use crate::commons::Address;
use crate::error::ProxyError;
use crate::wire::{copy_range, put_slice, put_u16, put_u32, put_u8, u16_from_be, u32_from_be};

verus! {

/// Identifies one logical channel inside a multiplexed connection.
pub type ChannelId = u32;

/// A message of the multiplexed protocol, with data either owned or
/// borrowed from a receive buffer.
pub enum Msg<'a> {
    /// Open a channel to a target address.
    Connect(ChannelId, Address),
    /// Close a channel.
    Disconnect(ChannelId),
    /// Bytes for a channel, owned.
    Data(ChannelId, Vec<u8>),
    /// Bytes for a channel, borrowed; this is what decoding yields.
    RefData(ChannelId, &'a [u8]),
}

impl<'a> View for Msg<'a> {
    type V = MsgModel;

    open spec fn view(&self) -> MsgModel {
        match self {
            Msg::Connect(id, addr) => MsgModel::Connect(*id, addr.0@, addr.1),
            Msg::Disconnect(id) => MsgModel::Disconnect(*id),
            Msg::Data(id, data) => MsgModel::Data(*id, data@),
            Msg::RefData(id, data) => MsgModel::Data(*id, data@),
        }
    }
}

impl<'a> Msg<'a> {
    /// The encoding of the message. Encoding panics on borrowed data, so it
    /// is only for the three other kinds.
    pub fn encode(self) -> (r: Vec<u8>)
        requires
            !(self is RefData),
        ensures
            r@ == msg_bytes(self@),
    {
        encode(self)
    }
}

fn encode(msg: Msg) -> (r: Vec<u8>)
    requires
        !(msg is RefData),
    ensures
        r@ == msg_bytes(msg@),
{
    match msg {
        Msg::Connect(id, addr) => encode_connect_msg(addr, id),
        Msg::Disconnect(id) => encode_disconnect_msg(id),
        Msg::Data(id, data) => encode_data_msg(id, data.as_slice()),
        Msg::RefData(_, _) => {
            assert(false);
            Vec::new()
        },
    }
}

/// Encodes a message that opens channel `channel_id` to `addr`.
pub fn encode_connect_msg(addr: Address, channel_id: ChannelId) -> (r: Vec<u8>)
    ensures
        r@ == msg_bytes(MsgModel::Connect(channel_id, addr.0@, addr.1)),
{
    let (host, port) = addr;
    let mut buff: Vec<u8> = Vec::new();

    put_u8(&mut buff, CONNECT);
    put_u32(&mut buff, channel_id);
    put_slice(&mut buff, host.as_slice());
    put_u16(&mut buff, port);
    buff
}

/// Encodes a message that closes channel `channel_id`.
pub fn encode_disconnect_msg(channel_id: ChannelId) -> (r: Vec<u8>)
    ensures
        r@ == msg_bytes(MsgModel::Disconnect(channel_id)),
{
    let mut buff: Vec<u8> = Vec::new();
    put_u8(&mut buff, DISCONNECT);
    put_u32(&mut buff, channel_id);
    buff
}

/// Encodes a message that carries `data` on channel `channel_id`.
pub fn encode_data_msg(channel_id: ChannelId, data: &[u8]) -> (r: Vec<u8>)
    ensures
        r@ == msg_bytes(MsgModel::Data(channel_id, data@)),
{
    let mut buff: Vec<u8> = Vec::new();
    put_u8(&mut buff, DATA);
    put_u32(&mut buff, channel_id);
    put_slice(&mut buff, data);
    buff
}

/// Decodes a message; a data message comes out borrowing from `data`.
pub fn decode<'a>(data: &'a [u8]) -> (r: Result<Msg<'a>, ProxyError>)
    requires
        decodable(data@),
    ensures
        match parse_msg(data@) {
            Some(m) => r matches Ok(msg) && msg@ == m && !(msg is Data),
            None => r matches Err(ProxyError::Message),
        },
{
    let len = data.len();
    let mode = data[0];
    let channel_id = u32_from_be(data[1], data[2], data[3], data[4]);
    assert(seq![data@[1], data@[2], data@[3], data@[4]] =~= data@.subrange(1, 5));

    if mode == CONNECT {
        let host = copy_range(data, 5, len - 2);
        let port = u16_from_be(data[len - 2], data[len - 1]);
        assert(seq![data@[len - 2], data@[len - 1]] =~= data@.subrange(len - 2, len as int));
        Ok(Msg::Connect(channel_id, (host, port)))
    } else if mode == DISCONNECT {
        Ok(Msg::Disconnect(channel_id))
    } else if mode == DATA {
        Ok(Msg::RefData(channel_id, &data[5..len]))
    } else {
        Err(ProxyError::Message)
    }
}

/// Which way bytes go through the cipher.
pub enum Mode {
    Encrypt,
    Decrypt,
}

/// Runs `input` through the cipher into the front of `output`, with the
/// crate's encryption or decryption call, and returns `input.len()`.
pub fn crypto_mode(input: &[u8], output: &mut [u8], rc4: &mut Rc4Cipher, mode: Mode) -> (r: Result<
    usize,
    ProxyError,
>)
    requires
        input@.len() <= old(output)@.len(),
    ensures
        r == Ok::<usize, ProxyError>(input@.len() as usize),
        final(output)@ == rc4_apply(old(rc4)@.0, old(rc4)@.1, input@) + old(output)@.skip(
            input@.len() as int,
        ),
        final(rc4)@ == (old(rc4)@.0, old(rc4)@.1 + input@.len()),
{
    let ok = match mode {
        Mode::Decrypt => rc4_decrypt(rc4, input, output),
        Mode::Encrypt => rc4_encrypt(rc4, input, output),
    };
    assert(output@ =~= rc4_apply(old(rc4)@.0, old(rc4)@.1, input@) + old(output)@.skip(
        input@.len() as int,
    ));
    if !ok {
        return match mode {
            Mode::Decrypt => Err(ProxyError::Decrypt),
            Mode::Encrypt => Err(ProxyError::Encrypt),
        };
    }
    Ok(input.len())
}

/// Encrypts messages for one direction of a multiplexed connection.
/// `writer` is where the program sends the frames.
pub struct MsgWriter<W> {
    pub writer: W,
    rc4: Rc4Cipher,
    buff: Vec<u8>,
}

impl<W> MsgWriter<W> {
    /// The work buffer has its full size.
    pub closed spec fn wf(&self) -> bool {
        self.buff@.len() == BUFF_SIZE
    }

    /// The key and key-stream offset of the writer's cipher.
    pub closed spec fn cipher(&self) -> (Seq<u8>, nat) {
        self.rc4@
    }

    /// Where the frames go.
    pub closed spec fn sink(&self) -> W {
        self.writer
    }

    /// A writer that sends to `writer`, encrypting with `rc4`.
    pub fn new(writer: W, rc4: Rc4Cipher) -> (r: MsgWriter<W>)
        ensures
            r.wf(),
            r.sink() == writer,
            r.cipher() == rc4@,
    {
        MsgWriter { writer, rc4, buff: vec![0u8; BUFF_SIZE] }
    }

    /// The frame that carries `msg`: its length as two big-endian bytes,
    /// then `msg` encrypted. The cipher moves on by the length of `msg`.
    pub fn seal_msg(&mut self, msg: &[u8]) -> (r: Result<Vec<u8>, ProxyError>)
        requires
            old(self).wf(),
            msg@.len() <= BUFF_SIZE,
        ensures
            final(self).wf(),
            r matches Ok(f) && f@ == frame_bytes(old(self).cipher().0, old(self).cipher().1, msg@),
            final(self).cipher() == (old(self).cipher().0, old(self).cipher().1 + msg@.len()),
            final(self).sink() == old(self).sink(),
    {
        let msg_len = crypto_mode(msg, self.buff.as_mut_slice(), &mut self.rc4, Mode::Encrypt)?;
        let mut out: Vec<u8> = Vec::with_capacity(msg_len + 2);
        put_u16(&mut out, msg_len as u16);
        put_slice(&mut out, &self.buff.as_slice()[0..msg_len]);
        Ok(out)
    }
}

/// Decrypts the payloads of frames for one direction of a multiplexed
/// connection. `reader` is where the program reads the frames from.
pub struct MsgReader<R> {
    pub reader: R,
    rc4: Rc4Cipher,
    out: Vec<u8>,
}

impl<R> MsgReader<R> {
    /// The work buffer has its full size.
    pub closed spec fn wf(&self) -> bool {
        self.out@.len() == BUFF_SIZE
    }

    /// The key and key-stream offset of the reader's cipher.
    pub closed spec fn cipher(&self) -> (Seq<u8>, nat) {
        self.rc4@
    }

    /// Where the frames come from.
    pub closed spec fn source(&self) -> R {
        self.reader
    }

    /// A reader that reads from `reader`, decrypting with `rc4`.
    pub fn new(reader: R, rc4: Rc4Cipher) -> (r: MsgReader<R>)
        ensures
            r.wf(),
            r.source() == reader,
            r.cipher() == rc4@,
    {
        MsgReader { reader, rc4, out: vec![0u8; BUFF_SIZE] }
    }

    /// Decrypts the payload of a frame. The cipher moves on by its length.
    pub fn open_payload(&mut self, data: &[u8]) -> (r: Result<Vec<u8>, ProxyError>)
        requires
            old(self).wf(),
            data@.len() <= BUFF_SIZE,
        ensures
            final(self).wf(),
            r matches Ok(p) && p@ == rc4_apply(old(self).cipher().0, old(self).cipher().1, data@),
            final(self).cipher() == (old(self).cipher().0, old(self).cipher().1 + data@.len()),
            final(self).source() == old(self).source(),
    {
        let n = crypto_mode(data, self.out.as_mut_slice(), &mut self.rc4, Mode::Decrypt)?;
        let payload = copy_range(self.out.as_slice(), 0, n);
        Ok(payload)
    }
}

} // verus!
