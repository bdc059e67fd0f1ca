use vstd::prelude::*;
use vstd::utf8::{
    decode_utf8, encode_utf8, encode_utf8_decode_utf8, encode_utf8_valid_utf8, is_ascii_chars,
    is_ascii_chars_encode_utf8, valid_utf8,
};

use crate::cipher::{rc4_apply, Rc4Cipher};
use crate::commons::tcp_mux::{crypto_mode, Mode};
use crate::error::ProxyError;
use crate::text::{string_bytes, text_bytes, utf8_string};
use crate::wire::{be16, copy_range, from_be16, lemma_be16_roundtrip, lemma_be16_value, lemma_from_be16_value, put_slice, put_u16, put_u8, u16_from_be};

pub mod compose;

verus! {

/// Type byte of a message that opens a channel.
pub const CONNECT: u8 = 0x00;

/// Type byte of a message that closes a channel.
pub const DISCONNECT: u8 = 0x01;

/// Type byte of a message that carries data on a channel.
pub const DATA: u8 = 0x03;

/// A target address as a host name and a port.
pub type Address = (String, u16);

/// A message of the protocol whose channels are named by short texts.
pub enum Msg {
    CONNECT(String, Address),
    DISCONNECT(String),
    DATA(String, Vec<u8>),
}

/// The mathematical content of a message.
pub enum MsgModel {
    Connect(Seq<char>, Seq<char>, u16),
    Disconnect(Seq<char>),
    Data(Seq<char>, Seq<u8>),
}

impl View for Msg {
    type V = MsgModel;

    open spec fn view(&self) -> MsgModel {
        match self {
            Msg::CONNECT(id, addr) => MsgModel::Connect(id@, addr.0@, addr.1),
            Msg::DISCONNECT(id) => MsgModel::Disconnect(id@),
            Msg::DATA(id, data) => MsgModel::Data(id@, data@),
        }
    }
}

/// The encoding of a message: its type byte, the UTF-8 bytes of the channel
/// id, then for a connect message the UTF-8 bytes of the host and the
/// big-endian port, for a data message the data.
pub open spec fn msg_bytes(m: MsgModel) -> Seq<u8> {
    match m {
        MsgModel::Connect(id, host, port) => seq![CONNECT] + text_bytes(id) + text_bytes(host)
            + be16(port),
        MsgModel::Disconnect(id) => seq![DISCONNECT] + text_bytes(id),
        MsgModel::Data(id, data) => seq![DATA] + text_bytes(id) + data,
    }
}

/// Inputs that decoding accepts without panicking: a type byte and four
/// bytes of channel id in UTF-8; for a connect message also a port, and a
/// host in UTF-8 before it.
pub open spec fn decodable(data: Seq<u8>) -> bool {
    &&& data.len() >= 5
    &&& valid_utf8(data.subrange(1, 5))
    &&& data[0] == CONNECT ==> data.len() >= 7 && valid_utf8(data.subrange(5, data.len() - 2))
}

/// The message that a decodable input holds, or `None` for an unknown type.
pub open spec fn parse_msg(data: Seq<u8>) -> Option<MsgModel> {
    let id = decode_utf8(data.subrange(1, 5));
    let len = data.len() as int;
    if data[0] == CONNECT {
        Some(
            MsgModel::Connect(
                id,
                decode_utf8(data.subrange(5, len - 2)),
                from_be16(data.subrange(len - 2, len)),
            ),
        )
    } else if data[0] == DISCONNECT {
        Some(MsgModel::Disconnect(id))
    } else if data[0] == DATA {
        Some(MsgModel::Data(id, data.subrange(5, len)))
    } else {
        None
    }
}

/// Encodes a message.
pub fn encode(msg: Msg) -> (r: Vec<u8>)
    ensures
        r@ == msg_bytes(msg@),
{
    match msg {
        Msg::CONNECT(id, addr) => encode_connect_msg(addr, &id),
        Msg::DISCONNECT(id) => encode_disconnect_msg(&id),
        Msg::DATA(id, data) => encode_data_msg(&id, data.as_slice()),
    }
}

fn encode_connect_msg(addr: Address, channel_id: &String) -> (r: Vec<u8>)
    ensures
        r@ == msg_bytes(MsgModel::Connect(channel_id@, addr.0@, addr.1)),
{
    let mut buff: Vec<u8> = Vec::new();
    put_u8(&mut buff, CONNECT);
    put_slice(&mut buff, channel_id.as_str().as_bytes());

    let (host, port) = addr;

    put_slice(&mut buff, host.as_str().as_bytes());
    put_u16(&mut buff, port);
    buff
}

fn encode_disconnect_msg(channel_id: &String) -> (r: Vec<u8>)
    ensures
        r@ == msg_bytes(MsgModel::Disconnect(channel_id@)),
{
    let mut buff: Vec<u8> = Vec::new();
    put_u8(&mut buff, DISCONNECT);
    put_slice(&mut buff, channel_id.as_str().as_bytes());
    buff
}

fn encode_data_msg(channel_id: &String, data: &[u8]) -> (r: Vec<u8>)
    ensures
        r@ == msg_bytes(MsgModel::Data(channel_id@, data@)),
{
    let mut buff: Vec<u8> = Vec::new();
    put_u8(&mut buff, DATA);
    put_slice(&mut buff, channel_id.as_str().as_bytes());
    put_slice(&mut buff, data);
    buff
}

/// Decodes a message. Texts that are not UTF-8 make the decoding panic, so
/// they are not accepted.
pub fn decode(msg: Vec<u8>) -> (r: Result<Msg, ProxyError>)
    requires
        decodable(msg@),
    ensures
        match parse_msg(msg@) {
            Some(m) => r matches Ok(x) && x@ == m,
            None => r matches Err(ProxyError::Message),
        },
{
    let len = msg.len();
    let mode = msg[0];
    let id_bytes = copy_range(msg.as_slice(), 1, 5);
    let channel_id = match utf8_string(id_bytes) {
        Some(s) => s,
        None => {
            assert(false);
            return Err(ProxyError::InvalidUtf8);
        },
    };

    if mode == CONNECT {
        let host_bytes = copy_range(msg.as_slice(), 5, len - 2);
        let host = match utf8_string(host_bytes) {
            Some(s) => s,
            None => {
                assert(false);
                return Err(ProxyError::InvalidUtf8);
            },
        };
        let port = u16_from_be(msg[len - 2], msg[len - 1]);
        assert(seq![msg@[len - 2], msg@[len - 1]] =~= msg@.subrange(len - 2, len as int));
        Ok(Msg::CONNECT(channel_id, (host, port)))
    } else if mode == DISCONNECT {
        Ok(Msg::DISCONNECT(channel_id))
    } else if mode == DATA {
        let data = copy_range(msg.as_slice(), 5, len);
        Ok(Msg::DATA(channel_id, data))
    } else {
        Err(ProxyError::Message)
    }
}

/// The layout of an encoded message, byte by byte: the type byte (0 for a
/// connect, 1 for a disconnect, 3 for data), the UTF-8 bytes of the channel
/// id, then for a connect the UTF-8 bytes of the host followed by the port,
/// high byte first, and for data the data itself.
pub proof fn lemma_msg_layout(m: MsgModel)
    ensures
        match m {
            MsgModel::Connect(id, host, port) => {
                let b = msg_bytes(m);
                let i = encode_utf8(id).len() as int;
                let h = encode_utf8(host).len() as int;
                &&& b.len() == 1 + i + h + 2
                &&& b[0] == 0x00u8
                &&& b.subrange(1, 1 + i) == encode_utf8(id)
                &&& b.subrange(1 + i, 1 + i + h) == encode_utf8(host)
                &&& b[1 + i + h] as int == port as int / 256
                &&& b[2 + i + h] as int == port as int % 256
            },
            MsgModel::Disconnect(id) => {
                let b = msg_bytes(m);
                &&& b.len() == 1 + encode_utf8(id).len()
                &&& b[0] == 0x01u8
                &&& b.subrange(1, b.len() as int) == encode_utf8(id)
            },
            MsgModel::Data(id, data) => {
                let b = msg_bytes(m);
                let i = encode_utf8(id).len() as int;
                &&& b.len() == 1 + i + data.len()
                &&& b[0] == 0x03u8
                &&& b.subrange(1, 1 + i) == encode_utf8(id)
                &&& b.subrange(1 + i, b.len() as int) == data
            },
        },
{
    let b = msg_bytes(m);
    match m {
        MsgModel::Connect(id, host, port) => {
            let i = encode_utf8(id).len() as int;
            let h = encode_utf8(host).len() as int;
            lemma_be16_value(port);
            assert(b.subrange(1, 1 + i) =~= encode_utf8(id));
            assert(b.subrange(1 + i, 1 + i + h) =~= encode_utf8(host));
            assert(b[1 + i + h] == be16(port)[0]);
            assert(b[2 + i + h] == be16(port)[1]);
        },
        MsgModel::Disconnect(id) => {
            assert(b.subrange(1, b.len() as int) =~= encode_utf8(id));
        },
        MsgModel::Data(id, data) => {
            let i = encode_utf8(id).len() as int;
            assert(b.subrange(1, 1 + i) =~= encode_utf8(id));
            assert(b.subrange(1 + i, b.len() as int) =~= data);
        },
    }
}

/// A decodable input with the connect type byte is read with its port taken
/// from the last two bytes, high byte first, and its channel id and host from
/// the UTF-8 text before them.
pub proof fn lemma_parse_connect_port(data: Seq<u8>)
    requires
        decodable(data),
        data[0] == 0x00u8,
    ensures
        parse_msg(data) matches Some(MsgModel::Connect(id, host, port)) && port as int
            == data[data.len() - 2] as int * 256 + data[data.len() - 1] as int && id
            == decode_utf8(data.subrange(1, 5)) && host == decode_utf8(
            data.subrange(5, data.len() - 2),
        ),
{
    let len = data.len() as int;
    assert(data.subrange(len - 2, len) =~= seq![data[len - 2], data[len - 1]]);
    lemma_from_be16_value(data[len - 2], data[len - 1]);
}

/// Decoding an encoded message gives it back when its channel id takes four
/// bytes in UTF-8, as the ids that `create_channel_id` makes do.
pub proof fn lemma_decode_encode(m: MsgModel)
    requires
        text_bytes(
            match m {
                MsgModel::Connect(id, _, _) => id,
                MsgModel::Disconnect(id) => id,
                MsgModel::Data(id, _) => id,
            },
        ).len() == 4,
    ensures
        decodable(msg_bytes(m)),
        parse_msg(msg_bytes(m)) == Some(m),
{
    let b = msg_bytes(m);
    match m {
        MsgModel::Connect(id, host, port) => {
            encode_utf8_valid_utf8(id);
            encode_utf8_decode_utf8(id);
            encode_utf8_valid_utf8(host);
            encode_utf8_decode_utf8(host);
            lemma_be16_roundtrip(port);
            assert(b.subrange(1, 5) =~= text_bytes(id));
            assert(b.subrange(5, b.len() - 2) =~= text_bytes(host));
            assert(b.subrange(b.len() - 2, b.len() as int) =~= be16(port));
        },
        MsgModel::Disconnect(id) => {
            encode_utf8_valid_utf8(id);
            encode_utf8_decode_utf8(id);
            assert(b.subrange(1, 5) =~= text_bytes(id));
        },
        MsgModel::Data(id, data) => {
            encode_utf8_valid_utf8(id);
            encode_utf8_decode_utf8(id);
            assert(b.subrange(1, 5) =~= text_bytes(id));
            assert(b.subrange(5, b.len() as int) =~= data);
        },
    }
}

/// The characters of the alphabet that channel ids are drawn from:
/// `_`, `-`, digits and ASCII letters.
pub open spec fn is_safe_char(c: char) -> bool {
    ||| c == '_'
    ||| c == '-'
    ||| '0' <= c <= '9'
    ||| 'a' <= c <= 'z'
    ||| 'A' <= c <= 'Z'
}

/// A random id of `size` characters from `nanoid::format` with the
/// crate's default random source and its `SAFE` alphabet. The crate's code
/// loops until it has `size` characters, so it never returns for size 0;
/// every character it adds is taken from the alphabet.
#[verifier::external_body]
fn nanoid_safe(size: usize) -> (r: String)
    requires
        size >= 1,
    ensures
        r@.len() == size,
        forall|i: int| 0 <= i < size ==> is_safe_char(#[trigger] r@[i]),
{
    nanoid::format(nanoid::rngs::default, &nanoid::alphabet::SAFE, size)
}

/// A fresh random channel id of four characters from the alphabet
/// `_-0-9a-zA-Z`; it takes four bytes in UTF-8.
pub fn create_channel_id() -> (r: String)
    ensures
        r@.len() == 4,
        forall|i: int| 0 <= i < 4 ==> is_safe_char(#[trigger] r@[i]),
        text_bytes(r@).len() == 4,
{
    let id = nanoid_safe(4);
    proof {
        assert(is_ascii_chars(id@)) by {
            assert forall|i: int| 0 <= i < id@.len() implies '\0' <= #[trigger] id@[i] <= '\u{7f}' by {
                assert(is_safe_char(id@[i]));
            }
        }
        is_ascii_chars_encode_utf8(id@);
    }
    id
}

/// Runs `input` through the cipher, encrypting or decrypting, into a new
/// vector of the same length.
pub fn crypto_bytes(input: &[u8], rc4: &mut Rc4Cipher, mode: Mode) -> (r: Result<Vec<u8>, ProxyError>)
    ensures
        r matches Ok(out) && out@ == rc4_apply(old(rc4)@.0, old(rc4)@.1, input@),
        final(rc4)@ == (old(rc4)@.0, old(rc4)@.1 + input@.len()),
{
    let mut out: Vec<u8> = vec![0u8; input.len()];
    crypto_mode(input, out.as_mut_slice(), rc4, mode)?;
    assert(out@ =~= rc4_apply(old(rc4)@.0, old(rc4)@.1, input@));
    Ok(out)
}

/// The frame that carries `msg`: the length of its encrypted encoding as two
/// big-endian bytes (only the low 16 bits of it), then the encrypted
/// encoding. The cipher moves on by the length of the encoding.
pub fn seal_msg(msg: Msg, rc4: &mut Rc4Cipher) -> (r: Result<Vec<u8>, ProxyError>)
    ensures
        r matches Ok(f) && f@ == be16((msg_bytes(msg@).len() % 65536) as u16) + rc4_apply(
            old(rc4)@.0,
            old(rc4)@.1,
            msg_bytes(msg@),
        ),
        final(rc4)@ == (old(rc4)@.0, old(rc4)@.1 + msg_bytes(msg@).len()),
{
    let msg = encode(msg);
    let msg = crypto_bytes(msg.as_slice(), rc4, Mode::Encrypt)?;

    let mut data: Vec<u8> = Vec::new();
    put_u16(&mut data, (msg.len() % 65536) as u16);
    put_slice(&mut data, msg.as_slice());
    Ok(data)
}

} // verus!
