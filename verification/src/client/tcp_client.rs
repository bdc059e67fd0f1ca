use rand::Rng;
use vstd::prelude::*;

use crate::cipher::{lemma_rc4_apply_involution, rc4_apply, Rc4Cipher};
use crate::commons::{encrypted_magic_code, rc4_crypto, Address, MAGIC_CODE};
use crate::error::ProxyError;
use crate::wire::{be16, be32, from_be16, lemma_be16_roundtrip, put_slice, put_u16};

verus! {

/// A position in `0..n` from `rand::thread_rng().gen_range`, which panics
/// on an empty range. Which position comes out is left to chance.
#[verifier::external_body]
fn random_index(n: usize) -> (r: usize)
    requires
        n >= 1,
    ensures
        r < n,
{
    rand::thread_rng().gen_range(0..n)
}

/// The target header a client sends after the magic code: the host bytes
/// and the big-endian port.
pub open spec fn target_bytes(host: Seq<u8>, port: u16) -> Seq<u8> {
    host + be16(port)
}

/// The bytes that open a tunnel through a server whose cipher is at
/// `(key, offset)`: the encrypted magic code, the length of the encrypted
/// target header (its low 16 bits) in big-endian order, and the encrypted
/// target header, encrypted right after the magic code's start offset.
pub open spec fn handshake_bytes(key: Seq<u8>, offset: nat, host: Seq<u8>, port: u16) -> Seq<u8> {
    let header = target_bytes(host, port);
    rc4_apply(key, offset, be32(MAGIC_CODE)) + be16((header.len() % 65536) as u16) + rc4_apply(
        key,
        offset,
        header,
    )
}

/// Tunnels each local connection through one of a list of servers, each
/// with its own cipher.
pub struct TcpProxy<S> {
    server_list: Vec<(S, Rc4Cipher)>,
    buff_size: usize,
}

impl<S> TcpProxy<S> {
    /// The servers and their ciphers.
    pub closed spec fn servers(&self) -> Seq<(S, Rc4Cipher)> {
        self.server_list@
    }

    /// The buffer size of a tunnel; 0 for an unbuffered tunnel.
    pub closed spec fn buffer_size(&self) -> usize {
        self.buff_size
    }

    /// A proxy over `server_list`.
    pub fn new(server_list: Vec<(S, Rc4Cipher)>, buff_size: usize) -> (r: TcpProxy<S>)
        ensures
            r.servers() == server_list@,
            r.buffer_size() == buff_size,
    {
        TcpProxy { server_list, buff_size }
    }

    /// The buffer size of a tunnel; 0 for an unbuffered tunnel.
    pub fn buff_size(&self) -> (r: usize)
        ensures
            r == self.buffer_size(),
    {
        self.buff_size
    }

    /// The server of position `index`.
    pub fn server(&self, index: usize) -> (r: &S)
        requires
            index < self.servers().len(),
        ensures
            *r == self.servers()[index as int].0,
    {
        &self.server_list[index].0
    }

    /// The server a new tunnel goes to: the only one, or one picked at
    /// random. The list must not be empty.
    pub fn choose_server(&self) -> (r: usize)
        requires
            self.servers().len() >= 1,
        ensures
            r < self.servers().len(),
            self.servers().len() == 1 ==> r == 0,
    {
        if self.server_list.len() == 1 {
            0
        } else {
            random_index(self.server_list.len())
        }
    }

    /// The bytes that open a tunnel to `proxy_addr` through server `index`,
    /// and the cipher the tunnel goes on with: the server's cipher moved on
    /// by the target header. The server's own cipher is not changed.
    pub fn handshake(&self, index: usize, proxy_addr: &Address) -> (r: Result<
        (Vec<u8>, Rc4Cipher),
        ProxyError,
    >)
        requires
            index < self.servers().len(),
        ensures
            r matches Ok((bytes, rc4)) && ({
                let (key, offset) = self.servers()[index as int].1@;
                &&& bytes@ == handshake_bytes(key, offset, proxy_addr.0@, proxy_addr.1)
                &&& rc4@ == (key, offset + target_bytes(proxy_addr.0@, proxy_addr.1).len())
            }),
    {
        let mut rc4 = self.server_list[index].1.duplicate();
        let magic_code_out = encrypted_magic_code(&rc4)?;

        let mut buff: Vec<u8> = Vec::new();
        put_slice(&mut buff, proxy_addr.0.as_slice());
        put_u16(&mut buff, proxy_addr.1);

        let mut out: Vec<u8> = vec![0u8; buff.len()];
        rc4_crypto(buff.as_slice(), out.as_mut_slice(), &mut rc4)?;
        assert(out@ =~= rc4_apply(
            self.servers()[index as int].1@.0,
            self.servers()[index as int].1@.1,
            buff@,
        ));

        let mut bytes: Vec<u8> = Vec::new();
        put_slice(&mut bytes, magic_code_out.as_slice());
        put_u16(&mut bytes, (out.len() % 65536) as u16);
        put_slice(&mut bytes, out.as_slice());
        Ok((bytes, rc4))
    }
}


/// A server that holds the same key at the same offset reads a handshake
/// back: decrypting the first four bytes gives the magic code, the next two
/// give the length of the target header, and decrypting the rest, from the
/// same offset as the magic code, gives the host bytes and the port.
pub proof fn lemma_handshake_opens(key: Seq<u8>, offset: nat, host: Seq<u8>, port: u16)
    requires
        host.len() + 2 < 65536,
    ensures
        ({
            let b = handshake_bytes(key, offset, host, port);
            &&& b.len() == host.len() + 8
            &&& rc4_apply(key, offset, b.subrange(0, 4)) == be32(MAGIC_CODE)
            &&& from_be16(b.subrange(4, 6)) == host.len() + 2
            &&& rc4_apply(key, offset, b.subrange(6, b.len() as int)) == host + be16(port)
        }),
{
    let header = target_bytes(host, port);
    let b = handshake_bytes(key, offset, host, port);
    lemma_be16_roundtrip((header.len() % 65536) as u16);
    assert(b.subrange(0, 4) =~= rc4_apply(key, offset, be32(MAGIC_CODE)));
    assert(b.subrange(4, 6) =~= be16((header.len() % 65536) as u16));
    assert(b.subrange(6, b.len() as int) =~= rc4_apply(key, offset, header));
    lemma_rc4_apply_involution(key, offset, be32(MAGIC_CODE));
    lemma_rc4_apply_involution(key, offset, header);
}

} // verus!
