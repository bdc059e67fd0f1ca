use vstd::prelude::*;
use vstd::utf8::{decode_utf8, encode_utf8_decode_utf8, encode_utf8_valid_utf8, valid_utf8};

use crate::cipher::{rc4_apply, Rc4Cipher};
use crate::commons::rc4_crypto;
use crate::error::ProxyError;
use crate::text::{text_bytes, utf8_string};
use crate::wire::{be16, copy_range, from_be16, lemma_be16_roundtrip, u16_from_be};

verus! {

/// Reads the target of a tunnel from its header: all but the last two bytes
/// are the host in UTF-8, the last two the big-endian port. A header shorter
/// than two bytes makes the reading panic, so it is not accepted.
pub fn parse_target(out: &[u8]) -> (r: Result<(String, u16), ProxyError>)
    requires
        out@.len() >= 2,
    ensures
        valid_utf8(out@.subrange(0, out@.len() - 2)) ==> (r matches Ok((host, port)) && host@
            == decode_utf8(out@.subrange(0, out@.len() - 2)) && port == from_be16(
            out@.subrange(out@.len() - 2, out@.len() as int),
        )),
        !valid_utf8(out@.subrange(0, out@.len() - 2)) ==> r matches Err(ProxyError::InvalidUtf8),
{
    let len = out.len();
    let host_bytes = copy_range(out, 0, len - 2);
    let addr = match utf8_string(host_bytes) {
        Some(s) => s,
        None => return Err(ProxyError::InvalidUtf8),
    };
    let port = u16_from_be(out[len - 2], out[len - 1]);
    assert(seq![out@[len - 2], out@[len - 1]] =~= out@.subrange(len - 2, len as int));
    Ok((addr, port))
}

/// Decrypts the target header of a tunnel with `rc4`, which moves on by its
/// length, and reads the target from the plain header as `parse_target`
/// does. A header shorter than two bytes is not accepted.
pub fn open_target(rc4: &mut Rc4Cipher, header: &[u8]) -> (r: Result<(String, u16), ProxyError>)
    requires
        header@.len() >= 2,
    ensures
        final(rc4)@ == (old(rc4)@.0, old(rc4)@.1 + header@.len()),
        ({
            let plain = rc4_apply(old(rc4)@.0, old(rc4)@.1, header@);
            &&& valid_utf8(plain.subrange(0, plain.len() - 2)) ==> (r matches Ok((host, port))
                && host@ == decode_utf8(plain.subrange(0, plain.len() - 2)) && port == from_be16(
                plain.subrange(plain.len() - 2, plain.len() as int),
            ))
            &&& !valid_utf8(plain.subrange(0, plain.len() - 2)) ==> r matches Err(
                ProxyError::InvalidUtf8,
            )
        }),
{
    let mut plain: Vec<u8> = vec![0u8; header.len()];
    rc4_crypto(header, plain.as_mut_slice(), rc4)?;
    assert(plain@ =~= rc4_apply(old(rc4)@.0, old(rc4)@.1, header@));
    parse_target(plain.as_slice())
}

/// A header made of a host's UTF-8 bytes and a big-endian port is read back
/// as that host and port.
pub proof fn lemma_parse_target_roundtrip(host: Seq<char>, port: u16)
    ensures
        ({
            let b = text_bytes(host) + be16(port);
            &&& b.len() >= 2
            &&& valid_utf8(b.subrange(0, b.len() - 2))
            &&& decode_utf8(b.subrange(0, b.len() - 2)) == host
            &&& from_be16(b.subrange(b.len() - 2, b.len() as int)) == port
        }),
{
    let b = text_bytes(host) + be16(port);
    lemma_be16_roundtrip(port);
    encode_utf8_valid_utf8(host);
    encode_utf8_decode_utf8(host);
    assert(b.subrange(0, b.len() - 2) =~= text_bytes(host));
    assert(b.subrange(b.len() - 2, b.len() as int) =~= be16(port));
}

} // verus!
