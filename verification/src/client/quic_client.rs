use vstd::prelude::*;

use crate::text::text_bytes;
use crate::wire::{be16, put_slice, put_u16, put_u8};

verus! {

/// The header that opens a stream to `host:port`: one byte holding the
/// length of the rest (the host's byte count, cut to 8 bits, plus two), the
/// host's UTF-8 bytes and the big-endian port. The addition panics when it
/// passes 255, so such hosts are not accepted.
pub fn request_header(host: &String, port: u16) -> (r: Vec<u8>)
    requires
        (text_bytes(host@).len() % 256) + 2 <= 255,
    ensures
        r@ == seq![((text_bytes(host@).len() % 256) + 2) as u8] + text_bytes(host@) + be16(port),
{
    let bytes = host.as_str().as_bytes();
    let mut buff: Vec<u8> = Vec::new();
    put_u8(&mut buff, (bytes.len() % 256) as u8 + 2);
    put_slice(&mut buff, bytes);
    put_u16(&mut buff, port);
    buff
}

} // verus!
