use vstd::prelude::*;

use crate::cipher::{rc4_apply, rc4_encrypt, Rc4Cipher};
use crate::wire::{be32, put_u32};
use crate::error::ProxyError;

pub mod tcp_mux;
pub mod tcpmux_comm;

verus! {

/// A target address as carried on the wire: the host as bytes and the port.
pub type Address = (Vec<u8>, u16);

/// The value a client sends first, encrypted, on every connection to the server.
pub const MAGIC_CODE: u32 = 0xA5C878F0;

/// Encrypts (or, RC4 being symmetric, decrypts) `input` into the front of
/// `output`, and returns the number of bytes written, `input.len()`.
pub fn rc4_crypto(input: &[u8], output: &mut [u8], rc4: &mut Rc4Cipher) -> (r: Result<usize, ProxyError>)
    requires
        input@.len() <= old(output)@.len(),
    ensures
        r == Ok::<usize, ProxyError>(input@.len() as usize),
        final(output)@ == rc4_apply(old(rc4)@.0, old(rc4)@.1, input@) + old(output)@.skip(
            input@.len() as int,
        ),
        final(rc4)@ == (old(rc4)@.0, old(rc4)@.1 + input@.len()),
{
    if rc4_encrypt(rc4, input, output) {
        assert(output@ =~= rc4_apply(old(rc4)@.0, old(rc4)@.1, input@) + old(output)@.skip(
            input@.len() as int,
        ));
        Ok(input.len())
    } else {
        Err(ProxyError::Crypto)
    }
}

/// The magic code in big-endian order, encrypted with a copy of `rc4`; the
/// cipher itself does not move on.
pub fn encrypted_magic_code(rc4: &Rc4Cipher) -> (r: Result<Vec<u8>, ProxyError>)
    ensures
        r matches Ok(code) && code@ == rc4_apply(rc4@.0, rc4@.1, be32(MAGIC_CODE)),
{
    let mut plain: Vec<u8> = Vec::with_capacity(4);
    put_u32(&mut plain, MAGIC_CODE);
    let mut magic_code: Vec<u8> = vec![0u8; 4];
    let mut copy = rc4.duplicate();
    rc4_crypto(plain.as_slice(), magic_code.as_mut_slice(), &mut copy)?;
    assert(magic_code@ =~= rc4_apply(rc4@.0, rc4@.1, be32(MAGIC_CODE)));
    Ok(magic_code)
}

/// Whether `received` is the magic code in big-endian order encrypted with
/// `rc4` from its current offset, as a client sends it first.
pub fn check_magic_code(rc4: &Rc4Cipher, received: &[u8]) -> (r: bool)
    ensures
        r == (received@ == rc4_apply(rc4@.0, rc4@.1, be32(MAGIC_CODE))),
{
    let code = match encrypted_magic_code(rc4) {
        Ok(code) => code,
        Err(_) => return false,
    };
    if code.len() != received.len() {
        assert(received@ != code@);
        return false;
    }
    let mut i: usize = 0;
    while i < received.len()
        invariant
            code@.len() == received@.len(),
            code@ == rc4_apply(rc4@.0, rc4@.1, be32(MAGIC_CODE)),
            i <= received@.len(),
            forall|k: int| 0 <= k < i ==> code@[k] == received@[k],
        decreases received@.len() - i,
    {
        if code[i] != received[i] {
            assert(code@[i as int] != received@[i as int]);
            return false;
        }
        i = i + 1;
    }
    assert(received@ =~= code@);
    true
}

/// Turns an option into a result, with an error that carries `msg`.
pub fn option_convert<T>(o: Option<T>, msg: &str) -> (r: Result<T, ProxyError>)
    ensures
        match o {
            Some(v) => r == Ok::<T, ProxyError>(v),
            None => r matches Err(ProxyError::Custom(m)) && m@ == msg@,
        },
{
    match o {
        Some(v) => Ok(v),
        None => Err(ProxyError::Custom(msg.to_owned())),
    }
}

/// Turns a result with any error into one with an error that carries the
/// text `f` makes of it.
pub fn std_res_convert<T, E, F: Fn(E) -> String>(res: Result<T, E>, f: F) -> (r: Result<
    T,
    ProxyError,
>)
    requires
        forall|e: E| f.requires((e,)),
    ensures
        match res {
            Ok(v) => r == Ok::<T, ProxyError>(v),
            Err(e) => r matches Err(ProxyError::Custom(m)) && f.ensures((e,), m),
        },
{
    match res {
        Ok(v) => Ok(v),
        Err(e) => {
            let msg = f(e);
            Err(ProxyError::Custom(msg))
        },
    }
}

/// Conversion of an option into a result.
pub trait OptionConvert<T>: Sized {
    fn option_to_res(self, msg: &str) -> Result<T, ProxyError>;
}

impl<T> OptionConvert<T> for Option<T> {
    fn option_to_res(self, msg: &str) -> (r: Result<T, ProxyError>)
        ensures
            match self {
                Some(v) => r == Ok::<T, ProxyError>(v),
                None => r matches Err(ProxyError::Custom(m)) && m@ == msg@,
            },
    {
        option_convert(self, msg)
    }
}


/// Conversion of a result with any error into one with a text error.
pub trait StdResConvert<T, E>: Sized {
    fn res_convert<F: Fn(E) -> String>(self, f: F) -> Result<T, ProxyError>
        requires
            forall|e: E| f.requires((e,)),
    ;
}

impl<T, E> StdResConvert<T, E> for Result<T, E> {
    fn res_convert<F: Fn(E) -> String>(self, f: F) -> (r: Result<T, ProxyError>)
        ensures
            match self {
                Ok(v) => r == Ok::<T, ProxyError>(v),
                Err(e) => r matches Err(ProxyError::Custom(m)) && f.ensures((e,), m),
            },
    {
        std_res_convert(self, f)
    }
}

/// Conversion of a result into one whose error carries the text of the
/// original error.
pub trait StdResAutoConvert<T, E: std::fmt::Display>: Sized {
    fn res_auto_convert(self) -> Result<T, ProxyError>;
}

impl<T, E: std::fmt::Display> StdResAutoConvert<T, E> for Result<T, E> {
    fn res_auto_convert(self) -> (r: Result<T, ProxyError>)
        ensures
            self matches Ok(v) ==> r == Ok::<T, ProxyError>(v),
            self matches Err(e) ==> (r matches Err(ProxyError::Custom(m))
                && vstd::string::to_string_from_display_ensures::<E>(&e, m)),
    {
        match self {
            Ok(v) => Ok(v),
            Err(e) => Err(ProxyError::Custom(e.to_string())),
        }
    }
}

} // verus!
