use vstd::prelude::*;

use crypto::rc4::Rc4;
use crypto::symmetriccipher::{Decryptor, Encryptor};

verus! {

/// The RC4 cipher of `crypto::rc4`.
#[verifier::external_type_specification]
#[verifier::external_body]
pub struct ExRc4(Rc4);

/// Byte `index` of the RC4 key stream generated from `key` (counting from 0).
pub uninterp spec fn rc4_key_byte(key: Seq<u8>, index: int) -> u8;

/// The result of running `data` through RC4 with key `key`, starting at
/// key-stream offset `offset`: each byte is combined with the matching key
/// stream byte by exclusive or.
pub open spec fn rc4_apply(key: Seq<u8>, offset: nat, data: Seq<u8>) -> Seq<u8> {
    Seq::new(data.len(), |i: int| data[i] ^ rc4_key_byte(key, offset + i))
}

/// An RC4 stream cipher, seen as the key it was made from and the number of
/// key-stream bytes it has used so far. The fields are private, and only the
/// trusted calls of this module (`rc4_new`, `rc4_copy`, `rc4_encrypt`,
/// `rc4_decrypt`) make a cipher or change one: the key and the offset are
/// set together with the RC4 state in each of them, and no verified code
/// writes them.
pub struct Rc4Cipher {
    rc4: Rc4,
    key: Ghost<Seq<u8>>,
    offset: Ghost<nat>,
}

impl View for Rc4Cipher {
    /// The key and the key-stream offset.
    type V = (Seq<u8>, nat);

    closed spec fn view(&self) -> (Seq<u8>, nat) {
        (self.key@, self.offset@)
    }
}

/// Makes an RC4 cipher from `key` with `crypto::rc4::Rc4::new`, whose code
/// asserts that the key holds 1 to 256 bytes and panics otherwise. The
/// crate's constructor runs the key schedule and nothing else, so the cipher
/// stands at the start (offset 0) of the key stream of `key`.
#[verifier::external_body]
fn rc4_new(key: &[u8]) -> (c: Rc4Cipher)
    requires
        1 <= key@.len() <= 256,
    ensures
        c@ == (key@, 0nat),
{
    Rc4Cipher { rc4: Rc4::new(key), key: Ghost(key@), offset: Ghost(0nat) }
}

/// A copy of a cipher with `<Rc4 as Clone>::clone`, which the crate writes as
/// `*self`: the copy holds the same RC4 state, so it stands at the same
/// place in the same key stream.
#[verifier::external_body]
fn rc4_copy(c: &Rc4Cipher) -> (d: Rc4Cipher)
    ensures
        d@ == c@,
{
    Rc4Cipher { rc4: c.rc4.clone(), key: Ghost(c.key@), offset: Ghost(c.offset@) }
}

impl Rc4Cipher {
    /// A cipher made from `key`, at offset 0 of its key stream. RC4 takes
    /// keys of 1 to 256 bytes.
    pub fn new(key: &[u8]) -> (c: Rc4Cipher)
        requires
            1 <= key@.len() <= 256,
        ensures
            c@ == (key@, 0nat),
    {
        rc4_new(key)
    }

    /// A copy of the cipher, in the same state.
    pub fn duplicate(&self) -> (c: Rc4Cipher)
        ensures
            c@ == self@,
    {
        rc4_copy(self)
    }
}

/// Runs `input` through `<Rc4 as Encryptor>::encrypt` into the front of
/// `output`. The crate's code processes as many bytes as both buffers allow
/// and never reports an error; RC4 combines each byte with the next key-stream
/// byte, so the first `input.len()` bytes of `output` become the input
/// combined with the key stream from the cipher's offset on, the rest of
/// `output` is untouched, and the offset moves by `input.len()`.
#[verifier::external_body]
pub(crate) fn rc4_encrypt(cipher: &mut Rc4Cipher, input: &[u8], output: &mut [u8]) -> (ok: bool)
    requires
        input@.len() <= old(output)@.len(),
    ensures
        ok,
        final(output)@.len() == old(output)@.len(),
        forall|i: int|
            0 <= i < input@.len() ==> #[trigger] final(output)@[i] == input@[i] ^ rc4_key_byte(
                old(cipher)@.0,
                old(cipher)@.1 + i,
            ),
        forall|i: int|
            input@.len() <= i < old(output)@.len() ==> #[trigger] final(output)@[i] == old(
                output,
            )@[i],
        final(cipher)@ == (old(cipher)@.0, old(cipher)@.1 + input@.len()),
{
    let mut reader = crypto::buffer::RefReadBuffer::new(input);
    let mut writer = crypto::buffer::RefWriteBuffer::new(output);
    cipher.rc4.encrypt(&mut reader, &mut writer, false).is_ok()
}

/// Runs `input` through `<Rc4 as Decryptor>::decrypt` into the front of
/// `output`. The crate's code does exactly what its `encrypt` does: it
/// processes as many bytes as both buffers allow, never reports an error,
/// and combines each byte with the next key-stream byte; the first
/// `input.len()` bytes of `output` become the input combined with the key
/// stream from the cipher's offset on, the rest of `output` is untouched,
/// and the offset moves by `input.len()`.
#[verifier::external_body]
pub(crate) fn rc4_decrypt(cipher: &mut Rc4Cipher, input: &[u8], output: &mut [u8]) -> (ok: bool)
    requires
        input@.len() <= old(output)@.len(),
    ensures
        ok,
        final(output)@.len() == old(output)@.len(),
        forall|i: int|
            0 <= i < input@.len() ==> #[trigger] final(output)@[i] == input@[i] ^ rc4_key_byte(
                old(cipher)@.0,
                old(cipher)@.1 + i,
            ),
        forall|i: int|
            input@.len() <= i < old(output)@.len() ==> #[trigger] final(output)@[i] == old(
                output,
            )@[i],
        final(cipher)@ == (old(cipher)@.0, old(cipher)@.1 + input@.len()),
{
    let mut reader = crypto::buffer::RefReadBuffer::new(input);
    let mut writer = crypto::buffer::RefWriteBuffer::new(output);
    cipher.rc4.decrypt(&mut reader, &mut writer, false).is_ok()
}

/// RC4 is its own inverse: running bytes through the key stream twice, from
/// the same offset, gives them back.
pub proof fn lemma_rc4_apply_involution(key: Seq<u8>, offset: nat, data: Seq<u8>)
    ensures
        rc4_apply(key, offset, rc4_apply(key, offset, data)) == data,
{
    let once = rc4_apply(key, offset, data);
    let twice = rc4_apply(key, offset, once);
    assert forall|i: int| 0 <= i < data.len() implies #[trigger] twice[i] == data[i] by {
        let x = data[i];
        let k = rc4_key_byte(key, offset + i);
        assert((x ^ k) ^ k == x) by (bit_vector);
    }
    assert(twice =~= data);
}

/// Running two pieces of data through the key stream one after the other
/// is the same as running them through together.
pub proof fn lemma_rc4_apply_concat(key: Seq<u8>, offset: nat, a: Seq<u8>, b: Seq<u8>)
    ensures
        rc4_apply(key, offset, a) + rc4_apply(key, offset + a.len(), b) == rc4_apply(
            key,
            offset,
            a + b,
        ),
{
    assert(rc4_apply(key, offset, a) + rc4_apply(key, offset + a.len(), b) =~= rc4_apply(
        key,
        offset,
        a + b,
    ));
}

} // verus!
