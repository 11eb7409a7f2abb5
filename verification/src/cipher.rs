use vstd::prelude::*;

use aes::cipher::{BlockDecryptMut, BlockEncryptMut, KeyIvInit};

verus! {

/// The fixed, embedded cipher key.  Key and initialization vector are
/// deployment constants shared with every producer and consumer of the
/// format; they are deliberately not configurable.
const KEY: [u8; 16] = [
    0x30,
    0x85,
    0xc1,
    0x24,
    0x9a,
    0x56,
    0xb6,
    0x30,
    0x79,
    0x67,
    0x5c,
    0x88,
    0xc8,
    0x8a,
    0xdc,
    0xba,
];

/// The fixed, embedded initialization vector, reused on every call: the
/// cipher is deliberately deterministic so that identical plaintexts
/// give identical ciphertexts, byte for byte, across runs.
const IV: [u8; 16] = [
    0xdf,
    0x86,
    0x4a,
    0x53,
    0xc4,
    0x68,
    0xc9,
    0x8f,
    0xb4,
    0xa5,
    0x61,
    0xdc,
    0x14,
    0xff,
    0x53,
    0x57,
];

/// The AES-128-CBC ciphertext, under the fixed key and initialization
/// vector, of a plaintext padded with PKCS7.  The same key and
/// initialization vector are used on every call, so the ciphertext is a
/// function of the plaintext alone.
pub uninterp spec fn cipher_of(plain: Seq<u8>) -> Seq<u8>;

/// The length of a PKCS7-padded buffer: the next multiple of sixteen
/// strictly above `n` (a whole padding block is added when `n` is
/// already a multiple).
pub open spec fn padded_len(n: nat) -> nat {
    (n + 16 - n % 16) as nat
}

/// Relies on `cbc::Encryptor::<aes::Aes128Enc>` and
/// `encrypt_padded_vec_mut::<Pkcs7>`: the plaintext is padded with PKCS7
/// to the next block boundary (at least one byte is always added) and
/// encrypted under the fixed key and initialization vector, so the
/// result is `cipher_of` the plaintext and exactly `padded_len` bytes
/// long.  The length bound keeps the padded buffer within `usize`.
#[verifier::external_body]
pub(crate) fn lenxml_to_crypt(lenxml: &[u8]) -> (crypt: Vec<u8>)
    requires
        lenxml@.len() + 16 <= usize::MAX,
    ensures
        crypt@ == cipher_of(lenxml@),
        crypt@.len() == padded_len(lenxml@.len()),
{
    cbc::Encryptor::<aes::Aes128Enc>::new(&KEY.into(), &IV.into())
        .encrypt_padded_vec_mut::<aes::cipher::block_padding::Pkcs7>(lenxml)
}

/// What decryption returns for a given ciphertext: on `cipher_of` any
/// plaintext it recovers exactly that plaintext, and on a buffer that is
/// empty or not a whole number of blocks it reports failure.
pub open spec fn decrypted(crypt: Seq<u8>, r: Option<Vec<u8>>) -> bool {
    &&& forall|plain: Seq<u8>|
        crypt == cipher_of(plain) ==> (r matches Some(lenxml) && lenxml@ == plain)
    &&& (crypt.len() == 0 || crypt.len() % 16 != 0 ==> r is None)
}

/// Relies on `cbc::Decryptor::<aes::Aes128Dec>` and
/// `decrypt_padded_vec_mut::<Pkcs7>`: decryption under the same fixed
/// key and initialization vector, with strict PKCS7 unpadding, inverts
/// `cipher_of`; the call reports an error when the input is empty or not
/// a whole number of blocks (and on malformed padding, of which nothing
/// more is claimed).
#[verifier::external_body]
pub(crate) fn crypt_to_lenxml(crypt: &[u8]) -> (r: Option<Vec<u8>>)
    ensures
        decrypted(crypt@, r),
{
    cbc::Decryptor::<aes::Aes128Dec>::new(&KEY.into(), &IV.into())
        .decrypt_padded_vec_mut::<aes::cipher::block_padding::Pkcs7>(crypt)
        .ok()
}

} // verus!
