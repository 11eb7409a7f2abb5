use vstd::prelude::*;

use crate::error::QblError;
use vstd::slice::{slice_subrange, slice_to_vec};

verus! {

/// The four little-endian bytes of `n`, for `0 <= n <= u32::MAX`.
pub open spec fn le32(n: int) -> Seq<u8> {
    seq![
        (n % 256) as u8,
        ((n / 256) % 256) as u8,
        ((n / 65536) % 256) as u8,
        ((n / 16777216) % 256) as u8,
    ]
}

/// The qbl envelope around a ciphertext `c`: an outer record head
/// (`0x7e 0x00`, length `c.len() + 7`), an inner record head
/// (`0x7f 0x01`, length `c.len()`), the ciphertext itself, and the
/// closing byte `0x7b`.
pub open spec fn env_encode(c: Seq<u8>) -> Seq<u8> {
    seq![0x7eu8, 0x00u8] + le32(c.len() as int + 7) + seq![0x7fu8, 0x01u8] + le32(c.len() as int) + c
        + seq![0x7bu8]
}

/// The ciphertext a qbl buffer carries: everything between the twelve
/// header bytes and the closing byte.
pub open spec fn env_decode(qbl: Seq<u8>) -> Seq<u8> {
    qbl.subrange(12, qbl.len() - 1)
}

/// Appends the four little-endian bytes of `v`.
pub fn push_u32(vec: &mut Vec<u8>, v: u32)
    ensures
        final(vec)@ == old(vec)@ + le32(v as int),
{
    vec.push((v % 256) as u8);
    vec.push(((v / 256) % 256) as u8);
    vec.push(((v / 65536) % 256) as u8);
    vec.push(((v / 16777216) % 256) as u8);
    proof {
        assert(vec@ =~= old(vec)@ + le32(v as int));
    }
}

/// Strips the qbl envelope from a buffer and returns the ciphertext
/// between the twelve header bytes and the closing byte.  A buffer too
/// short to hold the thirteen framing bytes is refused.
///
/// The magic bytes (`0x7e 0x00` at offset 0, `0x7f 0x01` at offset 6,
/// `0x7b` at the end) and the two length records are trusted rather than
/// checked: producers are assumed to be well formed, and the ciphertext
/// boundary depends only on the buffer length.
pub fn qbl_to_crypt(qbl: &[u8]) -> (r: Result<Vec<u8>, QblError>)
    ensures
        qbl@.len() >= 13 ==> (r matches Ok(crypt) && crypt@ == env_decode(qbl@)),
        qbl@.len() < 13 ==> r == Err::<Vec<u8>, QblError>(QblError::FormatError),
{
    if qbl.len() < 13 {
        return Err(QblError::FormatError);
    }
    let crypt = slice_subrange(qbl, 12, qbl.len() - 1);
    Ok(slice_to_vec(crypt))
}

/// Builds the qbl envelope around a ciphertext.  A ciphertext whose
/// outer length record `crypt.len() + 7` would not fit in 32 bits is
/// refused.
pub fn crypt_to_qbl(crypt: &[u8]) -> (r: Result<Vec<u8>, QblError>)
    ensures
        crypt@.len() + 7 <= u32::MAX ==> (r matches Ok(qbl) && qbl@ == env_encode(crypt@)),
        crypt@.len() + 7 > u32::MAX ==> r == Err::<Vec<u8>, QblError>(QblError::FormatError),
{
    if crypt.len() >= 0xffff_fff9usize {
        return Err(QblError::FormatError);
    }
    let mut qbl: Vec<u8> = Vec::new();
    qbl.push(0x7e);
    qbl.push(0x00);
    push_u32(&mut qbl, (crypt.len() + 7) as u32);
    qbl.push(0x7f);
    qbl.push(0x01);
    push_u32(&mut qbl, crypt.len() as u32);
    qbl.extend_from_slice(crypt);
    qbl.push(0x7b);
    proof {
        assert(qbl@ =~= env_encode(crypt@));
    }
    Ok(qbl)
}

/// Envelope round trip: decoding an encoded envelope returns the
/// ciphertext unchanged, and the envelope adds exactly the thirteen
/// framing bytes.
pub proof fn lemma_envelope_round_trip(c: Seq<u8>)
    ensures
        env_encode(c).len() == c.len() + 13,
        env_decode(env_encode(c)) == c,
{
    assert(env_decode(env_encode(c)) =~= c);
}

} // verus!
