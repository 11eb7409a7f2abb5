use vstd::prelude::*;

use crate::cipher::{cipher_of, crypt_to_lenxml, decrypted, lenxml_to_crypt, padded_len};
use crate::envelope::{
    crypt_to_qbl, env_decode, env_encode, lemma_envelope_round_trip, qbl_to_crypt,
};
use crate::error::QblError;
use crate::lenprefix::{
    lemma_leb128_len_bound, lemma_length_prefix_round_trip, lenxml_to_xml, lp_decode, lp_encode,
    xml_to_lenxml,
};

verus! {

/// The qbl buffer an XML payload converts to: the payload behind its
/// length prefix, encrypted, inside the envelope.
pub open spec fn qbl_image(xml: Seq<u8>) -> Seq<u8> {
    env_encode(cipher_of(lp_encode(xml)))
}

/// Converts a qbl buffer to the XML payload it carries: strips the
/// envelope, decrypts the ciphertext, and strips the length prefix.
///
/// A buffer shorter than the thirteen envelope bytes is a
/// `FormatError`; a ciphertext the cipher cannot decrypt (empty, not a
/// whole number of blocks, or with malformed padding) is a
/// `CryptoError`; a decrypted payload with no length terminator is a
/// `FormatError`.  On the qbl image of any payload the conversion
/// succeeds and returns that payload.
pub fn qbl_to_xml(qbl: &[u8]) -> (r: Result<Vec<u8>, QblError>)
    ensures
        qbl@.len() < 13 ==> r == Err::<Vec<u8>, QblError>(QblError::FormatError),
        qbl@.len() >= 13 ==> forall|plain: Seq<u8>|
            env_decode(qbl@) == cipher_of(plain) ==> match lp_decode(plain) {
                Some(xml) => r matches Ok(v) && v@ == xml,
                None => r == Err::<Vec<u8>, QblError>(QblError::FormatError),
            },
        qbl@.len() >= 13 && (env_decode(qbl@).len() == 0 || env_decode(qbl@).len() % 16 != 0)
            ==> r == Err::<Vec<u8>, QblError>(QblError::CryptoError),
{
    let crypt = match qbl_to_crypt(qbl) {
        Ok(c) => c,
        Err(e) => {
            return Err(e);
        },
    };
    let lenxml = match crypt_to_lenxml(crypt.as_slice()) {
        Some(l) => l,
        None => {
            return Err(QblError::CryptoError);
        },
    };
    lenxml_to_xml(lenxml.as_slice())
}

/// Converts an XML payload to the qbl buffer that carries it: puts the
/// length prefix in front, encrypts, and builds the envelope.  The
/// length bound keeps the prefixed and padded buffers within `usize`.
///
/// The conversion fails — with a `FormatError`, from the envelope stage
/// — exactly when the ciphertext would be too long for the envelope's
/// 32-bit outer length record; on every other payload it returns the
/// qbl image of the payload.
pub fn xml_to_qbl(xml: &[u8]) -> (r: Result<Vec<u8>, QblError>)
    requires
        xml@.len() + 26 <= usize::MAX,
    ensures
        padded_len(lp_encode(xml@).len()) + 7 <= u32::MAX ==> (r matches Ok(qbl) && qbl@
            == qbl_image(xml@)),
        padded_len(lp_encode(xml@).len()) + 7 > u32::MAX ==> r == Err::<Vec<u8>, QblError>(
            QblError::FormatError,
        ),
{
    proof {
        lemma_leb128_len_bound(xml@.len());
    }
    let lenxml = xml_to_lenxml(xml);
    let crypt = lenxml_to_crypt(lenxml.as_slice());
    crypt_to_qbl(crypt.as_slice())
}

/// Round trip from the XML side: the qbl image of any payload carries a
/// ciphertext that decrypts back to the prefixed payload, whose prefix
/// strips back off.  With the contracts of `xml_to_qbl` and
/// `qbl_to_xml`, this says that whenever `xml_to_qbl(x)` returns a
/// buffer, `qbl_to_xml` of that buffer returns `x` — for every payload,
/// including the empty one.
pub proof fn lemma_round_trip_from_xml(xml: Seq<u8>)
    ensures
        qbl_image(xml).len() >= 13,
        env_decode(qbl_image(xml)) == cipher_of(lp_encode(xml)),
        lp_decode(lp_encode(xml)) == Some(xml),
{
    lemma_envelope_round_trip(cipher_of(lp_encode(xml)));
    lemma_length_prefix_round_trip(xml);
}

/// Round trip from the qbl side: a well-formed qbl buffer — the qbl
/// image of some payload `xml` — decodes to exactly that payload, and
/// re-encoding the ciphertext it carries rebuilds the buffer byte for
/// byte.  With the contracts of `qbl_to_xml` and `xml_to_qbl`, this says
/// `xml_to_qbl(qbl_to_xml(q))` returns `q` itself.
pub proof fn lemma_round_trip_from_qbl(qbl: Seq<u8>, xml: Seq<u8>)
    requires
        qbl == qbl_image(xml),
    ensures
        qbl.len() >= 13,
        env_decode(qbl) == cipher_of(lp_encode(xml)),
        lp_decode(lp_encode(xml)) == Some(xml),
        env_encode(env_decode(qbl)) == qbl,
{
    lemma_round_trip_from_xml(xml);
}

} // verus!
