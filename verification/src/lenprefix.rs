use vstd::prelude::*;

use crate::error::QblError;
use vstd::arithmetic::div_mod::lemma_multiply_divide_lt;
use vstd::slice::{slice_subrange, slice_to_vec};

verus! {

/// The LEB128-style encoding of `n`: little-endian base-128 digits, each
/// carried in the low seven bits of a byte whose top bit marks
/// continuation, ending with the one byte whose top bit is clear.
pub open spec fn leb128(n: nat) -> Seq<u8>
    decreases n,
{
    if n <= 0x7f {
        seq![n as u8]
    } else {
        seq![(0x80 + n % 0x80) as u8] + leb128(n / 0x80)
    }
}

/// A length-prefixed buffer: the encoded length of the payload, then the
/// payload itself.
pub open spec fn lp_encode(xml: Seq<u8>) -> Seq<u8> {
    leb128(xml.len()) + xml
}

/// The payload of a length-prefixed buffer: everything after the first
/// byte whose top bit is clear, found by scanning from the front, or
/// nothing when every byte has its top bit set.  The boundary comes from
/// the scan alone; the numeric length value is never computed or
/// checked against the number of remaining bytes.
pub open spec fn lp_decode(lenxml: Seq<u8>) -> Option<Seq<u8>>
    decreases lenxml.len(),
{
    if lenxml.len() == 0 {
        None
    } else if lenxml[0] < 0x80 {
        Some(lenxml.skip(1))
    } else {
        lp_decode(lenxml.skip(1))
    }
}

/// Appends the LEB128-style encoding of `len`.
pub fn push_usize(vec: &mut Vec<u8>, len: usize)
    ensures
        final(vec)@ == old(vec)@ + leb128(len as nat),
{
    let mut n: usize = len;
    while n > 0x7f
        invariant
            old(vec)@ + leb128(len as nat) == vec@ + leb128(n as nat),
        decreases n,
    {
        let ghost n0: nat = n as nat;
        vec.push(((n % 0x80) + 0x80) as u8);
        n = n / 0x80;
        proof {
            assert(leb128(n0) =~= seq![(0x80 + n0 % 0x80) as u8] + leb128(n0 / 0x80));
            assert(old(vec)@ + leb128(len as nat) =~= vec@ + leb128(n as nat));
        }
    }
    vec.push(n as u8);
    proof {
        assert(leb128(n as nat) =~= seq![n as u8]);
        assert(vec@ =~= old(vec)@ + leb128(len as nat));
    }
}

/// Builds the length-prefixed form of an XML payload: the encoded
/// payload length, then the payload unchanged.
pub fn xml_to_lenxml(xml: &[u8]) -> (lenxml: Vec<u8>)
    ensures
        lenxml@ == lp_encode(xml@),
{
    let mut lenxml: Vec<u8> = Vec::new();
    push_usize(&mut lenxml, xml.len());
    lenxml.extend_from_slice(xml);
    proof {
        assert(lenxml@ =~= lp_encode(xml@));
    }
    lenxml
}

/// Strips the length prefix from a buffer: scans from the front while
/// the current byte has its top bit set, and returns everything after
/// the first byte whose top bit is clear.  The scan alone fixes the
/// boundary; the encoded length value is never compared with the number
/// of remaining bytes.  A buffer in which every byte has its top bit set
/// carries no payload at all and is refused.
pub fn lenxml_to_xml(lenxml: &[u8]) -> (r: Result<Vec<u8>, QblError>)
    ensures
        lp_decode(lenxml@) matches Some(xml) ==> (r matches Ok(v) && v@ == xml),
        lp_decode(lenxml@) is None ==> r == Err::<Vec<u8>, QblError>(QblError::FormatError),
{
    let mut i: usize = 0;
    proof {
        assert(lenxml@.skip(0) =~= lenxml@);
    }
    while i < lenxml.len() && lenxml[i] >= 0x80
        invariant
            i <= lenxml@.len(),
            lp_decode(lenxml@) == lp_decode(lenxml@.skip(i as int)),
        decreases lenxml@.len() - i,
    {
        proof {
            assert(lenxml@.skip(i as int)[0] == lenxml@[i as int]);
            assert(lenxml@.skip(i as int).skip(1) =~= lenxml@.skip(i as int + 1));
        }
        i = i + 1;
    }
    if i == lenxml.len() {
        proof {
            assert(lenxml@.skip(i as int).len() == 0);
        }
        return Err(QblError::FormatError);
    }
    proof {
        assert(lenxml@.skip(i as int)[0] == lenxml@[i as int]);
        assert(lenxml@.skip(i as int).skip(1) =~= lenxml@.skip(i as int + 1));
        assert(lenxml@.skip(i as int + 1) =~= lenxml@.subrange(i as int + 1, lenxml@.len() as int));
    }
    let xml = slice_to_vec(slice_subrange(lenxml, i + 1, lenxml.len()));
    Ok(xml)
}

/// Base-128 powers, for bounding the length of an encoded prefix.
spec fn pow128(k: nat) -> nat
    decreases k,
{
    if k == 0 {
        1
    } else {
        128 * pow128((k - 1) as nat)
    }
}

proof fn lemma_leb128_len_le(n: nat, k: nat)
    requires
        1 <= k,
        n < pow128(k),
    ensures
        leb128(n).len() <= k,
    decreases k,
{
    if n > 0x7f {
        if k == 1 {
            assert(pow128(1) == 128 * pow128(0));
            assert(false);
        }
        assert(pow128(k) == 128 * pow128((k - 1) as nat));
        lemma_multiply_divide_lt(n as int, 128, pow128((k - 1) as nat) as int);
        lemma_leb128_len_le(n / 0x80, (k - 1) as nat);
    }
}

/// The encoded length prefix of any value up to `u64::MAX` holds between
/// one and ten bytes.
pub proof fn lemma_leb128_len_bound(n: nat)
    requires
        n <= u64::MAX,
    ensures
        1 <= leb128(n).len() <= 10,
{
    assert(pow128(1) == 128 * pow128(0));
    assert(pow128(2) == 128 * pow128(1));
    assert(pow128(3) == 128 * pow128(2));
    assert(pow128(4) == 128 * pow128(3));
    assert(pow128(5) == 128 * pow128(4));
    assert(pow128(6) == 128 * pow128(5));
    assert(pow128(7) == 128 * pow128(6));
    assert(pow128(8) == 128 * pow128(7));
    assert(pow128(9) == 128 * pow128(8));
    assert(pow128(10) == 128 * pow128(9));
    lemma_leb128_len_le(n, 10);
}

proof fn lemma_lp_decode_after_prefix(n: nat, xml: Seq<u8>)
    ensures
        lp_decode(leb128(n) + xml) == Some(xml),
    decreases n,
{
    if n <= 0x7f {
        assert((leb128(n) + xml)[0] == n as u8);
        assert((leb128(n) + xml).skip(1) =~= xml);
    } else {
        assert(leb128(n) == seq![(0x80 + n % 0x80) as u8] + leb128(n / 0x80));
        assert((leb128(n) + xml)[0] == (0x80 + n % 0x80) as u8);
        assert((leb128(n) + xml).skip(1) =~= leb128(n / 0x80) + xml);
        lemma_lp_decode_after_prefix(n / 0x80, xml);
    }
}

/// Length-prefix round trip: decoding an encoded buffer returns the
/// payload unchanged, for every payload including the empty one.
pub proof fn lemma_length_prefix_round_trip(xml: Seq<u8>)
    ensures
        lp_decode(lp_encode(xml)) == Some(xml),
{
    lemma_lp_decode_after_prefix(xml.len(), xml);
}

} // verus!
