use qbl_xml::{qbl_to_xml, xml_to_lenxml, xml_to_qbl};
use qbl_xml::QblError;

// The qbl buffer that carries the XML payload `<a/>`: outer record head
// with length 0x17 = 23, inner record head with length 0x10 = 16, one
// AES-128-CBC block of ciphertext, and the closing byte.
const QBL_A: [u8; 29] = [
    0x7e, 0x00, 0x17, 0x00, 0x00, 0x00, 0x7f, 0x01, 0x10, 0x00, 0x00, 0x00, 0xe7, 0x62, 0xf2,
    0xa1, 0x8c, 0x90, 0xfd, 0x09, 0x11, 0x1b, 0xb0, 0x25, 0xcc, 0xe4, 0x9c, 0xb2, 0x7b,
];

#[test]
fn concrete_scenario_prefix() {
    let lenxml = xml_to_lenxml(b"<a/>");
    assert_eq!(lenxml, vec![0x04u8, b'<', b'a', b'/', b'>']);
}

#[test]
fn concrete_scenario_encode() {
    let qbl = xml_to_qbl(b"<a/>").unwrap();
    assert_eq!(qbl, QBL_A.to_vec());
}

#[test]
fn concrete_scenario_decode() {
    let xml = qbl_to_xml(&QBL_A).unwrap();
    assert_eq!(xml, b"<a/>".to_vec());
}

#[test]
fn xml_round_trip() {
    for xml in [
        &b""[..],
        &b"<a/>"[..],
        &b"<doc><x>1</x></doc>"[..],
        &[0u8; 15][..],
        &[0x80u8; 16][..],
        &[0xffu8; 1000][..],
    ] {
        let qbl = xml_to_qbl(xml).unwrap();
        assert_eq!(qbl_to_xml(&qbl).unwrap(), xml.to_vec());
    }
}

#[test]
fn qbl_round_trip() {
    // A well-formed qbl buffer converts to XML and back to itself, byte
    // for byte.
    let xml = qbl_to_xml(&QBL_A).unwrap();
    assert_eq!(xml_to_qbl(&xml).unwrap(), QBL_A.to_vec());

    let qbl = xml_to_qbl(b"<longer>document</longer>").unwrap();
    let xml = qbl_to_xml(&qbl).unwrap();
    assert_eq!(xml_to_qbl(&xml).unwrap(), qbl);
}

#[test]
fn cipher_lengths_cover_both_block_cases() {
    // 4 payload bytes give a 5-byte prefixed buffer (not a block
    // multiple); 15 give exactly one block.  Padding always adds bytes.
    let qbl = xml_to_qbl(b"<a/>").unwrap();
    assert_eq!(qbl.len(), 16 + 13);
    let qbl = xml_to_qbl(&[0x41u8; 15]).unwrap();
    assert_eq!(qbl.len(), 32 + 13);
}

#[test]
fn short_qbl_is_format_error() {
    for len in 0..13usize {
        let qbl = vec![0x7eu8; len];
        assert_eq!(qbl_to_xml(&qbl), Err(QblError::FormatError));
    }
}

#[test]
fn undecryptable_payload_is_crypto_error() {
    // 13 framing bytes around an empty ciphertext.
    let qbl = [0x7eu8, 0x00, 0x07, 0x00, 0x00, 0x00, 0x7f, 0x01, 0x00, 0x00, 0x00, 0x00, 0x7b];
    assert_eq!(qbl_to_xml(&qbl), Err(QblError::CryptoError));

    // A ciphertext that is not a whole number of blocks.
    let mut qbl = vec![0x7eu8, 0x00, 0x0a, 0x00, 0x00, 0x00, 0x7f, 0x01, 0x03, 0x00, 0x00, 0x00];
    qbl.extend_from_slice(&[0x11, 0x22, 0x33, 0x7b]);
    assert_eq!(qbl_to_xml(&qbl), Err(QblError::CryptoError));

    // One whole block that decrypts to malformed padding.
    let mut qbl = vec![0x7eu8, 0x00, 0x17, 0x00, 0x00, 0x00, 0x7f, 0x01, 0x10, 0x00, 0x00, 0x00];
    qbl.extend_from_slice(&[0u8; 16]);
    qbl.push(0x7b);
    assert_eq!(qbl_to_xml(&qbl), Err(QblError::CryptoError));
}

#[test]
fn encryption_is_deterministic() {
    let a = xml_to_qbl(b"<same/>").unwrap();
    let b = xml_to_qbl(b"<same/>").unwrap();
    assert_eq!(a, b);
}
