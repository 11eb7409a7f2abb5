//! Codec pipeline converting the `qbl` binary container format to and
//! from XML text.
//!
//! A `qbl` buffer wraps an AES-128-CBC encrypted payload in a fixed
//! two-record envelope; the decrypted payload is the XML text behind a
//! variable-length (LEB128-style) size prefix.  Three independent codec
//! stages — envelope, cipher, length prefix — are composed by the
//! pipeline in a fixed order for each direction.

mod cipher;
mod envelope;
mod error;
mod file_type;
mod lenprefix;
mod pipeline;

pub use cipher::cipher_of;
pub use cipher::padded_len;
pub use envelope::crypt_to_qbl;
pub use envelope::env_decode;
pub use envelope::env_encode;
pub use envelope::le32;
pub use envelope::lemma_envelope_round_trip;
pub use envelope::push_u32;
pub use envelope::qbl_to_crypt;
pub use error::QblError;
pub use file_type::qbl_extension;
pub use file_type::xml_extension;
pub use file_type::FileType;
pub use lenprefix::leb128;
pub use lenprefix::lemma_leb128_len_bound;
pub use lenprefix::lemma_length_prefix_round_trip;
pub use lenprefix::lenxml_to_xml;
pub use lenprefix::lp_decode;
pub use lenprefix::lp_encode;
pub use lenprefix::push_usize;
pub use lenprefix::xml_to_lenxml;
pub use pipeline::lemma_round_trip_from_qbl;
pub use pipeline::lemma_round_trip_from_xml;
pub use pipeline::qbl_image;
pub use pipeline::qbl_to_xml;
pub use pipeline::xml_to_qbl;
