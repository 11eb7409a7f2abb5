use vstd::prelude::*;

verus! {

/// Why a conversion was refused: a malformed container or framing
/// (`FormatError`), or a ciphertext that the block cipher could not
/// decrypt (`CryptoError`).
#[derive(Clone, Copy, Debug, PartialEq, Eq, Structural)]
pub enum QblError {
    FormatError,
    CryptoError,
}

} // verus!
