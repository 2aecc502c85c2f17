//! The decode error taxonomy.  Every error is a deterministic
//! data/metadata mismatch: the registry and the payload disagree.

use vstd::prelude::*;

verus! {

/// Why a decode failed.
///
/// `UnknownType` names a type id the registry does not resolve;
/// `InvalidBool` a bool byte that is neither 0 nor 1; `InvalidString`
/// text (or a char scalar) that is not valid Unicode; `UnknownVariant` a
/// discriminant byte absent from the case table; `TrailingBytes` a payload
/// with bytes left over after the declared fields; `UnexpectedEndOfInput`
/// a payload spent before a field's declared consumption completed; and
/// `CompactTooLarge` a compact integer prefix announcing more bytes than
/// the decoder's 128-bit values can carry.
#[derive(Clone, Copy, Debug, PartialEq, Eq, Structural)]
pub enum DecodeError {
    UnknownType,
    InvalidBool,
    InvalidString,
    UnknownVariant,
    TrailingBytes,
    UnexpectedEndOfInput,
    CompactTooLarge,
}

} // verus!
