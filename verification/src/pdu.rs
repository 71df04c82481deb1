//! Wire-format PDUs for RDP and the codec traits they are built on. This
//! layer is sans-I/O: it only turns bytes into typed PDUs and back.
use vstd::prelude::*;
use crate::asn1::Asn1Error;

pub mod x224;
pub mod finalization;
pub mod input;
pub mod logon;
pub mod multitransport;
pub mod rdstls;

verus! {

/// Why a PDU could not be decoded or encoded.
#[derive(Debug)]
pub enum PduError {
    /// The input ended early.
    NotEnoughData { have: usize, needed: usize },
    /// A field held a value that is not allowed.
    InvalidField { field: &'static str, detail: String },
    /// A value the implementation does not support.
    Unsupported { what: &'static str, value: String },
    /// A DER structure could not be decoded.
    Asn1(Asn1Error),
}

pub type PduResult<T> = Result<T, PduError>;

/// A type that can be written to the wire.
pub trait Encode {
    /// Append the encoded form to `dst`.
    fn encode(&self, dst: &mut Vec<u8>) -> PduResult<()>;

    /// Exact number of bytes `encode` will append.
    fn encoded_len(&self) -> usize;
}

/// A type that can be parsed from the wire. Decoders take `&mut &[u8]` as a
/// cursor: on success it is advanced past the consumed bytes.
pub trait Decode<'de>: Sized {
    fn decode(src: &mut &'de [u8]) -> PduResult<Self>;
}

/// Ensure at least `needed` bytes remain in `src`, else `NotEnoughData`.
pub fn ensure(src: &[u8], needed: usize) -> (r: PduResult<()>)
    ensures
        r is Ok <==> src@.len() >= needed,
        r matches Err(e) ==> e == (PduError::NotEnoughData { have: src@.len() as usize, needed }),
{
    if src.len() < needed {
        Err(PduError::NotEnoughData { have: src.len(), needed })
    } else {
        Ok(())
    }
}

} // verus!
