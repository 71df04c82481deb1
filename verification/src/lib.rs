//! RDP protocol logic: ASN.1/DER, PDU codecs, the connection state machine,
//! crypto primitives and graphics codecs, each stated and proved in Verus.
use vstd::prelude::*;

pub mod bytes;
pub mod channels;
pub mod connector;
pub mod asn1;
pub mod crypto;
pub mod gpu;
pub mod graphics;
pub mod metrics;
pub mod nla;
pub mod pdu;
pub mod text;
