//! The TCP option kind tag and its mapping to and from the wire byte.

use vstd::prelude::*;

verus! {

/// TCP option kinds from RFC 793 and its extensions, with an escape
/// variant that carries the raw code byte of any kind the codec does
/// not specifically understand.
#[derive(Debug, Clone, Copy, PartialEq, Eq, Structural)]
pub enum TcpOptionType {
    EndOfOptionList,
    NoOperation,
    MaximumSegmentSize,
    WindowScale,
    SackPermitted,
    Sack,
    /// RFC 7323 Timestamp option, the kind this library analyzes and strips.
    Timestamp,
    Unknown(u8),
}

/// The option kind a wire code byte denotes. Total: every byte maps to
/// exactly one kind, unrecognized codes to `Unknown` of that byte.
pub open spec fn kind_of_byte(b: u8) -> TcpOptionType {
    if b == 0 {
        TcpOptionType::EndOfOptionList
    } else if b == 1 {
        TcpOptionType::NoOperation
    } else if b == 2 {
        TcpOptionType::MaximumSegmentSize
    } else if b == 3 {
        TcpOptionType::WindowScale
    } else if b == 4 {
        TcpOptionType::SackPermitted
    } else if b == 5 {
        TcpOptionType::Sack
    } else if b == 8 {
        TcpOptionType::Timestamp
    } else {
        TcpOptionType::Unknown(b)
    }
}

/// The wire code byte that encodes an option kind.
pub open spec fn byte_of_kind(k: TcpOptionType) -> u8 {
    match k {
        TcpOptionType::EndOfOptionList => 0,
        TcpOptionType::NoOperation => 1,
        TcpOptionType::MaximumSegmentSize => 2,
        TcpOptionType::WindowScale => 3,
        TcpOptionType::SackPermitted => 4,
        TcpOptionType::Sack => 5,
        TcpOptionType::Timestamp => 8,
        TcpOptionType::Unknown(code) => code,
    }
}

/// Decoding a byte and re-encoding the kind gives the byte back: the
/// kind-to-byte mapping is reversible, also for unrecognized codes.
pub proof fn lemma_kind_byte_round_trip(b: u8)
    ensures
        byte_of_kind(kind_of_byte(b)) == b,
{
}

impl From<u8> for TcpOptionType {
    /// Map a wire code byte to its option kind.
    fn from(value: u8) -> (kind: TcpOptionType) {
        match value {
            0 => TcpOptionType::EndOfOptionList,
            1 => TcpOptionType::NoOperation,
            2 => TcpOptionType::MaximumSegmentSize,
            3 => TcpOptionType::WindowScale,
            4 => TcpOptionType::SackPermitted,
            5 => TcpOptionType::Sack,
            8 => TcpOptionType::Timestamp,
            other => TcpOptionType::Unknown(other),
        }
    }
}

impl vstd::std_specs::convert::FromSpecImpl<u8> for TcpOptionType {
    open spec fn obeys_from_spec() -> bool {
        true
    }

    open spec fn from_spec(v: u8) -> TcpOptionType {
        kind_of_byte(v)
    }
}

impl TcpOptionType {
    /// The wire code byte for this kind, the inverse of `From<u8>` on
    /// every byte the decoder can produce.
    pub fn wire_byte(&self) -> (b: u8)
        ensures
            b == byte_of_kind(*self),
    {
        match self {
            TcpOptionType::EndOfOptionList => 0,
            TcpOptionType::NoOperation => 1,
            TcpOptionType::MaximumSegmentSize => 2,
            TcpOptionType::WindowScale => 3,
            TcpOptionType::SackPermitted => 4,
            TcpOptionType::Sack => 5,
            TcpOptionType::Timestamp => 8,
            TcpOptionType::Unknown(code) => *code,
        }
    }
}

} // verus!
