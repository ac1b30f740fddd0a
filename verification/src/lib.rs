//! Codec and timing-risk analyzer for the TCP header options field.
//!
//! The library decodes the raw variable-length options bytes of a TCP
//! segment into a structured sequence (RFC 793 base options, RFC 7323
//! Timestamp option), extracts and classifies any Timestamp option for
//! information-leakage risk, re-encodes the options with the Timestamp
//! option removed and correct word-aligned padding, and synthesizes
//! replacement timestamp pairs. Every operation is a pure function of
//! its input buffer; malformed input truncates the decode rather than
//! failing.

pub mod analysis;
pub mod codec;
pub mod laws;
pub mod option_kind;

pub use analysis::{
    analyze_tcp_packet, assess_timestamp_risk, extract_timestamp, generate_spoofed_timestamp,
    FingerprintRisk, TcpAnalysisResult, TcpTimestamp,
};
pub use codec::{parse_tcp_options, strip_timestamp_option, TcpOption};
pub use option_kind::TcpOptionType;
