//! Timestamp extraction, fingerprinting-risk classification, packet
//! analysis, and replacement-timestamp synthesis.

use vstd::prelude::*;
use vstd::wrapping::u32_specs;

use crate::codec::{opts_view, parse_options, parse_tcp_options, OptionModel, TcpOption};
use crate::option_kind::TcpOptionType;

verus! {

/// The two 32-bit fields of an RFC 7323 Timestamp option: the sender's
/// timestamp value and the echoed peer timestamp, both big-endian on the
/// wire.
#[derive(Debug, Clone, Copy, PartialEq, Eq, Structural)]
pub struct TcpTimestamp {
    pub ts_val: u32,
    pub ts_ecr: u32,
}

/// How much a timestamp value's pattern reveals about the originating
/// host's clock behavior. `Critical` is reserved for a stricter future
/// policy; the current heuristic never produces it.
#[derive(Debug, Clone, Copy, PartialEq, Eq, Structural)]
pub enum FingerprintRisk {
    Low,
    Medium,
    High,
    Critical,
}

/// Everything one analysis pass learns from a buffer: whether a
/// Timestamp option appeared, the fields of the last one that decoded
/// (if the last one seen decoded at all), the full decoded option
/// sequence, and the risk of the last decodable Timestamp option.
#[derive(Debug, Clone)]
pub struct TcpAnalysisResult {
    pub has_timestamp: bool,
    pub timestamp: Option<TcpTimestamp>,
    pub options: Vec<TcpOption>,
    pub fingerprint_risk: FingerprintRisk,
}

/// The big-endian unsigned 32-bit integer held in four bytes of `data`
/// starting at `i`.
pub open spec fn be_u32_at(data: Seq<u8>, i: int) -> u32
    recommends
        0 <= i,
        i + 4 <= data.len(),
{
    ((data[i] as int) * 0x1000000 + (data[i + 1] as int) * 0x10000 + (data[i + 2] as int) * 0x100
        + (data[i + 3] as int)) as u32
}

/// What extraction yields from one decoded option: the two big-endian
/// fields when the option is a Timestamp option with exactly 8 payload
/// bytes, and no value otherwise.
pub open spec fn spec_extract(o: OptionModel) -> Option<TcpTimestamp> {
    if o.kind == TcpOptionType::Timestamp && o.data.len() == 8 {
        Some(TcpTimestamp { ts_val: be_u32_at(o.data, 0), ts_ecr: be_u32_at(o.data, 4) })
    } else {
        None
    }
}

/// The fingerprinting risk of a timestamp value, first match wins: zero
/// means timestamps are disabled (low); alignment with a common OS
/// timer-tick rate leaks tick information (high); a very small value is
/// consistent with a recently booted host (high); any other nonzero
/// value still reveals relative uptime (medium).
pub open spec fn risk_of(ts_val: u32) -> FingerprintRisk {
    if ts_val == 0 {
        FingerprintRisk::Low
    } else if ts_val % 100 == 0 || ts_val % 250 == 0 || ts_val % 300 == 0 || ts_val % 1000 == 0 {
        FingerprintRisk::High
    } else if ts_val < 10000 {
        FingerprintRisk::High
    } else {
        FingerprintRisk::Medium
    }
}

/// What one scan over the decoded options reports: the extraction result
/// of the last Timestamp option seen (no value if it failed to decode),
/// and the risk of the last Timestamp option that decoded successfully
/// (low while none has).
pub open spec fn scan_options(opts: Seq<OptionModel>) -> (Option<TcpTimestamp>, FingerprintRisk)
    decreases opts.len(),
{
    if opts.len() == 0 {
        (None::<TcpTimestamp>, FingerprintRisk::Low)
    } else {
        let prev = scan_options(opts.drop_last());
        let o = opts.last();
        if o.kind == TcpOptionType::Timestamp {
            match spec_extract(o) {
                Some(ts) => (Some(ts), risk_of(ts.ts_val)),
                None => (None::<TcpTimestamp>, prev.1),
            }
        } else {
            prev
        }
    }
}

/// Whether any decoded option is a Timestamp option.
pub open spec fn has_timestamp_option(opts: Seq<OptionModel>) -> bool {
    exists|i: int| 0 <= i < opts.len() && opts[i].kind == TcpOptionType::Timestamp
}

/// Extract the timestamp fields from a decoded option.
///
/// Yields a value exactly when the option is a Timestamp option whose
/// payload is exactly 8 bytes; then `ts_val` is the big-endian integer
/// in the first four payload bytes and `ts_ecr` the one in the last
/// four. Any other option yields no value, never an error.
pub fn extract_timestamp(option: &TcpOption) -> (extracted: Option<TcpTimestamp>)
    ensures
        extracted == spec_extract(option@),
        extracted is Some <==> (option@.kind == TcpOptionType::Timestamp && option@.data.len()
            == 8),
{
    if !matches!(option.kind, TcpOptionType::Timestamp) || option.data.len() != 8 {
        return None;
    }

    let ts_val: u32 = (option.data[0] as u32) * 0x1000000 + (option.data[1] as u32) * 0x10000 + (
    option.data[2] as u32) * 0x100 + (option.data[3] as u32);
    let ts_ecr: u32 = (option.data[4] as u32) * 0x1000000 + (option.data[5] as u32) * 0x10000 + (
    option.data[6] as u32) * 0x100 + (option.data[7] as u32);

    Some(TcpTimestamp { ts_val, ts_ecr })
}

/// Classify a timestamp value's fingerprinting risk.
///
/// Deterministic and total over all 32-bit values; returns exactly
/// `risk_of(ts.ts_val)`.
pub fn assess_timestamp_risk(ts: TcpTimestamp) -> (risk: FingerprintRisk)
    ensures
        risk == risk_of(ts.ts_val),
{
    let ts_val = ts.ts_val;

    if ts_val == 0 {
        // An explicitly disabled timestamp reveals nothing.
        return FingerprintRisk::Low;
    }

    // Alignment with a common kernel tick rate (100, 250, 300 or
    // 1000 Hz) presumably leaks system-tick information. Multiples of
    // 1000 are already covered by this set.
    if ts_val % 100 == 0 || ts_val % 250 == 0 || ts_val % 300 == 0 || ts_val % 1000 == 0 {
        return FingerprintRisk::High;
    }

    // A very small value is consistent with a recently booted host.
    if ts_val < 10000 {
        return FingerprintRisk::High;
    }

    // Any other nonzero timestamp still reveals relative host uptime.
    FingerprintRisk::Medium
}

/// Analyze the raw TCP options bytes of one segment for Timestamp
/// options and their fingerprinting risk.
///
/// Decodes the buffer, reports whether any Timestamp option appeared,
/// and reflects the last Timestamp option encountered in the `timestamp`
/// and `fingerprint_risk` fields. Total over every input buffer.
pub fn analyze_tcp_packet(options_data: &[u8]) -> (result: TcpAnalysisResult)
    ensures
        opts_view(result.options@) == parse_options(options_data@),
        result.has_timestamp == has_timestamp_option(parse_options(options_data@)),
        result.timestamp == scan_options(parse_options(options_data@)).0,
        result.fingerprint_risk == scan_options(parse_options(options_data@)).1,
{
    let options = parse_tcp_options(options_data);
    let ghost models = opts_view(options@);

    let mut has_timestamp = false;
    let mut timestamp: Option<TcpTimestamp> = None;
    let mut fingerprint_risk = FingerprintRisk::Low;

    proof {
        assert(models.take(0) =~= Seq::<OptionModel>::empty());
    }
    for i in 0..options.len()
        invariant
            models == opts_view(options@),
            models == parse_options(options_data@),
            has_timestamp == has_timestamp_option(models.take(i as int)),
            (timestamp, fingerprint_risk) == scan_options(models.take(i as int)),
    {
        let option = &options[i];
        proof {
            assert(models.take(i + 1).drop_last() =~= models.take(i as int));
            assert(models.take(i + 1).last() == models[i as int]);
        }
        if matches!(option.kind, TcpOptionType::Timestamp) {
            has_timestamp = true;
            timestamp = extract_timestamp(option);

            if let Some(ts) = timestamp {
                fingerprint_risk = assess_timestamp_risk(ts);
            }
            proof {
                assert(models[i as int].kind == TcpOptionType::Timestamp);
                assert(has_timestamp_option(models.take(i + 1)));
            }
        } else {
            proof {
                assert forall|j: int|
                    0 <= j < i + 1 && #[trigger] models.take(i + 1)[j].kind
                        == TcpOptionType::Timestamp implies has_timestamp_option(
                    models.take(i as int),
                ) by {
                    assert(models.take(i as int)[j].kind == TcpOptionType::Timestamp);
                }
            }
        }
    }
    proof {
        assert(models.take(options@.len() as int) =~= models);
    }

    TcpAnalysisResult { has_timestamp, timestamp, options, fingerprint_risk }
}

/// The synthesized timestamp value: a linear mixing of the base time
/// gives an offset under 1000, added (with wraparound) to the base and
/// the increment so that successive values do not advance by a visibly
/// regular step. Not a security primitive: deterministic in its inputs.
pub open spec fn spoofed_ts_val(base_time: u32, increment: u32) -> u32 {
    let mixed: u32 = u32_specs::wrapping_add(u32_specs::wrapping_mul(base_time, 1103515245), 12345);
    let offset: u32 = ((mixed as int) % 1000) as u32;
    u32_specs::wrapping_add(u32_specs::wrapping_add(base_time, increment), offset)
}

/// Synthesize a replacement timestamp pair.
///
/// Pure and total: all arithmetic wraps modulo 2^32, the value is
/// exactly `spoofed_ts_val(base_time, increment)`, and the echo field is
/// zero for the caller to overwrite with an echoed peer value.
pub fn generate_spoofed_timestamp(base_time: u32, increment: u32) -> (ts: TcpTimestamp)
    ensures
        ts.ts_val == spoofed_ts_val(base_time, increment),
        ts.ts_ecr == 0,
{
    let random_offset: u32 = base_time.wrapping_mul(1103515245).wrapping_add(12345) % 1000;
    let spoofed_ts_val: u32 = base_time.wrapping_add(increment).wrapping_add(random_offset);

    TcpTimestamp { ts_val: spoofed_ts_val, ts_ecr: 0 }
}

} // verus!
