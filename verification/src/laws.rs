//! Laws the codec obeys: stripping removes every Timestamp option, is
//! idempotent, and is the identity (up to word padding) on buffers that
//! decode fully and hold no Timestamp option.

use vstd::prelude::*;

use crate::analysis::has_timestamp_option;
use crate::codec::{
    decodes_fully, decodes_fully_from, encode_one, encode_options, lemma_parse_options_wf,
    nop_model, pad_len, pad_to_word, parse_options, parse_options_from, retained, strip_spec,
    wf_option, OptionModel,
};
use crate::option_kind::{byte_of_kind, kind_of_byte, TcpOptionType};

verus! {

/// Decoding depends only on the bytes at and after the cursor: dropping
/// a prefix before the cursor leaves the decoded options unchanged.
proof fn lemma_parse_from_offset(bytes: Seq<u8>, j: int, pos: int)
    requires
        0 <= j <= pos <= bytes.len(),
    ensures
        parse_options_from(bytes, pos) == parse_options_from(
            bytes.subrange(j, bytes.len() as int),
            pos - j,
        ),
    decreases bytes.len() - pos,
{
    let tail = bytes.subrange(j, bytes.len() as int);
    if pos == bytes.len() {
        // Both cursors are at their buffer's end.
    } else {
        assert(tail[pos - j] == bytes[pos]);
        let kind_byte: u8 = bytes[pos];
        if kind_byte == 0 {
            // Both scans stop at the End-of-List byte.
        } else if kind_byte == 1 {
            lemma_parse_from_offset(bytes, j, pos + 1);
        } else if pos + 2 > bytes.len() {
            // Both scans stop at the truncated header.
        } else {
            assert(tail[pos - j + 1] == bytes[pos + 1]);
            let length: u8 = bytes[pos + 1];
            if length >= 2 && pos + length <= bytes.len() {
                assert(bytes.subrange(pos + 2, pos + length) =~= tail.subrange(
                    pos - j + 2,
                    pos - j + length,
                ));
                lemma_parse_from_offset(bytes, j, pos + length);
            }
        }
    }
}

/// Decoding inverts encoding: the encoded bytes of well-formed options,
/// followed by any all-zero padding, decode to exactly those options.
proof fn lemma_parse_of_encode(opts: Seq<OptionModel>, padding: Seq<u8>)
    requires
        forall|i: int| 0 <= i < opts.len() ==> wf_option(#[trigger] opts[i]),
        forall|i: int| 0 <= i < padding.len() ==> padding[i] == 0u8,
    ensures
        parse_options(encode_options(opts) + padding) == opts,
    decreases opts.len(),
{
    let buf = encode_options(opts) + padding;
    if opts.len() == 0 {
        assert(buf =~= padding);
        assert(parse_options(buf) =~= opts);
    } else {
        let o = opts[0];
        let rest = opts.drop_first();
        assert(forall|i: int| 0 <= i < rest.len() ==> wf_option(#[trigger] rest[i])) by {
            assert(forall|i: int| 0 <= i < rest.len() ==> #[trigger] rest[i] == opts[i + 1]);
        }
        let tailbuf = encode_options(rest) + padding;
        lemma_parse_of_encode(rest, padding);
        assert(buf =~= encode_one(o) + tailbuf);
        let b: u8 = byte_of_kind(o.kind);
        assert(kind_of_byte(b) == o.kind);
        if o.kind == TcpOptionType::NoOperation {
            assert(buf[0] == 1);
            assert(o =~= nop_model());
            lemma_parse_from_offset(buf, 1, 1);
            assert(buf.subrange(1, buf.len() as int) =~= tailbuf);
            assert(parse_options(buf) == seq![nop_model()] + rest);
            assert(seq![o] + rest =~= opts);
        } else {
            // Well-formed options are never End-of-List, and a kind other
            // than No-Operation re-encodes to a byte other than 0 or 1.
            assert(b != 0 && b != 1);
            let length: int = o.length as int;
            assert(encode_one(o).len() == length);
            assert(buf[0] == b && buf[1] == o.length);
            assert(buf.subrange(2, length) =~= o.data);
            let head = OptionModel {
                kind: kind_of_byte(b),
                length: o.length,
                data: buf.subrange(2, length),
            };
            assert(head =~= o);
            lemma_parse_from_offset(buf, length, length);
            assert(buf.subrange(length, buf.len() as int) =~= tailbuf);
            assert(parse_options(buf) == seq![head] + rest);
            assert(seq![o] + rest =~= opts);
        }
    }
}

/// Encoding inverts decoding on buffers the decoder consumes completely:
/// re-encoding the decoded options gives the bytes back.
proof fn lemma_encode_of_parse(bytes: Seq<u8>, pos: int)
    requires
        0 <= pos <= bytes.len(),
        decodes_fully_from(bytes, pos),
    ensures
        encode_options(parse_options_from(bytes, pos)) == bytes.subrange(pos, bytes.len() as int),
    decreases bytes.len() - pos,
{
    let suffix = bytes.subrange(pos, bytes.len() as int);
    if pos == bytes.len() {
        assert(suffix =~= Seq::<u8>::empty());
    } else {
        let kind_byte: u8 = bytes[pos];
        if kind_byte == 1 {
            lemma_encode_of_parse(bytes, pos + 1);
            let tail_opts = parse_options_from(bytes, pos + 1);
            let all = seq![nop_model()] + tail_opts;
            assert(all.drop_first() =~= tail_opts);
            assert(encode_one(nop_model()) == seq![1u8]);
            assert(encode_options(all) == seq![1u8] + bytes.subrange(pos + 1, bytes.len() as int));
            assert(seq![1u8] + bytes.subrange(pos + 1, bytes.len() as int) =~= suffix);
        } else {
            let length: u8 = bytes[pos + 1];
            let head = OptionModel {
                kind: kind_of_byte(kind_byte),
                length,
                data: bytes.subrange(pos + 2, pos + length),
            };
            lemma_encode_of_parse(bytes, pos + length);
            let tail_opts = parse_options_from(bytes, pos + length);
            let all = seq![head] + tail_opts;
            assert(all.drop_first() =~= tail_opts);
            assert(byte_of_kind(kind_of_byte(kind_byte)) == kind_byte);
            assert(head.kind != TcpOptionType::EndOfOptionList && head.kind
                != TcpOptionType::NoOperation);
            assert(encode_one(head) =~= bytes.subrange(pos as int, pos + length));
            assert(encode_options(all) == encode_one(head) + bytes.subrange(
                pos + length,
                bytes.len() as int,
            ));
            assert(bytes.subrange(pos as int, pos + length) + bytes.subrange(
                pos + length,
                bytes.len() as int,
            ) =~= suffix);
        }
    }
}

/// No retained option is a Timestamp option.
proof fn lemma_retained_no_timestamp(opts: Seq<OptionModel>)
    ensures
        forall|i: int|
            0 <= i < retained(opts).len() ==> (#[trigger] retained(opts)[i]).kind
                != TcpOptionType::Timestamp,
    decreases opts.len(),
{
    if opts.len() > 0 {
        lemma_retained_no_timestamp(opts.drop_first());
        let rest = retained(opts.drop_first());
        if opts[0].kind != TcpOptionType::Timestamp {
            let all = seq![opts[0]] + rest;
            assert forall|i: int|
                0 <= i < all.len() implies (#[trigger] all[i]).kind
                != TcpOptionType::Timestamp by {
                if i > 0 {
                    assert(all[i] == rest[i - 1]);
                }
            }
        }
    }
}

/// Retaining keeps well-formedness: every retained option was decoded.
proof fn lemma_retained_wf(opts: Seq<OptionModel>)
    requires
        forall|i: int| 0 <= i < opts.len() ==> wf_option(#[trigger] opts[i]),
    ensures
        forall|i: int| 0 <= i < retained(opts).len() ==> wf_option(#[trigger] retained(opts)[i]),
    decreases opts.len(),
{
    if opts.len() > 0 {
        assert(forall|i: int|
            0 <= i < opts.drop_first().len() ==> #[trigger] opts.drop_first()[i] == opts[i + 1]);
        lemma_retained_wf(opts.drop_first());
        let rest = retained(opts.drop_first());
        if opts[0].kind != TcpOptionType::Timestamp {
            let all = seq![opts[0]] + rest;
            assert forall|i: int| 0 <= i < all.len() implies wf_option(#[trigger] all[i]) by {
                if i > 0 {
                    assert(all[i] == rest[i - 1]);
                }
            }
        }
    }
}

/// On options without a Timestamp option, retaining changes nothing.
proof fn lemma_retained_identity(opts: Seq<OptionModel>)
    requires
        forall|i: int| 0 <= i < opts.len() ==> (#[trigger] opts[i]).kind != TcpOptionType::Timestamp,
    ensures
        retained(opts) == opts,
    decreases opts.len(),
{
    if opts.len() == 0 {
        assert(retained(opts) =~= opts);
    } else {
        assert(forall|i: int|
            0 <= i < opts.drop_first().len() ==> #[trigger] opts.drop_first()[i] == opts[i + 1]);
        lemma_retained_identity(opts.drop_first());
        assert(seq![opts[0]] + opts.drop_first() =~= opts);
    }
}

/// What a stripped buffer decodes to: exactly the non-Timestamp options
/// of the original buffer, in their original order.
pub proof fn lemma_strip_decodes_to_retained(bytes: Seq<u8>)
    ensures
        parse_options(strip_spec(bytes)) == retained(parse_options(bytes)),
{
    let opts = parse_options(bytes);
    lemma_parse_options_wf(bytes, 0);
    lemma_retained_wf(opts);
    let enc = encode_options(retained(opts));
    let padding = Seq::new(pad_len(enc.len()), |i: int| 0u8);
    assert(strip_spec(bytes) == enc + padding);
    lemma_parse_of_encode(retained(opts), padding);
}

/// Stripping removes every Timestamp option: however many Timestamp
/// options a buffer held, decoding the stripped buffer yields none.
pub proof fn lemma_strip_removes_timestamp(bytes: Seq<u8>)
    ensures
        !has_timestamp_option(parse_options(strip_spec(bytes))),
{
    lemma_strip_decodes_to_retained(bytes);
    lemma_retained_no_timestamp(parse_options(bytes));
}

/// Stripping is idempotent: stripping an already-stripped buffer gives
/// the same bytes back.
pub proof fn lemma_strip_idempotent(bytes: Seq<u8>)
    ensures
        strip_spec(strip_spec(bytes)) == strip_spec(bytes),
{
    lemma_strip_decodes_to_retained(bytes);
    let ret = retained(parse_options(bytes));
    lemma_retained_no_timestamp(parse_options(bytes));
    lemma_retained_identity(ret);
}

/// Round-trip fidelity: a buffer that decodes fully and holds no
/// Timestamp option is returned by stripping exactly as it came, re-padded
/// to a four-byte boundary, every option preserved in order and bytes.
pub proof fn lemma_strip_round_trip(bytes: Seq<u8>)
    requires
        decodes_fully(bytes),
        !has_timestamp_option(parse_options(bytes)),
    ensures
        strip_spec(bytes) == pad_to_word(bytes),
{
    let opts = parse_options(bytes);
    assert forall|i: int|
        0 <= i < opts.len() implies (#[trigger] opts[i]).kind != TcpOptionType::Timestamp by {
        assert(!has_timestamp_option(opts));
    }
    lemma_retained_identity(opts);
    lemma_encode_of_parse(bytes, 0);
    assert(bytes.subrange(0, bytes.len() as int) =~= bytes);
}

} // verus!
