//! Decoding and re-encoding of the TCP options byte buffer.
//!
//! The decoder scans the buffer left to right into a sequence of parsed
//! options, stopping (without failing) at an End-of-List byte or at the
//! first structural malformation. The re-encoder rebuilds a buffer from
//! that sequence with every Timestamp option removed, padded with zero
//! bytes to a four-byte boundary.

use vstd::prelude::*;

use crate::option_kind::{byte_of_kind, kind_of_byte, TcpOptionType};

verus! {

/// One decoded TCP option: its kind, the TLV length byte as it appeared
/// on the wire (recorded as 1 for the two kinds that carry no length
/// byte), and the raw payload bytes.
#[derive(Debug, Clone)]
pub struct TcpOption {
    pub kind: TcpOptionType,
    pub length: u8,
    pub data: Vec<u8>,
}

/// The mathematical value of a decoded option.
#[verifier::ext_equal]
pub ghost struct OptionModel {
    pub kind: TcpOptionType,
    pub length: u8,
    pub data: Seq<u8>,
}

impl View for TcpOption {
    type V = OptionModel;

    open spec fn view(&self) -> OptionModel {
        OptionModel { kind: self.kind, length: self.length, data: self.data@ }
    }
}

/// The models of a sequence of decoded options.
pub open spec fn opts_view(s: Seq<TcpOption>) -> Seq<OptionModel> {
    s.map_values(|o: TcpOption| o@)
}

/// The model of a No-Operation option: one byte on the wire, length
/// recorded as 1, no payload.
pub open spec fn nop_model() -> OptionModel {
    OptionModel { kind: TcpOptionType::NoOperation, length: 1, data: Seq::empty() }
}

/// The options decoded from `bytes` starting at `pos`: the scan stops at
/// the end of the buffer, at an End-of-List byte, or at the first
/// malformed option (truncated header, length byte under 2, or an option
/// overrunning the buffer), and keeps everything decoded before that.
pub open spec fn parse_options_from(bytes: Seq<u8>, pos: int) -> Seq<OptionModel>
    recommends
        0 <= pos,
    decreases bytes.len() - pos,
{
    if pos < 0 || pos >= bytes.len() {
        Seq::empty()
    } else {
        let kind_byte: u8 = bytes[pos];
        if kind_byte == 0 {
            Seq::empty()
        } else if kind_byte == 1 {
            seq![nop_model()] + parse_options_from(bytes, pos + 1)
        } else if pos + 2 > bytes.len() {
            Seq::empty()
        } else {
            let length: u8 = bytes[pos + 1];
            if length < 2 {
                Seq::empty()
            } else if pos + length > bytes.len() {
                Seq::empty()
            } else {
                let head = OptionModel {
                    kind: kind_of_byte(kind_byte),
                    length,
                    data: bytes.subrange(pos + 2, pos + length),
                };
                seq![head] + parse_options_from(bytes, pos + length)
            }
        }
    }
}

/// The options decoded from a whole buffer.
pub open spec fn parse_options(bytes: Seq<u8>) -> Seq<OptionModel> {
    parse_options_from(bytes, 0)
}

/// Well-formedness of a decoded option: the decoder never emits an
/// End-of-List option, only emits kinds that re-encode to the byte they
/// were decoded from, and keeps the wire invariant between the length
/// byte and the payload.
pub open spec fn wf_option(o: OptionModel) -> bool {
    &&& o.kind != TcpOptionType::EndOfOptionList
    &&& kind_of_byte(byte_of_kind(o.kind)) == o.kind
    &&& if o.kind == TcpOptionType::NoOperation {
        o.length == 1 && o.data.len() == 0
    } else {
        o.length >= 2 && o.data.len() == o.length - 2
    }
}

/// Every option the decoder produces is well-formed.
pub proof fn lemma_parse_options_wf(bytes: Seq<u8>, pos: int)
    ensures
        forall|i: int|
            0 <= i < parse_options_from(bytes, pos).len() ==> wf_option(
                #[trigger] parse_options_from(bytes, pos)[i],
            ),
    decreases bytes.len() - pos,
{
    if 0 <= pos < bytes.len() {
        let kind_byte: u8 = bytes[pos];
        let all = parse_options_from(bytes, pos);
        if kind_byte == 1 {
            lemma_parse_options_wf(bytes, pos + 1);
            let tail = parse_options_from(bytes, pos + 1);
            assert(wf_option(nop_model()));
            assert forall|i: int| 0 <= i < all.len() implies wf_option(all[i]) by {
                if i > 0 {
                    assert(all[i] == tail[i - 1]);
                }
            }
        } else if kind_byte != 0 && pos + 2 <= bytes.len() {
            let length: u8 = bytes[pos + 1];
            if length >= 2 && pos + length <= bytes.len() {
                lemma_parse_options_wf(bytes, pos + length);
                let tail = parse_options_from(bytes, pos + length);
                let head = OptionModel {
                    kind: kind_of_byte(kind_byte),
                    length,
                    data: bytes.subrange(pos + 2, pos + length),
                };
                assert(wf_option(head));
                assert forall|i: int| 0 <= i < all.len() implies wf_option(all[i]) by {
                    if i > 0 {
                        assert(all[i] == tail[i - 1]);
                    }
                }
            }
        }
    }
}

/// Decode the raw TCP options bytes of one segment into an ordered
/// sequence of parsed options.
///
/// Total over every input buffer: malformed input stops the scan early
/// and returns whatever was decoded before the malformation, never an
/// error. An End-of-List byte stops the scan; the bytes after it are
/// ignored.
pub fn parse_tcp_options(options_data: &[u8]) -> (options: Vec<TcpOption>)
    ensures
        opts_view(options@) == parse_options(options_data@),
{
    let mut options: Vec<TcpOption> = Vec::new();
    let mut pos: usize = 0;

    proof {
        assert(opts_view(options@) + parse_options_from(options_data@, 0) =~= parse_options(
            options_data@,
        ));
    }
    while pos < options_data.len()
        invariant
            pos <= options_data@.len(),
            opts_view(options@) + parse_options_from(options_data@, pos as int) == parse_options(
                options_data@,
            ),
        ensures
            opts_view(options@) == parse_options(options_data@),
        decreases options_data@.len() - pos,
    {
        let kind_byte: u8 = options_data[pos];
        let kind = TcpOptionType::from(kind_byte);

        match kind {
            TcpOptionType::EndOfOptionList => {
                proof {
                    assert(parse_options_from(options_data@, pos as int) =~= Seq::empty());
                    assert(opts_view(options@) + Seq::<OptionModel>::empty() =~= opts_view(
                        options@,
                    ));
                }
                break ;
            },
            TcpOptionType::NoOperation => {
                let ghost pre = options@;
                options.push(TcpOption { kind, length: 1, data: Vec::new() });
                proof {
                    assert(opts_view(options@) =~= opts_view(pre) + seq![nop_model()]);
                    assert(opts_view(options@) + parse_options_from(options_data@, pos + 1)
                        =~= opts_view(pre) + parse_options_from(options_data@, pos as int));
                }
                pos = pos + 1;
            },
            _ => {
                if pos + 1 >= options_data.len() {
                    // Truncated option: the kind byte is there but no length byte.
                    proof {
                        assert(parse_options_from(options_data@, pos as int) =~= Seq::empty());
                        assert(opts_view(options@) + Seq::<OptionModel>::empty() =~= opts_view(
                            options@,
                        ));
                    }
                    break ;
                }
                let length: u8 = options_data[pos + 1];
                if length < 2 {
                    // A length byte under 2 cannot cover its own TLV header.
                    proof {
                        assert(parse_options_from(options_data@, pos as int) =~= Seq::empty());
                        assert(opts_view(options@) + Seq::<OptionModel>::empty() =~= opts_view(
                            options@,
                        ));
                    }
                    break ;
                }
                let length_us: usize = length as usize;
                if length_us > options_data.len() - pos {
                    // The option claims more bytes than the buffer holds.
                    proof {
                        assert(parse_options_from(options_data@, pos as int) =~= Seq::empty());
                        assert(opts_view(options@) + Seq::<OptionModel>::empty() =~= opts_view(
                            options@,
                        ));
                    }
                    break ;
                }
                let data = vstd::slice::slice_to_vec(
                    vstd::slice::slice_subrange(options_data, pos + 2, pos + length_us),
                );
                let ghost pre = options@;
                options.push(TcpOption { kind, length, data });
                proof {
                    let head = OptionModel {
                        kind: kind_of_byte(kind_byte),
                        length,
                        data: options_data@.subrange(pos + 2, pos + length as int),
                    };
                    assert(opts_view(options@) =~= opts_view(pre) + seq![head]);
                    assert(opts_view(options@) + parse_options_from(
                        options_data@,
                        pos + length as int,
                    ) =~= opts_view(pre) + parse_options_from(options_data@, pos as int));
                }
                pos = pos + length_us;
            },
        }
    }
    options
}

/// The wire bytes of one retained option: a single kind byte for the two
/// padding kinds, otherwise the kind byte, the recorded length byte, and
/// the payload verbatim.
pub open spec fn encode_one(o: OptionModel) -> Seq<u8> {
    if o.kind == TcpOptionType::EndOfOptionList || o.kind == TcpOptionType::NoOperation {
        seq![byte_of_kind(o.kind)]
    } else {
        seq![byte_of_kind(o.kind), o.length] + o.data
    }
}

/// The wire bytes of a sequence of options, in order.
pub open spec fn encode_options(opts: Seq<OptionModel>) -> Seq<u8>
    decreases opts.len(),
{
    if opts.len() == 0 {
        Seq::empty()
    } else {
        encode_one(opts[0]) + encode_options(opts.drop_first())
    }
}

/// The subsequence of options that survive stripping: everything except
/// the Timestamp options, in original order.
pub open spec fn retained(opts: Seq<OptionModel>) -> Seq<OptionModel>
    decreases opts.len(),
{
    if opts.len() == 0 {
        Seq::empty()
    } else if opts[0].kind == TcpOptionType::Timestamp {
        retained(opts.drop_first())
    } else {
        seq![opts[0]] + retained(opts.drop_first())
    }
}

/// How many zero bytes bring a buffer of length `n` to a multiple of 4.
pub open spec fn pad_len(n: nat) -> nat {
    (((4 - n % 4) % 4) as nat)
}

/// A buffer padded with zero bytes (End-of-List) to a four-byte boundary.
pub open spec fn pad_to_word(s: Seq<u8>) -> Seq<u8> {
    s + Seq::new(pad_len(s.len()), |i: int| 0u8)
}

/// What stripping a buffer returns: decode it, drop every Timestamp
/// option, re-encode the rest in order, and pad to a four-byte boundary.
pub open spec fn strip_spec(bytes: Seq<u8>) -> Seq<u8> {
    pad_to_word(encode_options(retained(parse_options(bytes))))
}

/// Whether the decoder starting at `pos` consumes every remaining byte:
/// no End-of-List byte and no malformation stops the scan before the end
/// of the buffer. The decoded options of such a buffer re-encode to the
/// buffer itself.
pub open spec fn decodes_fully_from(bytes: Seq<u8>, pos: int) -> bool
    recommends
        0 <= pos,
    decreases bytes.len() - pos,
{
    if pos < 0 || pos >= bytes.len() {
        pos == bytes.len()
    } else {
        let kind_byte: u8 = bytes[pos];
        if kind_byte == 0 {
            false
        } else if kind_byte == 1 {
            decodes_fully_from(bytes, pos + 1)
        } else if pos + 2 > bytes.len() {
            false
        } else {
            let length: u8 = bytes[pos + 1];
            if length < 2 {
                false
            } else if pos + length > bytes.len() {
                false
            } else {
                decodes_fully_from(bytes, pos + length)
            }
        }
    }
}

/// Whether the decoder consumes a whole buffer: every byte belongs to
/// some well-formed option and no End-of-List byte appears.
pub open spec fn decodes_fully(bytes: Seq<u8>) -> bool {
    decodes_fully_from(bytes, 0)
}

/// Appending an option encodes after the options before it.
pub proof fn lemma_encode_options_snoc(opts: Seq<OptionModel>, o: OptionModel)
    ensures
        encode_options(opts.push(o)) == encode_options(opts) + encode_one(o),
    decreases opts.len(),
{
    if opts.len() == 0 {
        assert(opts.push(o)[0] == o);
        assert(opts.push(o).drop_first() =~= Seq::<OptionModel>::empty());
        assert(encode_options(Seq::<OptionModel>::empty()) == Seq::<u8>::empty());
        assert(encode_options(opts.push(o)) == encode_one(o) + Seq::<u8>::empty());
        assert(encode_one(o) + Seq::<u8>::empty() =~= Seq::<u8>::empty() + encode_one(o));
    } else {
        assert(opts.push(o)[0] == opts[0]);
        assert(opts.push(o).drop_first() =~= opts.drop_first().push(o));
        lemma_encode_options_snoc(opts.drop_first(), o);
        assert(encode_options(opts.push(o)) == encode_one(opts[0]) + (encode_options(
            opts.drop_first(),
        ) + encode_one(o)));
        assert((encode_one(opts[0]) + encode_options(opts.drop_first())) + encode_one(o)
            =~= encode_one(opts[0]) + (encode_options(opts.drop_first()) + encode_one(o)));
    }
}

/// Appending an option either extends the retained options by it or, for
/// a Timestamp option, leaves them unchanged.
pub proof fn lemma_retained_snoc(opts: Seq<OptionModel>, o: OptionModel)
    ensures
        retained(opts.push(o)) == if o.kind == TcpOptionType::Timestamp {
            retained(opts)
        } else {
            retained(opts).push(o)
        },
    decreases opts.len(),
{
    if opts.len() == 0 {
        assert(opts.push(o)[0] == o);
        assert(opts.push(o).drop_first() =~= Seq::<OptionModel>::empty());
        assert(retained(Seq::<OptionModel>::empty()) == Seq::<OptionModel>::empty());
        if o.kind != TcpOptionType::Timestamp {
            assert(seq![o] + Seq::<OptionModel>::empty() =~= Seq::<OptionModel>::empty().push(o));
        }
    } else {
        assert(opts.push(o)[0] == opts[0]);
        assert(opts.push(o).drop_first() =~= opts.drop_first().push(o));
        lemma_retained_snoc(opts.drop_first(), o);
        if opts[0].kind != TcpOptionType::Timestamp && o.kind != TcpOptionType::Timestamp {
            assert(seq![opts[0]] + retained(opts.drop_first()).push(o) =~= (seq![opts[0]]
                + retained(opts.drop_first())).push(o));
        }
    }
}

/// Rebuild a TCP options buffer with every Timestamp option removed.
///
/// Decodes the buffer, re-encodes every decoded option that is not a
/// Timestamp option in original order and with its original length byte
/// and payload verbatim, and appends zero bytes until the result length
/// is a multiple of 4. Total over every input buffer.
pub fn strip_timestamp_option(original_options: &[u8]) -> (result: Vec<u8>)
    ensures
        result@ == strip_spec(original_options@),
        result@.len() % 4 == 0,
{
    let options = parse_tcp_options(original_options);
    let ghost models = opts_view(options@);
    let mut result: Vec<u8> = Vec::new();

    proof {
        assert(models.take(0) =~= Seq::empty());
        assert(result@ =~= encode_options(retained(models.take(0))));
    }
    for i in 0..options.len()
        invariant
            models == opts_view(options@),
            models == parse_options(original_options@),
            result@ == encode_options(retained(models.take(i as int))),
    {
        let option = &options[i];
        proof {
            assert(models.take(i + 1) =~= models.take(i as int).push(models[i as int]));
            lemma_retained_snoc(models.take(i as int), models[i as int]);
        }
        if !matches!(option.kind, TcpOptionType::Timestamp) {
            proof {
                lemma_encode_options_snoc(retained(models.take(i as int)), models[i as int]);
            }
            let kind_byte = option.kind.wire_byte();
            result.push(kind_byte);
            match option.kind {
                TcpOptionType::EndOfOptionList | TcpOptionType::NoOperation => {
                    // One-byte kinds carry no length byte and no payload.
                    proof {
                        assert(result@ =~= encode_options(retained(models.take(i as int)))
                            + encode_one(models[i as int]));
                    }
                },
                _ => {
                    result.push(option.length);
                    let mut j: usize = 0;
                    while j < option.data.len()
                        invariant
                            j <= option.data@.len(),
                            result@ == encode_options(retained(models.take(i as int))) + seq![
                                byte_of_kind(models[i as int].kind),
                                models[i as int].length,
                            ] + models[i as int].data.take(j as int),
                            models[i as int] == option@,
                        decreases option.data@.len() - j,
                    {
                        let b: u8 = option.data[j];
                        result.push(b);
                        proof {
                            assert(models[i as int].data.take(j + 1) =~= models[i as int].data.take(
                                j as int,
                            ).push(b));
                        }
                        j = j + 1;
                    }
                    proof {
                        assert(models[i as int].data.take(option.data@.len() as int)
                            =~= models[i as int].data);
                        assert(result@ =~= encode_options(retained(models.take(i as int)))
                            + encode_one(models[i as int]));
                    }
                },
            }
        }
        proof {
            assert(result@ =~= encode_options(retained(models.take(i + 1))));
        }
    }
    proof {
        assert(models.take(options@.len() as int) =~= models);
    }

    // Pad with zero bytes (End-of-List) to the TCP header's four-byte
    // word alignment.
    let ghost encoded = encode_options(retained(models));
    let rem: usize = result.len() % 4;
    if rem != 0 {
        let pad: usize = 4 - rem;
        for k in 0..pad
            invariant
                encoded == encode_options(retained(parse_options(original_options@))),
                result@ == encoded + Seq::new(k as nat, |i: int| 0u8),
                pad == pad_len(encoded.len()),
        {
            result.push(0);
            proof {
                assert(result@ =~= encoded + Seq::new((k + 1) as nat, |i: int| 0u8));
            }
        }
    }
    proof {
        assert(result@ =~= pad_to_word(encoded));
        assert((encoded.len() + pad_len(encoded.len())) % 4 == 0);
    }
    result
}

} // verus!
