use tcp_tsopt::{parse_tcp_options, strip_timestamp_option, TcpOption, TcpOptionType};

#[test]
fn test_timestamp_option_parsing() {
    // Create a timestamp option: Kind=8, Length=10, TSval=0x12345678, TSecr=0x87654321
    let option_data = vec![
        8, 10, // Kind and Length
        0x12, 0x34, 0x56, 0x78, // TSval
        0x87, 0x65, 0x43, 0x21, // TSecr
    ];

    let options = parse_tcp_options(&option_data);
    assert_eq!(options.len(), 1);
    assert_eq!(options[0].kind, TcpOptionType::Timestamp);

    let timestamp = tcp_tsopt::extract_timestamp(&options[0]).unwrap();
    assert_eq!(timestamp.ts_val, 0x12345678);
    assert_eq!(timestamp.ts_ecr, 0x87654321);
}

#[test]
fn test_timestamp_stripping() {
    // Original options with timestamp
    let original = vec![
        2, 4, 0x05, 0xb4, // MSS option
        8, 10, 0x12, 0x34, 0x56, 0x78, 0x87, 0x65, 0x43, 0x21, // Timestamp
        1, // NOP
        0, // End of options
    ];

    let stripped = strip_timestamp_option(&original);

    // Should contain MSS and NOP, but no timestamp
    let options = parse_tcp_options(&stripped);
    assert_eq!(options.len(), 2);
    assert_eq!(options[0].kind, TcpOptionType::MaximumSegmentSize);
    assert_eq!(options[1].kind, TcpOptionType::NoOperation);
}

#[test]
fn test_decode_empty_buffer() {
    let options = parse_tcp_options(&[]);
    assert!(options.is_empty());
}

#[test]
fn test_decode_stops_at_end_of_list() {
    // End-of-List terminates the scan; the bytes after it are ignored.
    let data = vec![1, 0, 2, 4, 0x05, 0xb4];
    let options = parse_tcp_options(&data);
    assert_eq!(options.len(), 1);
    assert_eq!(options[0].kind, TcpOptionType::NoOperation);
    assert_eq!(options[0].length, 1);
    assert!(options[0].data.is_empty());
}

#[test]
fn test_decode_truncated_header() {
    // MSS parses; the lone trailing kind byte has no length byte.
    let data = vec![2, 4, 0x05, 0xb4, 3];
    let options = parse_tcp_options(&data);
    assert_eq!(options.len(), 1);
    assert_eq!(options[0].kind, TcpOptionType::MaximumSegmentSize);
    assert_eq!(options[0].data, vec![0x05, 0xb4]);
}

#[test]
fn test_decode_invalid_length() {
    // A length byte under 2 stops the scan.
    let data = vec![1, 3, 1, 1];
    let options = parse_tcp_options(&data);
    assert_eq!(options.len(), 1);
    assert_eq!(options[0].kind, TcpOptionType::NoOperation);
}

#[test]
fn test_decode_option_overruns_buffer() {
    // The option claims 10 bytes but only 4 remain.
    let data = vec![1, 8, 10, 0x12];
    let options = parse_tcp_options(&data);
    assert_eq!(options.len(), 1);
    assert_eq!(options[0].kind, TcpOptionType::NoOperation);
}

#[test]
fn test_decode_totality_over_short_buffers() {
    // The decoder returns a value for arbitrary buffers of length 0..=40.
    for len in 0..=40usize {
        let all_ff = vec![0xFFu8; len];
        let _ = parse_tcp_options(&all_ff);
        let all_zero = vec![0u8; len];
        assert!(parse_tcp_options(&all_zero).is_empty());
        let ramp: Vec<u8> = (0..len as u8).collect();
        let _ = parse_tcp_options(&ramp);
    }
}

#[test]
fn test_decode_unknown_kind_preserved() {
    let data = vec![0xFD, 4, 0xAA, 0xBB];
    let options = parse_tcp_options(&data);
    assert_eq!(options.len(), 1);
    assert_eq!(options[0].kind, TcpOptionType::Unknown(0xFD));
    assert_eq!(options[0].length, 4);
    assert_eq!(options[0].data, vec![0xAA, 0xBB]);
}

#[test]
fn test_strip_removes_every_timestamp() {
    // Two Timestamp options, both must be gone after stripping.
    let data = vec![
        8, 10, 1, 2, 3, 4, 5, 6, 7, 8, // Timestamp
        2, 4, 0x05, 0xb4, // MSS
        8, 10, 9, 9, 9, 9, 9, 9, 9, 9, // Timestamp again
    ];
    let stripped = strip_timestamp_option(&data);
    let options = parse_tcp_options(&stripped);
    assert!(options
        .iter()
        .all(|o| !matches!(o.kind, TcpOptionType::Timestamp)));
    assert_eq!(options.len(), 1);
    assert_eq!(options[0].kind, TcpOptionType::MaximumSegmentSize);
}

#[test]
fn test_strip_output_word_aligned() {
    // The output length is a multiple of 4 for well-formed and malformed input alike.
    let buffers: Vec<Vec<u8>> = vec![
        vec![],
        vec![8],
        vec![2, 1],
        vec![2, 10],
        vec![1],
        vec![1, 1, 1],
        vec![2, 4, 0x05, 0xb4],
        vec![8, 10, 1, 2, 3, 4, 5, 6, 7, 8],
        vec![0xFD, 3, 0x42],
        vec![0xFF; 40],
    ];
    for buf in buffers {
        let stripped = strip_timestamp_option(&buf);
        assert_eq!(stripped.len() % 4, 0, "input {:?}", buf);
    }
}

#[test]
fn test_strip_round_trip_no_timestamp() {
    // A fully-decodable buffer without a Timestamp option comes back
    // unchanged once it is already word-aligned.
    let aligned = vec![2, 4, 0x05, 0xb4, 1, 1, 3, 3, 7, 0xFD, 3, 0x42];
    assert_eq!(strip_timestamp_option(&aligned), aligned);

    // An unaligned buffer comes back re-padded with zero bytes.
    let unaligned = vec![1, 1, 2, 4, 0x05, 0xb4];
    let mut expected = unaligned.clone();
    expected.extend_from_slice(&[0, 0]);
    assert_eq!(strip_timestamp_option(&unaligned), expected);
}

#[test]
fn test_strip_idempotent() {
    let buffers: Vec<Vec<u8>> = vec![
        vec![2, 4, 0x05, 0xb4, 8, 10, 1, 2, 3, 4, 5, 6, 7, 8, 1, 0],
        vec![1, 1, 2, 4, 0x05, 0xb4],
        vec![8, 10, 1, 2, 3, 4, 5, 6, 7, 8],
        vec![2, 3, 0xAB],
        vec![],
    ];
    for buf in buffers {
        let once = strip_timestamp_option(&buf);
        let twice = strip_timestamp_option(&once);
        assert_eq!(twice, once, "input {:?}", buf);
    }
}

#[test]
fn test_strip_scenario_with_trailing_end_of_list() {
    let original = vec![
        2, 4, 0x05, 0xb4, // MSS
        8, 10, 0x12, 0x34, 0x56, 0x78, 0x87, 0x65, 0x43, 0x21, // Timestamp
        1, // NOP
        0, // End of options
    ];
    let stripped = strip_timestamp_option(&original);
    assert_eq!(stripped.len() % 4, 0);
    let options = parse_tcp_options(&stripped);
    assert_eq!(options.len(), 2);
    assert_eq!(options[0].kind, TcpOptionType::MaximumSegmentSize);
    assert_eq!(options[1].kind, TcpOptionType::NoOperation);
}

#[test]
fn test_strip_keeps_unknown_code_byte_exactly() {
    // An unrecognized option re-encodes with its exact code byte and payload.
    let data = vec![8, 10, 1, 2, 3, 4, 5, 6, 7, 8, 0xFE, 4, 0xDE, 0xAD];
    let stripped = strip_timestamp_option(&data);
    assert_eq!(stripped, vec![0xFE, 4, 0xDE, 0xAD]);
}

#[test]
fn test_option_kind_from_byte() {
    assert_eq!(TcpOptionType::from(0), TcpOptionType::EndOfOptionList);
    assert_eq!(TcpOptionType::from(1), TcpOptionType::NoOperation);
    assert_eq!(TcpOptionType::from(2), TcpOptionType::MaximumSegmentSize);
    assert_eq!(TcpOptionType::from(3), TcpOptionType::WindowScale);
    assert_eq!(TcpOptionType::from(4), TcpOptionType::SackPermitted);
    assert_eq!(TcpOptionType::from(5), TcpOptionType::Sack);
    assert_eq!(TcpOptionType::from(8), TcpOptionType::Timestamp);
    assert_eq!(TcpOptionType::from(6), TcpOptionType::Unknown(6));
    assert_eq!(TcpOptionType::from(0xFF), TcpOptionType::Unknown(0xFF));
}

#[test]
fn test_zero_length_payload_option() {
    // A length byte of exactly 2 means an option with an empty payload.
    let data = vec![4, 2, 1, 1];
    let options = parse_tcp_options(&data);
    assert_eq!(options.len(), 3);
    assert_eq!(options[0].kind, TcpOptionType::SackPermitted);
    assert_eq!(options[0].length, 2);
    assert!(options[0].data.is_empty());
    assert_eq!(options[1].kind, TcpOptionType::NoOperation);
    assert_eq!(options[2].kind, TcpOptionType::NoOperation);
}

#[test]
fn test_reencode_trusts_recorded_length() {
    // Re-encoding emits the decoded option's recorded length byte and
    // payload verbatim.
    let option = TcpOption {
        kind: TcpOptionType::WindowScale,
        length: 3,
        data: vec![7],
    };
    assert_eq!(option.length as usize, 2 + option.data.len());
    let buf = vec![3, 3, 7, 1];
    let stripped = strip_timestamp_option(&buf);
    assert_eq!(stripped, buf);
}
