use vesc::{
    decode, encode, parse_frame, Command, CommandReply, DecodeError, Decoder, EncodeError,
    FaultCode, Packer, Unpacker, Values, ValuesMask,
};

const SELECTIVE_FRAME: [u8; 28] = [
    2, 23, 50, 0, 2, 161, 138, 0, 0, 0, 0, 0, 4, 0, 0, 3, 221, 1, 119, 255, 255, 170, 43, 0, 20, 45,
    58, 3,
];

fn encoded(command: Command) -> Vec<u8> {
    let mut buf = [0u8; 64];
    let len = encode(command, &mut buf).unwrap();
    buf[..len].to_vec()
}

#[test]
fn encode_get_values() {
    assert_eq!(encoded(Command::GetValues), vec![2, 1, 4, 64, 132, 3]);
}

#[test]
fn encode_set_rpm() {
    assert_eq!(encoded(Command::SetRpm(1500)), vec![2, 5, 8, 0, 0, 5, 220, 247, 41, 3]);
}

#[test]
fn encode_set_current_in_milliamps() {
    assert_eq!(encoded(Command::SetCurrent(-2500)), vec![2, 5, 6, 255, 255, 246, 60, 7, 253, 3]);
}

#[test]
fn encode_set_handbrake_in_milliamps() {
    assert_eq!(encoded(Command::SetHandbrake(3000)), vec![2, 5, 10, 0, 0, 11, 184, 188, 135, 3]);
}

#[test]
fn encode_forward_can_nests_the_inner_payload() {
    let command = Command::ForwardCan(3, Box::new(Command::SetRpm(-1500)));
    assert_eq!(encoded(command), vec![2, 7, 34, 3, 8, 255, 255, 250, 36, 222, 244, 3]);
}

#[test]
fn encode_get_values_selective() {
    let mask = ValuesMask::from_bits_retain(ValuesMask::RPM | ValuesMask::VOLTAGE_IN);
    assert_eq!(encoded(Command::GetValuesSelective(mask)), vec![2, 5, 50, 0, 0, 1, 128, 234, 212, 3]);
}

#[test]
fn encode_into_exact_fit() {
    let mut buf = [0u8; 6];
    assert_eq!(encode(Command::GetValues, &mut buf), Ok(6));
    assert_eq!(buf, [2, 1, 4, 64, 132, 3]);
}

#[test]
fn encode_buffer_too_small_leaves_buffer_alone() {
    let mut buf = [9u8; 9];
    assert_eq!(encode(Command::SetRpm(1500), &mut buf), Err(EncodeError::BufferTooSmall));
    assert_eq!(buf, [9u8; 9]);
}

#[test]
fn encode_then_decode_keeps_unknown_mask_bits_and_reads_no_field() {
    let mask = ValuesMask::from_bits_retain((1 << 22) | (1 << 31));
    let frame = encoded(Command::GetValuesSelective(mask));
    assert_eq!(frame, vec![2, 5, 50, 128, 64, 0, 0, 136, 248, 3]);
    assert_eq!(
        decode(&frame),
        Ok((10, CommandReply::GetValuesSelective(Values::default())))
    );
}

#[test]
fn decode_selective_reply_round_trip() {
    // TEMP_MOSFET_ALL, FAULT_CODE and STATUS set: three temperatures, a fault
    // byte and a status byte, in group order.
    let frame = [2, 13, 50, 0, 36, 128, 0, 4, 1, 21, 252, 216, 252, 202, 7, 198, 108, 3];
    let mut expected = Values::default();
    expected.fault_code = FaultCode::AbsOverCurrent;
    expected.temp_mosfet1 = 277;
    expected.temp_mosfet2 = -808;
    expected.temp_mosfet3 = -822;
    expected.status = 7;
    assert_eq!(decode(&frame), Ok((18, CommandReply::GetValuesSelective(expected))));
}

#[test]
fn decode_ignores_bytes_after_the_frame() {
    let mut input = SELECTIVE_FRAME.to_vec();
    input.extend_from_slice(&[2, 2, 2, 7]);
    let (consumed, _) = decode(&input).unwrap();
    assert_eq!(consumed, 28);
}

#[test]
fn decode_checksum_field_mutation_reports_both_checksums() {
    let mut input = SELECTIVE_FRAME;
    input[25] = 0;
    input[26] = 1;
    assert_eq!(
        decode(&input),
        Err(DecodeError::ChecksumMismatch {
            expected: 1,
            actual: 0x2d3a,
        })
    );
}

#[test]
fn decode_checksum_mismatch_wins_over_end_marker() {
    let mut input = SELECTIVE_FRAME;
    input[25] = 0;
    input[27] = 9;
    assert_eq!(
        decode(&input),
        Err(DecodeError::ChecksumMismatch {
            expected: 0x003a,
            actual: 0x2d3a,
        })
    );
}

#[test]
fn decode_end_marker_checked_when_checksum_matches() {
    let mut input = SELECTIVE_FRAME;
    input[27] = 9;
    assert_eq!(decode(&input), Err(DecodeError::InvalidFrame));
}

#[test]
fn encode_refuses_payload_longer_than_length_byte() {
    // 128 relays add 256 bytes to the payload.
    let mut command = Command::GetValues;
    for _ in 0..128 {
        command = Command::ForwardCan(1, Box::new(command));
    }
    let mut buf = vec![7u8; 1024];
    assert_eq!(encode(command, &mut buf), Err(EncodeError::BufferTooSmall));
    assert!(buf.iter().all(|&b| b == 7));
}

#[test]
fn encode_accepts_payload_of_255_bytes() {
    // 127 relays add 254 bytes to the one-byte payload.
    let mut command = Command::GetValues;
    for _ in 0..127 {
        command = Command::ForwardCan(1, Box::new(command));
    }
    let mut buf = vec![0u8; 1024];
    assert_eq!(encode(command, &mut buf), Ok(260));
    assert_eq!(buf[1], 255);
}

#[test]
fn decode_empty_input_is_incomplete() {
    assert_eq!(decode(&[]), Err(DecodeError::IncompleteData));
}

#[test]
fn decode_known_command_without_reply_layout_is_unknown() {
    assert_eq!(decode(&[2, 1, 8, 0, 0, 3]), Err(DecodeError::UnknownPacket { id: 8 }));
}

#[test]
fn parse_frame_reports_checksum_field_and_payload() {
    let frame = parse_frame(&SELECTIVE_FRAME).unwrap();
    assert_eq!(frame.consumed, 28);
    assert_eq!(frame.payload_len, 23);
    assert_eq!(frame.checksum, 0x2d3a);
    assert_eq!(frame.end, 3);
    assert_eq!(
        frame.accept(0x1234),
        Err(DecodeError::ChecksumMismatch {
            expected: 0x2d3a,
            actual: 0x1234,
        })
    );
    assert_eq!(frame.accept(0x2d3a), Ok((28, frame.reply)));
}

#[test]
fn parse_frame_leaves_checksum_and_end_marker_to_accept() {
    let mut input = SELECTIVE_FRAME;
    input[26] = 0;
    input[27] = 4;
    let frame = parse_frame(&input).unwrap();
    assert_eq!(frame.checksum, 0x2d00);
    assert_eq!(frame.end, 4);
    assert_eq!(frame.accept(0x2d00), Err(DecodeError::InvalidFrame));
}

#[test]
fn fault_code_from_byte() {
    assert_eq!(FaultCode::from(0), FaultCode::NoFault);
    assert_eq!(FaultCode::from(4), FaultCode::AbsOverCurrent);
    assert_eq!(FaultCode::from(29), FaultCode::LvOutputFault);
    assert_eq!(FaultCode::from(30), FaultCode::Unknown);
    assert_eq!(FaultCode::from(255), FaultCode::Unknown);
}

#[test]
fn fault_code_names() {
    assert_eq!(FaultCode::NoFault.as_str(), "FAULT_CODE_NONE");
    assert_eq!(FaultCode::EncoderSinCosBelowMinAmplitude.as_str(), "FAULT_CODE_ENCODER_SINCOS_BELOW_MIN_AMPLITUDE");
    assert_eq!(FaultCode::Unknown.as_str(), "UNKNOWN");
}

#[test]
fn values_mask_bits() {
    let mask = ValuesMask::from_bits_retain(ValuesMask::RPM | (1 << 30));
    assert_eq!(mask.bits(), 128 | (1 << 30));
    assert!(mask.contains(ValuesMask::from_bits_retain(ValuesMask::RPM)));
    assert!(!mask.contains(ValuesMask::from_bits_retain(ValuesMask::STATUS)));
    let both = mask.union(ValuesMask::from_bits_retain(ValuesMask::STATUS));
    assert_eq!(both.bits(), 128 | (1 << 21) | (1 << 30));
    assert_eq!(ValuesMask::all().bits(), 0x3f_ffff);
    assert_eq!(ValuesMask::empty().bits(), 0);
}

#[test]
fn packer_writes_big_endian() {
    let mut buf = [0u8; 11];
    let mut packer = Packer::new(&mut buf);
    packer.pack_u8(0xab).unwrap();
    packer.pack_u16(0x1234).unwrap();
    packer.pack_u32(0xdead_beef).unwrap();
    packer.pack_i32(-2).unwrap();
    assert_eq!(packer.pos, 11);
    assert_eq!(packer.pack_u8(1), Err(EncodeError::BufferTooSmall));
    assert_eq!(packer.pos, 11);
    assert_eq!(buf, [0xab, 0x12, 0x34, 0xde, 0xad, 0xbe, 0xef, 0xff, 0xff, 0xff, 0xfe]);
}

#[test]
fn packer_fails_without_partial_write() {
    let mut buf = [0u8; 3];
    let mut packer = Packer::new(&mut buf);
    assert_eq!(packer.pack_u32(0x0102_0304), Err(EncodeError::BufferTooSmall));
    assert_eq!(packer.pos, 0);
    assert_eq!(buf, [0, 0, 0]);
}

#[test]
fn unpacker_reads_what_packer_wrote() {
    let mut buf = [0u8; 13];
    let mut packer = Packer::new(&mut buf);
    packer.pack_u8(200).unwrap();
    packer.pack_u16(0xfedc).unwrap();
    packer.pack_u16((-300i16) as u16).unwrap();
    packer.pack_u32(4_000_000_000).unwrap();
    packer.pack_i32(-123_456).unwrap();
    let mut unpacker = Unpacker::new(&buf);
    assert_eq!(unpacker.unpack_u8(), Ok(200));
    assert_eq!(unpacker.unpack_u16(), Ok(0xfedc));
    assert_eq!(unpacker.unpack_i16(), Ok(-300));
    assert_eq!(unpacker.unpack_u32(), Ok(4_000_000_000));
    assert_eq!(unpacker.unpack_i32(), Ok(-123_456));
    assert_eq!(unpacker.pos, 13);
}

#[test]
fn unpacker_incomplete_keeps_position() {
    let buf = [1u8, 2, 3];
    let mut unpacker = Unpacker::new(&buf);
    assert_eq!(unpacker.unpack_u16(), Ok(0x0102));
    assert_eq!(unpacker.unpack_i32(), Err(DecodeError::IncompleteData));
    assert_eq!(unpacker.pos, 2);
    assert_eq!(unpacker.unpack_u8(), Ok(3));
    assert_eq!(unpacker.unpack_u8(), Err(DecodeError::IncompleteData));
}

#[test]
fn decoder_any_chunk_size_yields_one_reply_at_the_end() {
    for size in 1..=SELECTIVE_FRAME.len() {
        let mut decoder = Decoder::default();
        let chunks: Vec<&[u8]> = SELECTIVE_FRAME.chunks(size).collect();
        for (i, chunk) in chunks.iter().enumerate() {
            assert_eq!(decoder.feed(chunk), Ok(chunk.len()));
            let reply = decoder.next();
            if i + 1 < chunks.len() {
                assert!(reply.is_none());
            } else {
                assert!(matches!(reply, Some(CommandReply::GetValuesSelective(_))));
            }
        }
        assert!(decoder.next().is_none());
    }
}

#[test]
fn decoder_feed_takes_only_what_fits() {
    let mut decoder = Decoder::with_capacity(10);
    assert_eq!(decoder.feed(&[2, 74, 4, 0, 0, 0]), Ok(6));
    assert_eq!(decoder.feed(&[0, 0, 0, 0, 0, 0]), Ok(4));
    // The pending frame start waits for more bytes than fit.
    assert!(decoder.next().is_none());
    // The full buffer is dropped to make room.
    assert_eq!(decoder.feed(&SELECTIVE_FRAME[..5]), Ok(5));
    assert_eq!(decoder.feed(&SELECTIVE_FRAME[5..]), Ok(5));
    assert!(decoder.next().is_none());
}

#[test]
fn decoder_skipping_frees_room() {
    let mut decoder = Decoder::with_capacity(10);
    assert_eq!(decoder.feed(&[1, 2, 3, 4, 5, 6]), Ok(6));
    assert_eq!(decoder.feed(&[7, 8, 9, 10, 11, 12]), Ok(4));
    // Offset 1 starts a frame that waits for more data; offset 0 is skipped.
    assert!(decoder.next().is_none());
    assert_eq!(decoder.feed(&[2, 3]), Ok(1));
}

#[test]
fn decoder_compacts_before_reading_more() {
    let mut decoder = Decoder::with_capacity(40);
    assert_eq!(decoder.feed(&SELECTIVE_FRAME), Ok(28));
    assert!(decoder.next().is_some());
    assert_eq!(decoder.feed(&SELECTIVE_FRAME), Ok(28));
    assert!(decoder.next().is_some());
    assert!(decoder.next().is_none());
}

#[test]
fn decoder_skips_corrupted_frame_between_frames() {
    let mut input = SELECTIVE_FRAME.to_vec();
    let mut bad = SELECTIVE_FRAME;
    bad[26] ^= 0xff;
    input.extend_from_slice(&bad);
    input.extend_from_slice(&SELECTIVE_FRAME);
    let mut decoder = Decoder::default();
    decoder.feed(&input).unwrap();
    assert_eq!(decoder.collect_replies().len(), 2);
}

#[test]
fn defaults_are_zero() {
    assert_eq!(FaultCode::default(), FaultCode::NoFault);
    let v = Values::default();
    assert_eq!(v.rpm, 0);
    assert_eq!(v.fault_code, FaultCode::NoFault);
    assert_eq!(v.status, 0);
}
