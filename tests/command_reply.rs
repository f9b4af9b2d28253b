use vesc::{decode, CommandReply, DecodeError, FaultCode};

/// Checks a fixed-point field against the reading it stands for.
fn assert_scaled(raw: impl Into<f64>, scale: f64, expected: f64) {
    let actual = raw.into() / scale;
    assert!(
        (actual - expected).abs() <= 1e-5 * expected.abs().max(1.0),
        "{} != {}",
        actual,
        expected
    );
}

#[test]
fn decode_get_values_zero_rpm() {
    let input: [u8; 79] = [
        2, 74, 4, 1, 20, 0, 0, 0, 0, 0, 0, 0, 0, 0, 0, 0, 0, 0, 0, 0, 0, 0, 0, 0, 0, 0, 0, 0, 0, 1,
        119, 0, 0, 0, 9, 0, 0, 0, 0, 0, 0, 1, 116, 0, 0, 0, 0, 255, 255, 131, 64, 0, 2, 168, 254,
        0, 18, 6, 65, 224, 20, 1, 21, 252, 216, 252, 202, 0, 0, 0, 8, 0, 0, 0, 12, 0, 218, 113, 3,
    ];
    let (consumed, reply) = decode(&input).unwrap();
    assert_eq!(consumed, 79);
    let CommandReply::GetValues(values) = reply else {
        panic!("unexpected reply {:?}", reply);
    };
    assert_scaled(values.temp_mosfet, 10.0, 27.6);
    assert_scaled(values.temp_motor, 10.0, 0.0);
    assert_scaled(values.avg_current_motor, 100.0, 0.0);
    assert_scaled(values.avg_current_input, 100.0, 0.0);
    assert_scaled(values.avg_current_d, 100.0, 0.0);
    assert_scaled(values.avg_current_q, 100.0, 0.0);
    assert_scaled(values.duty_cycle, 1000.0, 0.0);
    assert_scaled(values.rpm, 1.0, 0.0);
    assert_scaled(values.voltage_in, 10.0, 37.5);
    assert_scaled(values.amp_hours, 10000.0, 0.0009);
    assert_scaled(values.amp_hours_charged, 10000.0, 0.0);
    assert_scaled(values.watt_hours, 10000.0, 0.0372);
    assert_scaled(values.watt_hours_charged, 10000.0, 0.0);
    assert_eq!(values.tachometer, -31936);
    assert_eq!(values.tachometer_abs, 174334);
    assert_eq!(values.fault_code, FaultCode::NoFault);
    assert_scaled(values.pid_pos, 1000000.0, 302.39996);
    assert_eq!(values.controller_id, 20);
    assert_scaled(values.temp_mosfet1, 10.0, 27.7);
    assert_scaled(values.temp_mosfet2, 10.0, -80.8);
    assert_scaled(values.temp_mosfet3, 10.0, -82.2);
    assert_scaled(values.avg_voltage_d, 1000.0, 0.008);
    assert_scaled(values.avg_voltage_q, 1000.0, 0.012);
    assert_eq!(values.status, 0);
}

#[test]
fn decode_get_values_forward_rpm() {
    let input: [u8; 79] = [
        2, 74, 4, 1, 20, 0, 0, 0, 0, 0, 37, 0, 0, 0, 3, 0, 0, 0, 0, 0, 0, 0, 32, 0, 110, 0, 0, 3,
        251, 1, 125, 0, 0, 0, 17, 0, 0, 0, 0, 0, 0, 2, 137, 0, 0, 0, 0, 255, 255, 111, 75, 0, 2,
        159, 199, 0, 4, 106, 124, 40, 1, 1, 21, 252, 76, 252, 13, 0, 0, 0, 229, 0, 0, 8, 214, 0,
        58, 151, 3,
    ];
    let (consumed, reply) = decode(&input).unwrap();
    assert_eq!(consumed, 79);
    let CommandReply::GetValues(values) = reply else {
        panic!("unexpected reply {:?}", reply);
    };
    assert_scaled(values.temp_mosfet, 10.0, 27.6);
    assert_scaled(values.temp_motor, 10.0, 0.0);
    assert_scaled(values.avg_current_motor, 100.0, 0.37);
    assert_scaled(values.avg_current_input, 100.0, 0.03);
    assert_scaled(values.avg_current_d, 100.0, 0.0);
    assert_scaled(values.avg_current_q, 100.0, 0.32);
    assert_scaled(values.duty_cycle, 1000.0, 0.11);
    assert_scaled(values.rpm, 1.0, 1019.0);
    assert_scaled(values.voltage_in, 10.0, 38.1);
    assert_scaled(values.amp_hours, 10000.0, 0.0017);
    assert_scaled(values.amp_hours_charged, 10000.0, 0.0);
    assert_scaled(values.watt_hours, 10000.0, 0.0649);
    assert_scaled(values.watt_hours_charged, 10000.0, 0.0);
    assert_eq!(values.tachometer, -37045);
    assert_eq!(values.tachometer_abs, 171975);
    assert_eq!(values.fault_code, FaultCode::NoFault);
    assert_scaled(values.pid_pos, 1000000.0, 74.08746);
    assert_eq!(values.controller_id, 1);
    assert_scaled(values.temp_mosfet1, 10.0, 27.7);
    assert_scaled(values.temp_mosfet2, 10.0, -94.8);
    assert_scaled(values.temp_mosfet3, 10.0, -101.1);
    assert_scaled(values.avg_voltage_d, 1000.0, 0.229);
    assert_scaled(values.avg_voltage_q, 1000.0, 2.262);
    assert_eq!(values.status, 0);
}

#[test]
fn decode_get_values_reverse_rpm() {
    let input: [u8; 79] = [
        2, 74, 4, 1, 13, 0, 0, 0, 0, 0, 92, 0, 0, 0, 12, 0, 0, 0, 0, 255, 255, 255, 169, 255, 19,
        255, 255, 247, 94, 1, 117, 0, 0, 0, 7, 0, 0, 0, 0, 0, 0, 1, 18, 0, 0, 0, 0, 255, 255, 145,
        186, 0, 2, 11, 64, 0, 13, 228, 230, 240, 20, 1, 13, 252, 115, 252, 76, 0, 0, 0, 230, 255,
        255, 240, 129, 0, 12, 51, 3,
    ];
    let (consumed, reply) = decode(&input).unwrap();
    assert_eq!(consumed, 79);
    let CommandReply::GetValues(values) = reply else {
        panic!("unexpected reply {:?}", reply);
    };
    assert_scaled(values.temp_mosfet, 10.0, 26.9);
    assert_scaled(values.temp_motor, 10.0, 0.0);
    assert_scaled(values.avg_current_motor, 100.0, 0.92);
    assert_scaled(values.avg_current_input, 100.0, 0.12);
    assert_scaled(values.avg_current_d, 100.0, 0.0);
    assert_scaled(values.avg_current_q, 100.0, -0.87);
    assert_scaled(values.duty_cycle, 1000.0, -0.237);
    assert_scaled(values.rpm, 1.0, -2210.0);
    assert_scaled(values.voltage_in, 10.0, 37.3);
    assert_scaled(values.amp_hours, 10000.0, 0.0007);
    assert_scaled(values.amp_hours_charged, 10000.0, 0.0);
    assert_scaled(values.watt_hours, 10000.0, 0.0274);
    assert_scaled(values.watt_hours_charged, 10000.0, 0.0);
    assert_eq!(values.tachometer, -28230);
    assert_eq!(values.tachometer_abs, 133952);
    assert_eq!(values.fault_code, FaultCode::NoFault);
    assert_scaled(values.pid_pos, 1000000.0, 233.10513);
    assert_eq!(values.controller_id, 20);
    assert_scaled(values.temp_mosfet1, 10.0, 26.9);
    assert_scaled(values.temp_mosfet2, 10.0, -90.9);
    assert_scaled(values.temp_mosfet3, 10.0, -94.8);
    assert_scaled(values.avg_voltage_d, 1000.0, 0.23);
    assert_scaled(values.avg_voltage_q, 1000.0, -3.967);
    assert_eq!(values.status, 0);
}

#[test]
fn decode_get_values_motor_fault() {
    let input: [u8; 79] = [
        2, 74, 4, 1, 13, 0, 0, 0, 0, 0, 92, 0, 0, 0, 12, 0, 0, 0, 0, 255, 255, 255, 169, 255, 19,
        255, 255, 247, 94, 1, 117, 0, 0, 0, 7, 0, 0, 0, 0, 0, 0, 1, 18, 0, 0, 0, 0, 255, 255, 145,
        186, 0, 2, 11, 64, 2, 13, 228, 230, 240, 20, 1, 13, 252, 115, 252, 76, 0, 0, 0, 230, 255,
        255, 240, 129, 0, 183, 254, 3,
    ];
    let (consumed, reply) = decode(&input).unwrap();
    assert_eq!(consumed, 79);
    let CommandReply::GetValues(values) = reply else {
        panic!("unexpected reply {:?}", reply);
    };
    assert_scaled(values.temp_mosfet, 10.0, 26.9);
    assert_scaled(values.temp_motor, 10.0, 0.0);
    assert_scaled(values.avg_current_motor, 100.0, 0.92);
    assert_scaled(values.avg_current_input, 100.0, 0.12);
    assert_scaled(values.avg_current_d, 100.0, 0.0);
    assert_scaled(values.avg_current_q, 100.0, -0.87);
    assert_scaled(values.duty_cycle, 1000.0, -0.237);
    assert_scaled(values.rpm, 1.0, -2210.0);
    assert_scaled(values.voltage_in, 10.0, 37.3);
    assert_scaled(values.amp_hours, 10000.0, 0.0007);
    assert_scaled(values.amp_hours_charged, 10000.0, 0.0);
    assert_scaled(values.watt_hours, 10000.0, 0.0274);
    assert_scaled(values.watt_hours_charged, 10000.0, 0.0);
    assert_eq!(values.tachometer, -28230);
    assert_eq!(values.tachometer_abs, 133952);
    assert_eq!(values.fault_code, FaultCode::UnderVoltage);
    assert_scaled(values.pid_pos, 1000000.0, 233.10513);
    assert_eq!(values.controller_id, 20);
    assert_scaled(values.temp_mosfet1, 10.0, 26.9);
    assert_scaled(values.temp_mosfet2, 10.0, -90.9);
    assert_scaled(values.temp_mosfet3, 10.0, -94.8);
    assert_scaled(values.avg_voltage_d, 1000.0, 0.23);
    assert_scaled(values.avg_voltage_q, 1000.0, -3.967);
    assert_eq!(values.status, 0);
}

#[test]
fn decode_get_values_selective_zero_rpm() {
    let input: [u8; 28] = [
        2, 23, 50, 0, 2, 161, 138, 0, 0, 0, 0, 0, 0, 0, 0, 0, 0, 1, 128, 255, 255, 158, 70, 0, 1,
        63, 148, 3,
    ];
    let (consumed, reply) = decode(&input).unwrap();
    assert_eq!(consumed, 28);
    let CommandReply::GetValuesSelective(values) = reply else {
        panic!("unexpected reply {:?}", reply);
    };
    assert_scaled(values.avg_current_input, 100.0, 0.0);
    assert_scaled(values.rpm, 1.0, 0.0);
    assert_scaled(values.voltage_in, 10.0, 38.4);
    assert_eq!(values.tachometer, -25018);
    assert_eq!(values.fault_code, FaultCode::NoFault);
    assert_eq!(values.controller_id, 1);
}

#[test]
fn decode_get_values_selective_forward_rpm() {
    let input: [u8; 28] = [
        2, 23, 50, 0, 2, 161, 138, 0, 0, 0, 0, 0, 4, 0, 0, 3, 221, 1, 119, 255, 255, 170, 43, 0,
        20, 45, 58, 3,
    ];
    let (consumed, reply) = decode(&input).unwrap();
    assert_eq!(consumed, 28);
    let CommandReply::GetValuesSelective(values) = reply else {
        panic!("unexpected reply {:?}", reply);
    };
    assert_scaled(values.avg_current_input, 100.0, 0.04);
    assert_scaled(values.rpm, 1.0, 989.0);
    assert_scaled(values.voltage_in, 10.0, 37.5);
    assert_eq!(values.tachometer, -21973);
    assert_eq!(values.fault_code, FaultCode::NoFault);
    assert_eq!(values.controller_id, 20);
}

#[test]
fn decode_get_values_selective_reverse_rpm() {
    let input: [u8; 28] = [
        2, 23, 50, 0, 2, 161, 138, 0, 0, 0, 0, 0, 10, 255, 255, 246, 213, 1, 118, 255, 255, 181,
        218, 0, 20, 94, 130, 3,
    ];
    let (consumed, reply) = decode(&input).unwrap();
    assert_eq!(consumed, 28);
    let CommandReply::GetValuesSelective(values) = reply else {
        panic!("unexpected reply {:?}", reply);
    };
    assert_scaled(values.avg_current_input, 100.0, 0.1);
    assert_scaled(values.rpm, 1.0, -2347.0);
    assert_scaled(values.voltage_in, 10.0, 37.4);
    assert_eq!(values.tachometer, -18982);
    assert_eq!(values.fault_code, FaultCode::NoFault);
    assert_eq!(values.controller_id, 20);
}

#[test]
fn decode_get_values_selective_fault_code() {
    let input: [u8; 28] = [
        2, 23, 50, 0, 2, 161, 138, 0, 0, 0, 0, 0, 10, 255, 255, 246, 213, 1, 118, 255, 255, 181,
        218, 4, 20, 146, 70, 3,
    ];
    let (consumed, reply) = decode(&input).unwrap();
    assert_eq!(consumed, 28);
    let CommandReply::GetValuesSelective(values) = reply else {
        panic!("unexpected reply {:?}", reply);
    };
    assert_scaled(values.avg_current_input, 100.0, 0.1);
    assert_scaled(values.rpm, 1.0, -2347.0);
    assert_scaled(values.voltage_in, 10.0, 37.4);
    assert_eq!(values.tachometer, -18982);
    assert_eq!(values.fault_code, FaultCode::AbsOverCurrent);
    assert_eq!(values.controller_id, 20);
}

#[test]
fn decode_incomplete_data() {
    let input: [u8; 28] = [
        2, 23, 50, 0, 2, 161, 138, 0, 0, 0, 0, 0, 0, 0, 0, 0, 0, 1, 128, 255, 255, 158, 70, 0, 1,
        63, 148, 3,
    ];
    for i in 1..input.len() {
        assert_eq!(decode(&input[..i]), Err(DecodeError::IncompleteData));
    }
}

#[test]
fn decode_checksum_mismatch() {
    let input: [u8; 28] = [
        2, 23, 50, 0, 2, 161, 138, 0, 0, 0, 0, 0, 10, 255, 255, 246, 213, 1, 118, 255, 255, 181,
        218, 0, 21, 94, 130, 3,
    ];
    assert_eq!(decode(&input), Err(DecodeError::ChecksumMismatch {
            expected: 24194,
            actual: 20131,
        }));
}

#[test]
fn decode_unknown_packet() {
    let input: [u8; 8] = [2, 3, 222, 4, 0, 178, 81, 3];
    assert_eq!(decode(&input), Err(DecodeError::UnknownPacket { id: 222 }));
}

#[test]
fn decode_invalid_frame_start() {
    let input: [u8; 28] = [
        7, 23, 50, 0, 2, 161, 138, 0, 0, 0, 0, 0, 0, 0, 0, 0, 0, 1, 128, 255, 255, 158, 70, 0, 1,
        63, 148, 3,
    ];
    assert_eq!(decode(&input), Err(DecodeError::InvalidFrame));
}

#[test]
fn decode_invalid_frame_end() {
    let input: [u8; 28] = [
        2, 23, 50, 0, 2, 161, 138, 0, 0, 0, 0, 0, 0, 0, 0, 0, 0, 1, 128, 255, 255, 158, 70, 0, 1,
        63, 148, 2,
    ];
    assert_eq!(decode(&input), Err(DecodeError::InvalidFrame));
}

#[test]
fn decode_wrong_payload_len_gt_payload() {
    let mut input: [u8; 28] = [
        2, 23, 50, 0, 2, 161, 138, 0, 0, 0, 0, 0, 0, 0, 0, 0, 0, 1, 128, 255, 255, 158, 70, 0, 1,
        63, 148, 3,
    ];
    input[1] = input[1] + 1;
    assert_eq!(decode(&input), Err(DecodeError::InvalidFrame));
}

#[test]
fn decode_wrong_payload_len_lt_payload() {
    let mut input: [u8; 28] = [
        2, 23, 50, 0, 2, 161, 138, 0, 0, 0, 0, 0, 0, 0, 0, 0, 0, 1, 128, 255, 255, 158, 70, 0, 1,
        63, 148, 3,
    ];
    input[1] = input[1] - 1;
    assert_eq!(decode(&input), Err(DecodeError::InvalidFrame));
}

#[test]
fn decode_invalid_frame_end_witch_checksum_mismatch() {
    let input: [u8; 28] = [
        2, 23, 50, 0, 2, 161, 138, 0, 0, 0, 0, 0, 10, 255, 255, 246, 213, 1, 118, 255, 255, 181,
        218, 0, 21, 94, 130, 2,
    ];
    assert_eq!(
        decode(&input),
        Err(DecodeError::ChecksumMismatch {
            expected: 24194,
            actual: 20131,
        })
    );
}
