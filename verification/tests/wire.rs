use spine::client_wire::{decode_stream, encode_request, encode_response};
use spine::pad_wire::{decode_encoder_values, decode_op, encode_op, PadOperation};
use spine::request::{HardwareRequest, HardwareResponse};

fn chars(s: &str) -> Vec<char> {
    s.chars().collect()
}

fn text(v: &[char]) -> String {
    v.iter().collect()
}

#[test]
fn encode_motor_write_record() {
    let req = HardwareRequest::MotorWrite {
        motor: "left".to_string(),
        command: vec![192],
    };
    assert_eq!(
        text(&encode_request(&req)),
        "{\"MotorWrite\":{\"motor\":\"left\",\"command\":[192]}}"
    );
}

#[test]
fn encode_servo_write_record() {
    let req = HardwareRequest::ServoWrite {
        servo: "grip".to_string(),
        position: 1500,
    };
    assert_eq!(
        text(&encode_request(&req)),
        "{\"ServoWrite\":{\"servo\":\"grip\",\"position\":1500}}"
    );
}

#[test]
fn encode_remaining_records() {
    assert_eq!(
        text(&encode_request(&HardwareRequest::EncoderRead {
            encoder: "wrist".to_string()
        })),
        "{\"EncoderRead\":{\"encoder\":\"wrist\"}}"
    );
    assert_eq!(
        text(&encode_request(&HardwareRequest::SwitchRead {
            switch: "home".to_string()
        })),
        "{\"SwitchRead\":{\"switch\":\"home\"}}"
    );
    assert_eq!(
        text(&encode_request(&HardwareRequest::LedWrite {
            led: "status".to_string(),
            state: 1
        })),
        "{\"LedWrite\":{\"led\":\"status\",\"state\":1}}"
    );
    assert_eq!(text(&encode_request(&HardwareRequest::PadReset)), "\"PadReset\"");
}

/// The record is JSON that denotes the same externally tagged structure
/// serde_json would build for it.
#[test]
fn encode_matches_serde_json_shape() {
    let mut fields = serde_json::Map::new();
    fields.insert(
        "motor".to_string(),
        serde_json::Value::String("left".to_string()),
    );
    fields.insert(
        "command".to_string(),
        serde_json::Value::Array(vec![serde_json::Value::from(192u8)]),
    );
    let mut tagged = serde_json::Map::new();
    tagged.insert("MotorWrite".to_string(), serde_json::Value::Object(fields));
    let expected = serde_json::Value::Object(tagged);
    let req = HardwareRequest::MotorWrite {
        motor: "left".to_string(),
        command: vec![192],
    };
    let encoded = text(&encode_request(&req));
    let parsed: serde_json::Value = serde_json::from_str(&encoded).unwrap();
    assert_eq!(parsed, expected);
}

/// String escaping matches serde_json's, including control characters.
#[test]
fn string_escaping_matches_serde_json() {
    let name = "a\"b\\c\nd\te\u{8}f\u{c}g\rh\u{1f}i";
    let expected = format!(
        "{{\"EncoderRead\":{{\"encoder\":{}}}}}",
        serde_json::to_string(name).unwrap()
    );
    let req = HardwareRequest::EncoderRead {
        encoder: name.to_string(),
    };
    assert_eq!(text(&encode_request(&req)), expected);
}

#[test]
fn client_round_trip_all_variants() {
    let reqs = vec![
        HardwareRequest::MotorWrite {
            motor: "left".to_string(),
            command: vec![192],
        },
        HardwareRequest::MotorWrite {
            motor: "arm".to_string(),
            command: vec![1, 2, 3, 4, 5],
        },
        HardwareRequest::MotorWrite {
            motor: "empty".to_string(),
            command: vec![],
        },
        HardwareRequest::ServoWrite {
            servo: "grip".to_string(),
            position: 0,
        },
        HardwareRequest::ServoWrite {
            servo: "grip".to_string(),
            position: 65535,
        },
        HardwareRequest::EncoderRead {
            encoder: "wrist".to_string(),
        },
        HardwareRequest::SwitchRead {
            switch: "home".to_string(),
        },
        HardwareRequest::LedWrite {
            led: "status".to_string(),
            state: 0,
        },
        HardwareRequest::PadReset,
        HardwareRequest::EncoderRead {
            encoder: "we\"ird\\na\nme\u{1}".to_string(),
        },
        HardwareRequest::EncoderRead {
            encoder: "ünïcødé 名前".to_string(),
        },
    ];
    for req in reqs {
        let encoded = encode_request(&req);
        let (decoded, consumed) = decode_stream(&encoded);
        assert_eq!(consumed, encoded.len());
        assert_eq!(decoded, vec![req]);
    }
}

#[test]
fn stream_of_encoded_requests_round_trips() {
    let reqs = vec![
        HardwareRequest::MotorWrite {
            motor: "left".to_string(),
            command: vec![192],
        },
        HardwareRequest::EncoderRead {
            encoder: "wrist".to_string(),
        },
        HardwareRequest::PadReset,
        HardwareRequest::LedWrite {
            led: "status".to_string(),
            state: 1,
        },
    ];
    let mut wire: Vec<char> = Vec::new();
    for req in &reqs {
        wire.extend(encode_request(req));
    }
    let (decoded, consumed) = decode_stream(&wire);
    assert_eq!(consumed, wire.len());
    assert_eq!(decoded, reqs);
}

#[test]
fn decode_stream_of_concatenated_records() {
    let wire = "{\"MotorWrite\":{\"motor\":\"left\",\"command\":[192]}} {\"SwitchRead\":{\"switch\":\"home\"}}\n\"PadReset\"";
    let (decoded, consumed) = decode_stream(&chars(wire));
    assert_eq!(consumed, wire.chars().count());
    assert_eq!(
        decoded,
        vec![
            HardwareRequest::MotorWrite {
                motor: "left".to_string(),
                command: vec![192]
            },
            HardwareRequest::SwitchRead {
                switch: "home".to_string()
            },
            HardwareRequest::PadReset,
        ]
    );
}

#[test]
fn decode_skips_malformed_record() {
    let wire = "garbage {\"SwitchRead\":{\"switch\":\"home\"}}";
    let (decoded, consumed) = decode_stream(&chars(wire));
    assert_eq!(consumed, wire.chars().count());
    assert_eq!(
        decoded,
        vec![HardwareRequest::SwitchRead {
            switch: "home".to_string()
        }]
    );
}

#[test]
fn decode_rejects_leading_zero_and_oversized_numbers() {
    let (decoded, _) = decode_stream(&chars("{\"LedWrite\":{\"led\":\"s\",\"state\":01}}"));
    assert_eq!(decoded, vec![]);
    let (decoded, _) = decode_stream(&chars("{\"LedWrite\":{\"led\":\"s\",\"state\":256}}"));
    assert_eq!(decoded, vec![]);
    let (decoded, _) =
        decode_stream(&chars("{\"ServoWrite\":{\"servo\":\"s\",\"position\":65536}}"));
    assert_eq!(decoded, vec![]);
    let (decoded, _) = decode_stream(&chars("{\"LedWrite\":{\"led\":\"s\",\"state\":0}}"));
    assert_eq!(
        decoded,
        vec![HardwareRequest::LedWrite {
            led: "s".to_string(),
            state: 0
        }]
    );
}

#[test]
fn decode_keeps_trailing_incomplete_record() {
    let wire = "\"PadReset\"{\"MotorWrite\":{\"motor\":\"le";
    let (decoded, consumed) = decode_stream(&chars(wire));
    assert_eq!(decoded, vec![HardwareRequest::PadReset]);
    assert_eq!(consumed, "\"PadReset\"".chars().count());
}

#[test]
fn encode_response_scalars() {
    assert_eq!(
        encode_response(&HardwareResponse::EncoderValue(300)),
        Some("300".to_string())
    );
    assert_eq!(
        encode_response(&HardwareResponse::EncoderValue(-1234567)),
        Some("-1234567".to_string())
    );
    assert_eq!(
        encode_response(&HardwareResponse::EncoderValue(i32::MIN)),
        Some(serde_json::to_string(&i32::MIN).unwrap())
    );
    assert_eq!(
        encode_response(&HardwareResponse::SwitchOn(true)),
        Some("true".to_string())
    );
    assert_eq!(
        encode_response(&HardwareResponse::SwitchOn(false)),
        Some("false".to_string())
    );
    assert_eq!(encode_response(&HardwareResponse::Done), None);
}

#[test]
fn pad_operation_frames() {
    assert_eq!(encode_op(&PadOperation::KeepAlive), vec![0]);
    assert_eq!(encode_op(&PadOperation::SabertoothWrite(3, 192)), vec![1, 3, 192]);
    assert_eq!(
        encode_op(&PadOperation::SmartelexWrite(2, [1, 2, 3, 4, 5])),
        vec![2, 2, 1, 2, 3, 4, 5]
    );
    assert_eq!(encode_op(&PadOperation::EncoderRead), vec![3]);
    assert_eq!(encode_op(&PadOperation::PwmWrite(4, 368)), vec![4, 4, 0xF0, 0x02]);
    assert_eq!(encode_op(&PadOperation::VersionReport), vec![5]);
    assert_eq!(encode_op(&PadOperation::Reset), vec![6]);
}

/// The varint framing of multi-byte fields matches postcard's.
#[test]
fn pwm_duty_varint_matches_postcard() {
    for duty in [0u16, 1, 127, 128, 368, 16383, 16384, 65535] {
        let frame = encode_op(&PadOperation::PwmWrite(0, duty));
        let oracle = postcard::to_allocvec(&duty).unwrap();
        assert_eq!(&frame[2..], &oracle[..]);
    }
}

#[test]
fn pad_round_trip_all_operations() {
    let ops = vec![
        PadOperation::KeepAlive,
        PadOperation::SabertoothWrite(0, 0),
        PadOperation::SabertoothWrite(255, 255),
        PadOperation::SmartelexWrite(7, [0, 127, 128, 254, 255]),
        PadOperation::EncoderRead,
        PadOperation::PwmWrite(4, 368),
        PadOperation::PwmWrite(0, 65535),
        PadOperation::VersionReport,
        PadOperation::Reset,
    ];
    for op in ops {
        let frame = encode_op(&op);
        let decoded = decode_op(&frame, 0);
        assert_eq!(decoded, Some((op, frame.len())));
    }
}

#[test]
fn decode_op_refuses_unknown_tag_and_short_frames() {
    assert_eq!(decode_op(&vec![7], 0), None);
    assert_eq!(decode_op(&vec![1, 3], 0), None);
    assert_eq!(decode_op(&vec![2, 2, 1, 2, 3], 0), None);
    assert_eq!(decode_op(&vec![], 0), None);
}

/// The encoder reply format matches what postcard produces for `[i32; 5]`.
#[test]
fn encoder_values_decode_matches_postcard() {
    let values: [i32; 5] = [100, 200, 300, 400, 500];
    let wire = postcard::to_allocvec(&values).unwrap();
    assert_eq!(decode_encoder_values(&wire), Some(vec![100, 200, 300, 400, 500]));
    let negatives: [i32; 5] = [-1, i32::MIN, i32::MAX, 0, -123456];
    let wire = postcard::to_allocvec(&negatives).unwrap();
    assert_eq!(
        decode_encoder_values(&wire),
        Some(vec![-1, i32::MIN, i32::MAX, 0, -123456])
    );
    assert_eq!(decode_encoder_values(&vec![1, 2]), None);
}
