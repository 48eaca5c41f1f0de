use spine::config::{Config, Handler, PadConfig, SystemConfig};
use spine::duty::microseconds_to_analog_value;
use spine::hbridge::h_bridge_levels;
use spine::local::{LocalConnections, LocalError, LocalPlan, LocalRequest};
use spine::local::{deliver_local_response, switch_response, PinDirection};
use spine::pad::{
    deliver_pad_response, encoder_value, find_pad_port, LinkAction, PadError, PadRequest, PadState,
};
use spine::pad_wire::PadOperation;
use spine::request::{HardwareRequest, LocalResponse, PadResponse};

fn test_config() -> Config {
    Config {
        pad: PadConfig {
            motors: vec![("left".to_string(), 3), ("right".to_string(), 1)],
            encoders: vec![("wrist".to_string(), 2)],
            servos: vec![("grip".to_string(), 4)],
        },
        system: SystemConfig {
            motors: vec![("belt".to_string(), [17, 27])],
            limit_switches: vec![("home".to_string(), 22)],
            status_leds: vec![("status".to_string(), 5)],
            servos: vec![("tilt".to_string(), 3)],
            pca9685_path: "/dev/i2c-1".to_string(),
        },
    }
}

fn motor(name: &str, command: Vec<u8>) -> HardwareRequest {
    HardwareRequest::MotorWrite {
        motor: name.to_string(),
        command,
    }
}

#[test]
fn resolve_follows_the_resolution_table() {
    let c = test_config();
    assert_eq!(c.resolve(&motor("left", vec![192])), Some(Handler::Pad(3)));
    assert_eq!(c.resolve(&motor("belt", vec![50])), Some(Handler::System));
    assert_eq!(c.resolve(&motor("nobody", vec![0])), None);
    assert_eq!(
        c.resolve(&HardwareRequest::ServoWrite {
            servo: "grip".to_string(),
            position: 1500
        }),
        Some(Handler::Pad(4))
    );
    assert_eq!(
        c.resolve(&HardwareRequest::ServoWrite {
            servo: "tilt".to_string(),
            position: 1500
        }),
        Some(Handler::System)
    );
    assert_eq!(
        c.resolve(&HardwareRequest::ServoWrite {
            servo: "nobody".to_string(),
            position: 1500
        }),
        None
    );
    assert_eq!(
        c.resolve(&HardwareRequest::EncoderRead {
            encoder: "wrist".to_string()
        }),
        Some(Handler::Pad(2))
    );
    assert_eq!(
        c.resolve(&HardwareRequest::EncoderRead {
            encoder: "nobody".to_string()
        }),
        None
    );
    assert_eq!(
        c.resolve(&HardwareRequest::SwitchRead {
            switch: "anything".to_string()
        }),
        Some(Handler::System)
    );
    assert_eq!(
        c.resolve(&HardwareRequest::LedWrite {
            led: "anything".to_string(),
            state: 1
        }),
        Some(Handler::System)
    );
    assert_eq!(c.resolve(&HardwareRequest::PadReset), Some(Handler::Pad(0)));
}

#[test]
fn resolve_prefers_pad_over_system_for_shared_names() {
    let mut c = test_config();
    c.system.motors.push(("left".to_string(), [9, 10]));
    c.pad.servos.push(("tilt".to_string(), 7));
    assert_eq!(c.resolve(&motor("left", vec![192])), Some(Handler::Pad(3)));
    assert_eq!(
        c.resolve(&HardwareRequest::ServoWrite {
            servo: "tilt".to_string(),
            position: 1500
        }),
        Some(Handler::Pad(7))
    );
}

#[test]
fn resolve_is_deterministic() {
    let c = test_config();
    let req = motor("left", vec![192]);
    assert_eq!(c.resolve(&req), c.resolve(&req));
}

#[test]
fn duty_conversion_values() {
    assert_eq!(microseconds_to_analog_value(0), 0);
    assert_eq!(microseconds_to_analog_value(1500), 368);
    assert_eq!(microseconds_to_analog_value(1000), 245);
    assert_eq!(microseconds_to_analog_value(65535), 16101);
}

#[test]
fn duty_conversion_is_monotonic_on_samples() {
    let mut last = 0;
    for us in (0..=65535u32).step_by(37) {
        let duty = microseconds_to_analog_value(us as u16);
        assert!(duty >= last);
        last = duty;
    }
}

#[test]
fn h_bridge_table_rows() {
    for b in [0u8, 64, 191, 192] {
        assert_eq!(h_bridge_levels(b), (0, 0));
    }
    for b in [1u8, 50, 63, 128, 150, 190] {
        assert_eq!(h_bridge_levels(b), (0, 1));
    }
    for b in [65u8, 100, 127, 193, 220, 255] {
        assert_eq!(h_bridge_levels(b), (1, 0));
    }
}

#[test]
fn h_bridge_table_partitions_every_byte() {
    for b in 0..=255u8 {
        let rest = b == 0 || b == 64 || b == 191 || b == 192;
        let reverse = (1..=63).contains(&b) || (128..=190).contains(&b);
        let forward = (65..=127).contains(&b) || b >= 193;
        assert_eq!(
            [rest, reverse, forward].iter().filter(|&&x| x).count(),
            1,
            "byte {b}"
        );
        let expected = if rest {
            (0, 0)
        } else if reverse {
            (0, 1)
        } else {
            (1, 0)
        };
        assert_eq!(h_bridge_levels(b), expected);
    }
}

#[test]
fn pad_plans_follow_the_translation_table() {
    let mut pad = PadState::new();
    pad.after_connect(true);

    let rq = PadRequest::from_hardware_request(3, motor("left", vec![192]));
    let plan = pad.respond(&rq).unwrap();
    assert_eq!(plan.op, Some(PadOperation::SabertoothWrite(3, 192)));
    assert!(!plan.awaits_reply);

    let rq = PadRequest::from_hardware_request(1, motor("right", vec![1, 2, 3, 4, 5]));
    let plan = pad.respond(&rq).unwrap();
    assert_eq!(plan.op, Some(PadOperation::SmartelexWrite(1, [1, 2, 3, 4, 5])));
    assert!(!plan.awaits_reply);

    let rq = PadRequest::from_hardware_request(3, motor("left", vec![1, 2]));
    assert_eq!(pad.respond(&rq).unwrap_err(), PadError::InvalidCommand);

    let rq = PadRequest::from_hardware_request(
        4,
        HardwareRequest::ServoWrite {
            servo: "grip".to_string(),
            position: 1500,
        },
    );
    let plan = pad.respond(&rq).unwrap();
    assert_eq!(plan.op, Some(PadOperation::PwmWrite(4, 368)));
    assert!(!plan.awaits_reply);

    let rq = PadRequest::from_hardware_request(
        2,
        HardwareRequest::EncoderRead {
            encoder: "wrist".to_string(),
        },
    );
    let plan = pad.respond(&rq).unwrap();
    assert_eq!(plan.op, Some(PadOperation::EncoderRead));
    assert!(plan.awaits_reply);

    let rq = PadRequest::from_hardware_request(0, HardwareRequest::PadReset);
    let plan = pad.respond(&rq).unwrap();
    assert_eq!(plan.op, Some(PadOperation::Reset));
    assert!(!plan.awaits_reply);

    let rq = PadRequest::from_hardware_request(
        0,
        HardwareRequest::SwitchRead {
            switch: "home".to_string(),
        },
    );
    let plan = pad.respond(&rq).unwrap();
    assert_eq!(plan.op, None);
    assert!(!plan.awaits_reply);
}

#[test]
fn pad_refuses_requests_while_disconnected() {
    let pad = PadState::new();
    let rq = PadRequest::from_hardware_request(3, motor("left", vec![192]));
    assert_eq!(pad.respond(&rq).unwrap_err(), PadError::NoPadDevice);
    assert_eq!(pad.keep_alive().unwrap_err(), PadError::NoPadDevice);
}

#[test]
fn encoder_value_is_bounds_checked() {
    let values = vec![100, 200, 300, 400, 500];
    assert_eq!(encoder_value(&values, 2), Some(PadResponse::EncoderValue(300)));
    assert_eq!(encoder_value(&values, 0), Some(PadResponse::EncoderValue(100)));
    assert_eq!(encoder_value(&values, 5), None);
    assert_eq!(encoder_value(&values, 255), None);
}

#[test]
fn reply_slots_take_only_reply_bearing_responses() {
    let mut rq = PadRequest::from_hardware_request(2, HardwareRequest::PadReset);
    deliver_pad_response(&mut rq.tx, PadResponse::Done);
    assert_eq!(rq.tx.take(), None);
    deliver_pad_response(&mut rq.tx, PadResponse::EncoderValue(300));
    assert_eq!(rq.tx.take(), Some(PadResponse::EncoderValue(300)));
    assert_eq!(rq.tx.take(), None);

    let mut lrq = LocalRequest::from_hardware_request(HardwareRequest::SwitchRead {
        switch: "home".to_string(),
    });
    deliver_local_response(&mut lrq.tx, LocalResponse::Done);
    assert_eq!(lrq.tx.take(), None);
    deliver_local_response(&mut lrq.tx, LocalResponse::SwitchOn(true));
    assert_eq!(lrq.tx.take(), Some(LocalResponse::SwitchOn(true)));
}

#[test]
fn find_pad_port_takes_first_matching_usb_ids() {
    assert_eq!(find_pad_port(&vec![]), None);
    assert_eq!(find_pad_port(&vec![(0x1234, 0x5678)]), None);
    assert_eq!(
        find_pad_port(&vec![(0x1234, 0x5678), (0x2E8A, 0x000A), (0x2E8A, 0x000A)]),
        Some(1)
    );
    assert_eq!(find_pad_port(&vec![(0x2E8A, 0x0003)]), None);
}

#[test]
fn keep_alive_recovers_after_reconnect() {
    let mut pad = PadState::new();
    pad.after_connect(true);
    assert_eq!(pad.keep_alive(), Ok(PadOperation::KeepAlive));
    let action = pad.after_keep_alive(false);
    assert_eq!(action, LinkAction::Reconnect);
    assert_eq!(pad.keep_alive().unwrap_err(), PadError::NoPadDevice);
    pad.after_connect(true);
    assert_eq!(pad.after_keep_alive(true), LinkAction::Idle);
    assert_eq!(pad.keep_alive(), Ok(PadOperation::KeepAlive));
}

#[test]
fn local_tables_come_from_the_system_partition() {
    let lc = LocalConnections::from_config(&test_config()).unwrap();
    assert_eq!(lc.limit_switches, vec![("home".to_string(), 22)]);
    assert_eq!(lc.h_bridge, vec![("belt".to_string(), [17, 27])]);
    assert_eq!(lc.status_leds, vec![("status".to_string(), 5)]);
    assert_eq!(lc.servos, vec![("tilt".to_string(), 3)]);
}

#[test]
fn local_from_config_refuses_channel_past_fifteen() {
    let mut c = test_config();
    c.system.servos.push(("pan".to_string(), 16));
    assert_eq!(
        LocalConnections::from_config(&c).unwrap_err(),
        LocalError::InvalidChannel
    );
    c.system.servos.pop();
    c.system.servos.push(("pan".to_string(), 15));
    assert!(LocalConnections::from_config(&c).is_ok());
}

#[test]
fn setup_plan_orders_switches_bridges_leds() {
    let lc = LocalConnections::from_config(&test_config()).unwrap();
    assert_eq!(
        lc.setup_pins(),
        vec![
            (22, PinDirection::In),
            (17, PinDirection::Out),
            (27, PinDirection::Out),
            (5, PinDirection::Out),
        ]
    );
}

#[test]
fn local_plans_follow_the_translation_table() {
    let lc = LocalConnections::from_config(&test_config()).unwrap();

    let rq = LocalRequest::from_hardware_request(motor("belt", vec![50]));
    match lc.respond(&rq).unwrap() {
        LocalPlan::WritePins { writes } => assert_eq!(writes, vec![(17, 0), (27, 1)]),
        _ => panic!("expected pin writes"),
    }

    let rq = LocalRequest::from_hardware_request(motor("belt", vec![192]));
    match lc.respond(&rq).unwrap() {
        LocalPlan::WritePins { writes } => assert_eq!(writes, vec![(17, 0), (27, 0)]),
        _ => panic!("expected pin writes"),
    }

    let rq = LocalRequest::from_hardware_request(HardwareRequest::SwitchRead {
        switch: "home".to_string(),
    });
    match lc.respond(&rq).unwrap() {
        LocalPlan::ReadSwitch { line } => assert_eq!(line, 22),
        _ => panic!("expected a switch read"),
    }

    let rq = LocalRequest::from_hardware_request(HardwareRequest::ServoWrite {
        servo: "tilt".to_string(),
        position: 1500,
    });
    match lc.respond(&rq).unwrap() {
        LocalPlan::SetPwm {
            channel,
            on_counts,
            off_counts,
        } => {
            assert_eq!(channel, 3);
            assert_eq!(on_counts, 0);
            assert_eq!(off_counts, 368);
        }
        _ => panic!("expected a PWM setting"),
    }

    let rq = LocalRequest::from_hardware_request(HardwareRequest::LedWrite {
        led: "status".to_string(),
        state: 7,
    });
    match lc.respond(&rq).unwrap() {
        LocalPlan::WritePins { writes } => assert_eq!(writes, vec![(5, 1)]),
        _ => panic!("expected pin writes"),
    }
}

#[test]
fn local_errors_follow_the_error_table() {
    let lc = LocalConnections::from_config(&test_config()).unwrap();
    let rq = LocalRequest::from_hardware_request(motor("nobody", vec![50]));
    assert_eq!(lc.respond(&rq).unwrap_err(), LocalError::InvalidName);
    let rq = LocalRequest::from_hardware_request(motor("belt", vec![]));
    assert_eq!(lc.respond(&rq).unwrap_err(), LocalError::InvalidCommand);
    let rq = LocalRequest::from_hardware_request(HardwareRequest::EncoderRead {
        encoder: "wrist".to_string(),
    });
    assert_eq!(lc.respond(&rq).unwrap_err(), LocalError::CannotHandleLocally);
    let rq = LocalRequest::from_hardware_request(HardwareRequest::PadReset);
    assert_eq!(lc.respond(&rq).unwrap_err(), LocalError::CannotHandleLocally);
}

#[test]
fn switch_levels_map_to_booleans() {
    assert_eq!(switch_response(1), LocalResponse::SwitchOn(true));
    assert_eq!(switch_response(0), LocalResponse::SwitchOn(false));
    assert_eq!(switch_response(2), LocalResponse::SwitchOn(false));
}
