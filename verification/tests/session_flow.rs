use spine::client_wire::encode_response;
use spine::config::{Config, PadConfig, SystemConfig};
use spine::local::{deliver_local_response, switch_response, LocalConnections, LocalPlan,
    LocalRequest};
use spine::pad::{deliver_pad_response, encoder_value, PadRequest, PadState};
use spine::pad_wire::{decode_encoder_values, encode_op, PadOperation};
use spine::request::{HardwareRequest, HardwareResponse, PadResponse};
use spine::session::{dispatch, Dispatch, Session};

fn chars(s: &str) -> Vec<char> {
    s.chars().collect()
}

fn flow_config() -> Config {
    Config {
        pad: PadConfig {
            motors: vec![("left".to_string(), 3)],
            encoders: vec![("wrist".to_string(), 2)],
            servos: vec![("grip".to_string(), 4)],
        },
        system: SystemConfig {
            motors: vec![("belt".to_string(), [17, 27])],
            limit_switches: vec![("home".to_string(), 22)],
            status_leds: vec![("status".to_string(), 5)],
            servos: vec![],
            pca9685_path: "/dev/i2c-1".to_string(),
        },
    }
}

/// Decode one record from the wire text and route it.
fn one_request(config: &Config, wire: &str) -> (HardwareRequest, Dispatch) {
    let mut session = Session::new();
    let mut reqs = session.on_read(&chars(wire));
    assert_eq!(reqs.len(), 1);
    let req = reqs.remove(0);
    let d = dispatch(config, &req);
    (req, d)
}

#[test]
fn pad_motor_write_reaches_the_sabertooth_wire() {
    let config = flow_config();
    let (req, d) = one_request(
        &config,
        "{\"MotorWrite\":{\"motor\":\"left\",\"command\":[192]}}",
    );
    assert_eq!(d, Dispatch::ToPad { port: 3, awaits: false });

    let mut pad = PadState::new();
    pad.after_connect(true);
    let mut rq = PadRequest::from_hardware_request(3, req);
    let plan = pad.respond(&rq).unwrap();
    assert_eq!(plan.op, Some(PadOperation::SabertoothWrite(3, 192)));
    assert_eq!(encode_op(&plan.op.unwrap()), vec![1, 3, 192]);
    assert!(!plan.awaits_reply);

    // Fire-and-forget: the acknowledgement never reaches the slot, and no
    // record is written back to the client.
    deliver_pad_response(&mut rq.tx, PadResponse::Done);
    assert_eq!(rq.tx.take(), None);
    assert_eq!(
        encode_response(&HardwareResponse::from_pad_response(PadResponse::Done)),
        None
    );
}

#[test]
fn system_motor_write_drives_the_h_bridge_lines() {
    let config = flow_config();
    let (req, d) = one_request(
        &config,
        "{\"MotorWrite\":{\"motor\":\"belt\",\"command\":[50]}}",
    );
    assert_eq!(d, Dispatch::ToLocal { awaits: false });

    let lc = LocalConnections::from_config(&config).unwrap();
    let rq = LocalRequest::from_hardware_request(req);
    match lc.respond(&rq).unwrap() {
        LocalPlan::WritePins { writes } => assert_eq!(writes, vec![(17, 0), (27, 1)]),
        _ => panic!("expected pin writes"),
    }
}

#[test]
fn encoder_read_returns_the_port_indexed_count() {
    let config = flow_config();
    let (req, d) = one_request(&config, "{\"EncoderRead\":{\"encoder\":\"wrist\"}}");
    assert_eq!(d, Dispatch::ToPad { port: 2, awaits: true });

    let mut pad = PadState::new();
    pad.after_connect(true);
    let mut rq = PadRequest::from_hardware_request(2, req);
    let plan = pad.respond(&rq).unwrap();
    assert_eq!(plan.op, Some(PadOperation::EncoderRead));
    assert!(plan.awaits_reply);

    // The PAD answers with five counts; the request's port picks one out.
    let reply_wire = postcard::to_allocvec(&[100i32, 200, 300, 400, 500]).unwrap();
    let values = decode_encoder_values(&reply_wire).unwrap();
    let resp = encoder_value(&values, rq.id).unwrap();
    deliver_pad_response(&mut rq.tx, resp);
    let resp = rq.tx.take().unwrap();
    assert_eq!(resp, PadResponse::EncoderValue(300));
    assert_eq!(
        encode_response(&HardwareResponse::from_pad_response(resp)),
        Some("300".to_string())
    );
}

#[test]
fn switch_read_returns_the_line_level() {
    let config = flow_config();
    let (req, d) = one_request(&config, "{\"SwitchRead\":{\"switch\":\"home\"}}");
    assert_eq!(d, Dispatch::ToLocal { awaits: true });

    let lc = LocalConnections::from_config(&config).unwrap();
    let mut rq = LocalRequest::from_hardware_request(req);
    match lc.respond(&rq).unwrap() {
        LocalPlan::ReadSwitch { line } => assert_eq!(line, 22),
        _ => panic!("expected a switch read"),
    }
    // The sysfs line reads 1.
    deliver_local_response(&mut rq.tx, switch_response(1));
    let resp = rq.tx.take().unwrap();
    assert_eq!(
        encode_response(&HardwareResponse::from_local_response(resp)),
        Some("true".to_string())
    );
}

#[test]
fn servo_write_reaches_the_pwm_wire() {
    let config = flow_config();
    let (req, d) = one_request(
        &config,
        "{\"ServoWrite\":{\"servo\":\"grip\",\"position\":1500}}",
    );
    assert_eq!(d, Dispatch::ToPad { port: 4, awaits: false });

    let mut pad = PadState::new();
    pad.after_connect(true);
    let rq = PadRequest::from_hardware_request(4, req);
    let plan = pad.respond(&rq).unwrap();
    assert_eq!(plan.op, Some(PadOperation::PwmWrite(4, 368)));
}

#[test]
fn unresolved_requests_are_dropped() {
    let config = flow_config();
    let (_, d) = one_request(
        &config,
        "{\"MotorWrite\":{\"motor\":\"nobody\",\"command\":[1]}}",
    );
    assert_eq!(d, Dispatch::Drop);
}

#[test]
fn pad_reset_goes_to_port_zero() {
    let config = flow_config();
    let (req, d) = one_request(&config, "\"PadReset\"");
    assert_eq!(d, Dispatch::ToPad { port: 0, awaits: false });
    let mut pad = PadState::new();
    pad.after_connect(true);
    let rq = PadRequest::from_hardware_request(0, req);
    let plan = pad.respond(&rq).unwrap();
    assert_eq!(plan.op, Some(PadOperation::Reset));
    assert!(!plan.awaits_reply);
}

#[test]
fn session_completes_a_record_split_across_reads() {
    let mut session = Session::new();
    let reqs = session.on_read(&chars("{\"SwitchRead\":{\"switch\":\"ho"));
    assert_eq!(reqs, vec![]);
    let reqs = session.on_read(&chars("me\"}} \"PadReset\""));
    assert_eq!(
        reqs,
        vec![
            HardwareRequest::SwitchRead {
                switch: "home".to_string()
            },
            HardwareRequest::PadReset,
        ]
    );
}

#[test]
fn session_yields_nothing_on_an_empty_read() {
    let mut session = Session::new();
    let reqs = session.on_read(&chars("{\"SwitchRead\":{\"switch\":\"ho"));
    assert_eq!(reqs, vec![]);
    // A read of zero bytes — the closed socket on which the serving loop
    // exits — produces no requests and leaves the carry untouched.
    let reqs = session.on_read(&Vec::new());
    assert_eq!(reqs, vec![]);
    let reqs = session.on_read(&chars("me\"}}"));
    assert_eq!(
        reqs,
        vec![HardwareRequest::SwitchRead {
            switch: "home".to_string()
        }]
    );
}

#[test]
fn session_skips_a_malformed_record_and_carries_on() {
    let mut session = Session::new();
    let reqs = session.on_read(&chars("{\"MotorWrite\":{\"motor\":oops}} \"PadReset\""));
    assert_eq!(reqs, vec![HardwareRequest::PadReset]);
}

#[test]
fn keep_alive_failure_reconnects_and_next_tick_succeeds() {
    // A PAD write failure marks the link lost; the supervisor reconnects;
    // on the next tick, with the device re-enumerated, keep-alive succeeds.
    let mut pad = PadState::new();
    pad.after_connect(true);
    let action = pad.after_keep_alive(false);
    assert_eq!(action, spine::pad::LinkAction::Reconnect);
    assert!(pad.keep_alive().is_err());
    pad.after_connect(true);
    assert_eq!(pad.keep_alive(), Ok(PadOperation::KeepAlive));
    assert_eq!(encode_op(&PadOperation::KeepAlive), vec![0]);
}
