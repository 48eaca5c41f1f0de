//! The semantic commands carried on the client wire, and the replies the
//! back-ends produce for them.

use vstd::prelude::*;

verus! {

/// A semantic hardware command, as a client states it.
///
/// `MotorWrite` carries a raw driver command (one byte for Sabertooth-style
/// drivers and host H-bridges, five bytes for Smartelex drivers);
/// `ServoWrite` a pulse width in microseconds; the two read variants name
/// the encoder or limit switch to sample; `LedWrite` a 0/1 level; and
/// `PadReset` asks the auxiliary microcontroller to reset itself.
#[derive(Debug, Clone, PartialEq, Eq)]
pub enum HardwareRequest {
    MotorWrite { motor: String, command: Vec<u8> },
    ServoWrite { servo: String, position: u16 },
    EncoderRead { encoder: String },
    SwitchRead { switch: String },
    LedWrite { led: String, state: u8 },
    PadReset,
}

/// The mathematical shape of a request: names as character sequences and
/// commands as byte sequences, so that contracts can speak of values rather
/// than of heap objects.
#[verifier::ext_equal]
pub enum ReqModel {
    MotorWrite { motor: Seq<char>, command: Seq<u8> },
    ServoWrite { servo: Seq<char>, position: u16 },
    EncoderRead { encoder: Seq<char> },
    SwitchRead { switch: Seq<char> },
    LedWrite { led: Seq<char>, state: u8 },
    PadReset,
}

impl View for HardwareRequest {
    type V = ReqModel;

    open spec fn view(&self) -> ReqModel {
        match self {
            HardwareRequest::MotorWrite { motor, command } => ReqModel::MotorWrite {
                motor: motor@,
                command: command@,
            },
            HardwareRequest::ServoWrite { servo, position } => ReqModel::ServoWrite {
                servo: servo@,
                position: *position,
            },
            HardwareRequest::EncoderRead { encoder } => ReqModel::EncoderRead {
                encoder: encoder@,
            },
            HardwareRequest::SwitchRead { switch } => ReqModel::SwitchRead { switch: switch@ },
            HardwareRequest::LedWrite { led, state } => ReqModel::LedWrite {
                led: led@,
                state: *state,
            },
            HardwareRequest::PadReset => ReqModel::PadReset,
        }
    }
}

/// Whether a request's originator waits for a value to come back:
/// encoder and switch reads do, every write is fire-and-forget.
pub open spec fn expects_reply(r: ReqModel) -> bool {
    r is EncoderRead || r is SwitchRead
}

/// What is written back to a client: an encoder count, a switch level, or the silent
/// acknowledgement that is never put on the wire.
#[derive(Debug, Clone, Copy, PartialEq, Eq, Structural)]
pub enum HardwareResponse {
    EncoderValue(i32),
    SwitchOn(bool),
    Done,
}

/// What the PAD actor hands back for one request.
#[derive(Debug, Clone, Copy, PartialEq, Eq, Structural)]
pub enum PadResponse {
    EncoderValue(i32),
    Done,
}

/// What the local actor hands back for one request.
#[derive(Debug, Clone, Copy, PartialEq, Eq, Structural)]
pub enum LocalResponse {
    SwitchOn(bool),
    Done,
}

impl HardwareResponse {
    /// Lift a PAD reply into the client-facing response type.
    pub fn from_pad_response(pr: PadResponse) -> (r: Self)
        ensures
            r == match pr {
                PadResponse::EncoderValue(v) => HardwareResponse::EncoderValue(v),
                PadResponse::Done => HardwareResponse::Done,
            },
    {
        match pr {
            PadResponse::EncoderValue(v) => Self::EncoderValue(v),
            PadResponse::Done => Self::Done,
        }
    }

    /// Lift a local-actor reply into the client-facing response type.
    pub fn from_local_response(lr: LocalResponse) -> (r: Self)
        ensures
            r == match lr {
                LocalResponse::SwitchOn(v) => HardwareResponse::SwitchOn(v),
                LocalResponse::Done => HardwareResponse::Done,
            },
    {
        match lr {
            LocalResponse::SwitchOn(v) => Self::SwitchOn(v),
            LocalResponse::Done => Self::Done,
        }
    }
}

} // verus!
