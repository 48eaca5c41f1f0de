//! The PAD actor's decision core: translating semantic requests into serial
//! wire operations, extracting encoder replies, and the link state machine
//! the supervisor drives.
//!
//! The serial port itself is owned by the surrounding process; this module
//! decides what to write, whether a correlated reply must be read back, and
//! how the link state changes on success and failure.

use vstd::prelude::*;

use crate::duty;
use crate::duty::spec_duty;
use crate::pad_wire::{PadOpModel, PadOperation};
use crate::reply::ReplySlot;
use crate::request::{HardwareRequest, PadResponse, ReqModel};

verus! {

/// USB vendor id of the PAD microcontroller.
pub const PAD_VID: u16 = 0x2E8A;

/// USB product id of the PAD microcontroller.
pub const PAD_PID: u16 = 0x000A;

/// Why the PAD actor could not carry a request out.
#[derive(Debug, Clone, Copy, PartialEq, Eq, Structural)]
pub enum PadError {
    /// No serial device is open; the supervisor must reconnect.
    NoPadDevice,
    /// A motor command of a length the wire cannot carry: neither one byte
    /// (Sabertooth) nor five (Smartelex).
    InvalidCommand,
}

/// One request enveloped for the PAD actor: the port index the resolver
/// produced, the semantic request, and the single-use reply slot bound to
/// this dispatch.
pub struct PadRequest {
    pub id: u8,
    pub body: HardwareRequest,
    pub tx: ReplySlot<PadResponse>,
}

impl PadRequest {
    /// Envelope a request for the PAD actor, with a fresh reply slot.
    pub fn from_hardware_request(id: u8, hwrq: HardwareRequest) -> (r: Self)
        ensures
            r.id == id,
            r.body == hwrq,
            r.tx@ is None,
    {
        PadRequest { id, body: hwrq, tx: ReplySlot::empty() }
    }
}

/// What the PAD actor decides for one request: the frame to put on the
/// serial wire, if any, and whether a correlated reply must be read back.
#[derive(Debug)]
pub struct PadPlan {
    pub op: Option<PadOperation>,
    pub awaits_reply: bool,
}

/// The value of an optional wire operation.
pub open spec fn op_view(op: Option<PadOperation>) -> Option<PadOpModel> {
    match op {
        Some(o) => Some(o@),
        None => None,
    }
}

/// The translation table of the PAD actor. A servo write becomes a PWM
/// write of the pulse's duty count; a one-byte motor command a Sabertooth
/// write and a five-byte one a Smartelex write, any other length being
/// rejected; an encoder read becomes the read operation, the only one that
/// awaits a reply; a reset becomes the reset operation; the host-local
/// request kinds produce no wire operation at all. Nothing is translated
/// while the link is down.
pub open spec fn spec_respond(connected: bool, id: u8, body: ReqModel) -> Result<
    (Option<PadOpModel>, bool),
    PadError,
> {
    if !connected {
        Err(PadError::NoPadDevice)
    } else {
        match body {
            ReqModel::ServoWrite { position, .. } => Ok(
                (Some(PadOpModel::PwmWrite(id, spec_duty(position) as u16)), false),
            ),
            ReqModel::MotorWrite { command, .. } => if command.len() == 1 {
                Ok((Some(PadOpModel::SabertoothWrite(id, command[0])), false))
            } else if command.len() == 5 {
                Ok((Some(PadOpModel::SmartelexWrite(id, command)), false))
            } else {
                Err(PadError::InvalidCommand)
            },
            ReqModel::EncoderRead { .. } => Ok((Some(PadOpModel::EncoderRead), true)),
            ReqModel::PadReset => Ok((Some(PadOpModel::Reset), false)),
            ReqModel::SwitchRead { .. } => Ok((None, false)),
            ReqModel::LedWrite { .. } => Ok((None, false)),
        }
    }
}

/// What the supervisor does after a keep-alive attempt.
#[derive(Debug, Clone, Copy, PartialEq, Eq, Structural)]
pub enum LinkAction {
    Idle,
    Reconnect,
}

/// The PAD link state: whether a serial device is currently open. The
/// supervisor alone drives the transitions; the actor never reconnects in
/// the middle of a request.
pub struct PadState {
    serial: bool,
}

impl PadState {
    /// Whether a serial device is open.
    pub closed spec fn is_connected(&self) -> bool {
        self.serial
    }

    /// A fresh actor: disconnected until the supervisor opens the device.
    pub fn new() -> (s: Self)
        ensures
            !s.is_connected(),
    {
        PadState { serial: false }
    }

    /// Record the outcome of a device-opening attempt.
    pub fn after_connect(&mut self, opened: bool)
        ensures
            final(self).is_connected() == opened,
    {
        self.serial = opened;
    }

    /// Record the outcome of a keep-alive write: a failure marks the link
    /// lost and instructs the supervisor to reconnect.
    pub fn after_keep_alive(&mut self, succeeded: bool) -> (act: LinkAction)
        ensures
            succeeded ==> final(self).is_connected() == old(self).is_connected() && act
                == LinkAction::Idle,
            !succeeded ==> !final(self).is_connected() && act == LinkAction::Reconnect,
    {
        if succeeded {
            LinkAction::Idle
        } else {
            self.serial = false;
            LinkAction::Reconnect
        }
    }

    /// The periodic liveness token: the keep-alive frame if the link is up,
    /// the failure that makes the supervisor reconnect if it is not.
    pub fn keep_alive(&self) -> (r: Result<PadOperation, PadError>)
        ensures
            self.is_connected() ==> (r matches Ok(op) && op@ == PadOpModel::KeepAlive),
            !self.is_connected() ==> r == Err::<PadOperation, PadError>(PadError::NoPadDevice),
    {
        if self.serial {
            Ok(PadOperation::KeepAlive)
        } else {
            Err(PadError::NoPadDevice)
        }
    }

    /// Translate one enveloped request into its wire plan.
    pub fn respond(&self, pad_rq: &PadRequest) -> (r: Result<PadPlan, PadError>)
        ensures
            match spec_respond(self.is_connected(), pad_rq.id, pad_rq.body@) {
                Ok((op, awaits)) => r matches Ok(plan) && op_view(plan.op) == op
                    && plan.awaits_reply == awaits,
                Err(e) => r == Err::<PadPlan, PadError>(e),
            },
    {
        if !self.serial {
            return Err(PadError::NoPadDevice);
        }
        match &pad_rq.body {
            HardwareRequest::ServoWrite { position, .. } => Ok(
                PadPlan {
                    op: Some(
                        PadOperation::PwmWrite(
                            pad_rq.id,
                            duty::microseconds_to_analog_value(*position),
                        ),
                    ),
                    awaits_reply: false,
                },
            ),
            HardwareRequest::MotorWrite { command, .. } => {
                if command.len() == 1 {
                    Ok(
                        PadPlan {
                            op: Some(PadOperation::SabertoothWrite(pad_rq.id, command[0])),
                            awaits_reply: false,
                        },
                    )
                } else if command.len() == 5 {
                    let payload: [u8; 5] = [
                        command[0],
                        command[1],
                        command[2],
                        command[3],
                        command[4],
                    ];
                    proof {
                        assert(payload@ =~= pad_rq.body@->MotorWrite_command);
                    }
                    Ok(
                        PadPlan {
                            op: Some(PadOperation::SmartelexWrite(pad_rq.id, payload)),
                            awaits_reply: false,
                        },
                    )
                } else {
                    Err(PadError::InvalidCommand)
                }
            },
            HardwareRequest::EncoderRead { .. } => Ok(
                PadPlan { op: Some(PadOperation::EncoderRead), awaits_reply: true },
            ),
            HardwareRequest::PadReset => Ok(
                PadPlan { op: Some(PadOperation::Reset), awaits_reply: false },
            ),
            HardwareRequest::SwitchRead { .. } => Ok(PadPlan { op: None, awaits_reply: false }),
            HardwareRequest::LedWrite { .. } => Ok(PadPlan { op: None, awaits_reply: false }),
        }
    }
}

/// Whether an enumerated USB port is the PAD device.
pub open spec fn is_pad_port(vid: u16, pid: u16) -> bool {
    vid == 0x2E8A && pid == 0x000A
}

/// Pick the first enumerated serial port whose USB ids name the PAD.
pub fn find_pad_port(ports: &Vec<(u16, u16)>) -> (r: Option<usize>)
    ensures
        match r {
            Some(i) => i < ports@.len() && is_pad_port(ports@[i as int].0, ports@[i as int].1)
                && forall|j: int|
                0 <= j < i ==> !is_pad_port(ports@[j].0, ports@[j].1),
            None => forall|j: int|
                0 <= j < ports@.len() ==> !is_pad_port(ports@[j].0, ports@[j].1),
        },
{
    let n = ports.len();
    let mut i: usize = 0;
    while i < n
        invariant
            i <= n,
            n == ports@.len(),
            forall|j: int| 0 <= j < i ==> !is_pad_port(ports@[j].0, ports@[j].1),
        decreases n - i,
    {
        let p = ports[i];
        if p.0 == PAD_VID && p.1 == PAD_PID {
            return Some(i);
        }
        i = i + 1;
    }
    None
}

/// Pick one encoder's count out of the reply array, refusing a port index
/// past the array's end rather than reading out of bounds.
pub fn encoder_value(values: &Vec<i32>, id: u8) -> (r: Option<PadResponse>)
    ensures
        (id as int) < values@.len() ==> r == Some(PadResponse::EncoderValue(values@[id as int])),
        (id as int) >= values@.len() ==> r is None,
{
    if (id as usize) < values.len() {
        Some(PadResponse::EncoderValue(values[id as usize]))
    } else {
        None
    }
}

/// The supervisor's reply rule: only an encoder value is sent into the
/// request's reply slot; every other response is absorbed and the slot left
/// untouched, since no client is waiting on it.
pub fn deliver_pad_response(slot: &mut ReplySlot<PadResponse>, resp: PadResponse)
    requires
        old(slot)@ is None,
    ensures
        resp is EncoderValue ==> final(slot)@ == Some(resp),
        !(resp is EncoderValue) ==> final(slot)@ is None,
{
    if matches!(resp, PadResponse::EncoderValue(_)) {
        slot.send(resp);
    }
}

} // verus!
