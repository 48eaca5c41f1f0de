//! The local actor's decision core: translating semantic requests into GPIO
//! and PWM-expander actions on the host's own peripherals.
//!
//! The sysfs GPIO lines and the I2C PWM expander are owned by the
//! surrounding process; this module owns the name tables and decides, for
//! each request, which lines are driven to which levels, which line is
//! sampled, or which PWM channel is set to which duty.

use vstd::prelude::*;

use crate::config::{assoc, table_view, Config};
use crate::duty;
use crate::duty::spec_duty;
use crate::hbridge;
use crate::hbridge::spec_h_bridge_levels;
use crate::reply::ReplySlot;
use crate::request::{HardwareRequest, LocalResponse, ReqModel};

verus! {

/// The direction a GPIO line is configured with at startup.
#[derive(Debug, Clone, Copy, PartialEq, Eq, Structural)]
pub enum PinDirection {
    In,
    Out,
}

/// Why the local actor could not carry a request out.
#[derive(Debug, Clone, Copy, PartialEq, Eq, Structural)]
pub enum LocalError {
    /// The named device is not in the local tables.
    InvalidName,
    /// A servo is configured with a PWM channel past the expander's sixteen.
    InvalidChannel,
    /// An empty motor command carries no drive byte.
    InvalidCommand,
    /// The request kind belongs to the PAD, not to the host.
    CannotHandleLocally,
}

/// One request enveloped for the local actor, with the single-use reply
/// slot bound to this dispatch.
pub struct LocalRequest {
    pub body: HardwareRequest,
    pub tx: ReplySlot<LocalResponse>,
}

impl LocalRequest {
    /// Envelope a request for the local actor, with a fresh reply slot.
    pub fn from_hardware_request(body: HardwareRequest) -> (r: Self)
        ensures
            r.body == body,
            r.tx@ is None,
    {
        LocalRequest { body, tx: ReplySlot::empty() }
    }
}

/// What the local actor decides for one request: levels to drive on GPIO
/// lines, a line to sample, or a PWM channel setting.
#[derive(Debug)]
pub enum LocalPlan {
    WritePins { writes: Vec<(u64, u8)> },
    ReadSwitch { line: u64 },
    SetPwm { channel: u8, on_counts: u16, off_counts: u16 },
}

/// The value of a plan, with the pin writes as a sequence.
#[verifier::ext_equal]
pub enum LocalPlanModel {
    WritePins(Seq<(u64, u8)>),
    ReadSwitch(u64),
    SetPwm(u8, u16, u16),
}

impl View for LocalPlan {
    type V = LocalPlanModel;

    open spec fn view(&self) -> LocalPlanModel {
        match self {
            LocalPlan::WritePins { writes } => LocalPlanModel::WritePins(writes@),
            LocalPlan::ReadSwitch { line } => LocalPlanModel::ReadSwitch(*line),
            LocalPlan::SetPwm { channel, on_counts, off_counts } => LocalPlanModel::SetPwm(
                *channel,
                *on_counts,
                *off_counts,
            ),
        }
    }
}

/// The host-local name tables: limit switches and status LEDs to GPIO
/// lines, H-bridge motors to GPIO line pairs, servos to PCA9685 channels.
#[derive(Debug)]
pub struct LocalConnections {
    pub limit_switches: Vec<(String, u64)>,
    pub h_bridge: Vec<(String, [u64; 2])>,
    pub status_leds: Vec<(String, u64)>,
    pub servos: Vec<(String, u8)>,
}

/// Copy a name table, entry for entry.
fn copy_table<V: Copy>(src: &Vec<(String, V)>) -> (r: Vec<(String, V)>)
    ensures
        table_view(r@) == table_view(src@),
{
    let mut r: Vec<(String, V)> = Vec::new();
    let n = src.len();
    let mut i: usize = 0;
    while i < n
        invariant
            i <= n,
            n == src@.len(),
            r@.len() == i,
            forall|j: int| 0 <= j < i ==> r@[j].0@ == src@[j].0@ && r@[j].1 == src@[j].1,
        decreases n - i,
    {
        let p = &src[i];
        let name = p.0.clone();
        r.push((name, p.1));
        i = i + 1;
    }
    proof {
        assert(table_view(r@) =~= table_view(src@));
    }
    r
}

impl LocalConnections {
    /// Build the local tables from the configuration's system partition,
    /// refusing a servo channel past the PCA9685's sixteen. The hardware
    /// handles themselves (exported lines, the opened expander) stay with
    /// the surrounding process.
    pub fn from_config(config: &Config) -> (r: Result<LocalConnections, LocalError>)
        ensures
            (r matches Ok(lc) ==> table_view(lc.limit_switches@) == table_view(
                config.system.limit_switches@,
            ) && table_view(lc.h_bridge@) == table_view(config.system.motors@) && table_view(
                lc.status_leds@,
            ) == table_view(config.system.status_leds@) && table_view(lc.servos@) == table_view(
                config.system.servos@,
            )),
            (r is Ok <==> forall|i: int|
                0 <= i < config.system.servos@.len() ==> config.system.servos@[i].1 <= 15),
            (r is Err ==> r == Err::<LocalConnections, LocalError>(LocalError::InvalidChannel)),
    {
        let n = config.system.servos.len();
        let mut i: usize = 0;
        while i < n
            invariant
                i <= n,
                n == config.system.servos@.len(),
                forall|j: int| 0 <= j < i ==> config.system.servos@[j].1 <= 15,
            decreases n - i,
        {
            if config.system.servos[i].1 > 15 {
                return Err(LocalError::InvalidChannel);
            }
            i = i + 1;
        }
        Ok(
            LocalConnections {
                limit_switches: copy_table(&config.system.limit_switches),
                h_bridge: copy_table(&config.system.motors),
                status_leds: copy_table(&config.system.status_leds),
                servos: copy_table(&config.system.servos),
            },
        )
    }

    /// The ordered directions of every owned GPIO line: switches as inputs,
    /// then each H-bridge pair and every LED as outputs. The surrounding
    /// process must export all the lines, wait for the attribute nodes to
    /// appear, and only then set the directions in this order.
    pub fn setup_pins(&self) -> (plan: Vec<(u64, PinDirection)>)
        ensures
            plan@ == spec_setup_plan(self),
    {
        let mut plan: Vec<(u64, PinDirection)> = Vec::new();
        let ghost switches_part = self.limit_switches@.map_values(
            |p: (String, u64)| (p.1, PinDirection::In),
        );
        let n1 = self.limit_switches.len();
        let mut i: usize = 0;
        while i < n1
            invariant
                i <= n1,
                n1 == self.limit_switches@.len(),
                switches_part == self.limit_switches@.map_values(
                    |p: (String, u64)| (p.1, PinDirection::In),
                ),
                plan@ =~= switches_part.take(i as int),
            decreases n1 - i,
        {
            plan.push((self.limit_switches[i].1, PinDirection::In));
            proof {
                assert(plan@ =~= switches_part.take(i as int + 1));
            }
            i = i + 1;
        }
        proof {
            assert(switches_part.take(n1 as int) =~= switches_part);
        }
        let n2 = self.h_bridge.len();
        let mut k: usize = 0;
        while k < n2
            invariant
                k <= n2,
                n2 == self.h_bridge@.len(),
                switches_part == self.limit_switches@.map_values(
                    |p: (String, u64)| (p.1, PinDirection::In),
                ),
                plan@ =~= switches_part + spec_bridge_dirs(self.h_bridge@.take(k as int)),
            decreases n2 - k,
        {
            let pins = self.h_bridge[k].1;
            plan.push((pins[0], PinDirection::Out));
            plan.push((pins[1], PinDirection::Out));
            proof {
                lemma_bridge_dirs_snoc(self.h_bridge@.take(k as int), self.h_bridge@[k as int]);
                assert(self.h_bridge@.take(k as int).push(self.h_bridge@[k as int])
                    =~= self.h_bridge@.take(k as int + 1));
                assert(plan@ =~= switches_part + spec_bridge_dirs(
                    self.h_bridge@.take(k as int + 1),
                ));
            }
            k = k + 1;
        }
        proof {
            assert(self.h_bridge@.take(n2 as int) =~= self.h_bridge@);
        }
        let ghost leds_part = self.status_leds@.map_values(
            |p: (String, u64)| (p.1, PinDirection::Out),
        );
        let n3 = self.status_leds.len();
        let mut m: usize = 0;
        while m < n3
            invariant
                m <= n3,
                n3 == self.status_leds@.len(),
                switches_part == self.limit_switches@.map_values(
                    |p: (String, u64)| (p.1, PinDirection::In),
                ),
                leds_part == self.status_leds@.map_values(
                    |p: (String, u64)| (p.1, PinDirection::Out),
                ),
                plan@ =~= switches_part + spec_bridge_dirs(self.h_bridge@) + leds_part.take(
                    m as int,
                ),
            decreases n3 - m,
        {
            plan.push((self.status_leds[m].1, PinDirection::Out));
            proof {
                assert(plan@ =~= switches_part + spec_bridge_dirs(self.h_bridge@)
                    + leds_part.take(m as int + 1));
            }
            m = m + 1;
        }
        proof {
            assert(leds_part.take(n3 as int) =~= leds_part);
            assert(plan@ =~= spec_setup_plan(self));
        }
        plan
    }

    /// Translate one enveloped request into its peripheral plan.
    pub fn respond(&self, lrq: &LocalRequest) -> (r: Result<LocalPlan, LocalError>)
        ensures
            match spec_local_respond(self, lrq.body@) {
                Ok(m) => r matches Ok(plan) && plan@ == m,
                Err(e) => r == Err::<LocalPlan, LocalError>(e),
            },
    {
        match &lrq.body {
            HardwareRequest::SwitchRead { switch } => match crate::config::lookup(
                &self.limit_switches,
                switch,
            ) {
                Some(line) => Ok(LocalPlan::ReadSwitch { line }),
                None => Err(LocalError::InvalidName),
            },
            HardwareRequest::ServoWrite { servo, position } => match crate::config::lookup(
                &self.servos,
                servo,
            ) {
                Some(channel) => Ok(
                    LocalPlan::SetPwm {
                        channel,
                        on_counts: 0,
                        off_counts: duty::microseconds_to_analog_value(*position),
                    },
                ),
                None => Err(LocalError::InvalidName),
            },
            HardwareRequest::LedWrite { led, state } => match crate::config::lookup(
                &self.status_leds,
                led,
            ) {
                Some(line) => {
                    let level: u8 = if *state == 0 {
                        0
                    } else {
                        1
                    };
                    let writes: Vec<(u64, u8)> = vec![(line, level)];
                    proof {
                        assert(writes@ =~= seq![(line, level)]);
                    }
                    Ok(LocalPlan::WritePins { writes })
                },
                None => Err(LocalError::InvalidName),
            },
            HardwareRequest::MotorWrite { motor, command } => match crate::config::lookup(
                &self.h_bridge,
                motor,
            ) {
                Some(pins) => {
                    if command.len() == 0 {
                        return Err(LocalError::InvalidCommand);
                    }
                    let levels = hbridge::h_bridge_levels(command[0]);
                    let writes: Vec<(u64, u8)> = vec![(pins[0], levels.0), (pins[1], levels.1)];
                    proof {
                        assert(writes@ =~= seq![
                            (pins@[0], spec_h_bridge_levels(lrq.body@->MotorWrite_command[0]).0),
                            (pins@[1], spec_h_bridge_levels(lrq.body@->MotorWrite_command[0]).1),
                        ]);
                    }
                    Ok(LocalPlan::WritePins { writes })
                },
                None => Err(LocalError::InvalidName),
            },
            HardwareRequest::EncoderRead { .. } => Err(LocalError::CannotHandleLocally),
            HardwareRequest::PadReset => Err(LocalError::CannotHandleLocally),
        }
    }
}

/// The output directions of every H-bridge pair, in table order.
pub open spec fn spec_bridge_dirs(s: Seq<(String, [u64; 2])>) -> Seq<(u64, PinDirection)>
    decreases s.len(),
{
    if s.len() == 0 {
        Seq::empty()
    } else {
        seq![(s[0].1@[0], PinDirection::Out), (s[0].1@[1], PinDirection::Out)] + spec_bridge_dirs(
            s.drop_first(),
        )
    }
}

/// Appending one table entry appends its pair of output directions.
proof fn lemma_bridge_dirs_snoc(s: Seq<(String, [u64; 2])>, e: (String, [u64; 2]))
    ensures
        spec_bridge_dirs(s.push(e)) == spec_bridge_dirs(s) + seq![
            (e.1@[0], PinDirection::Out),
            (e.1@[1], PinDirection::Out),
        ],
    decreases s.len(),
{
    let t = s.push(e);
    let pair_e = seq![(e.1@[0], PinDirection::Out), (e.1@[1], PinDirection::Out)];
    assert(t.len() == s.len() + 1);
    if s.len() == 0 {
        assert(t[0] == e);
        assert(t.drop_first() =~= Seq::<(String, [u64; 2])>::empty());
        assert(spec_bridge_dirs(t) == seq![
            (t[0].1@[0], PinDirection::Out),
            (t[0].1@[1], PinDirection::Out),
        ] + spec_bridge_dirs(t.drop_first()));
        assert(spec_bridge_dirs(t) =~= spec_bridge_dirs(s) + pair_e);
    } else {
        assert(t[0] == s[0]);
        assert(t.drop_first() =~= s.drop_first().push(e));
        lemma_bridge_dirs_snoc(s.drop_first(), e);
        let pair_0 = seq![(s[0].1@[0], PinDirection::Out), (s[0].1@[1], PinDirection::Out)];
        assert(seq![(t[0].1@[0], PinDirection::Out), (t[0].1@[1], PinDirection::Out)] =~= pair_0);
        assert(spec_bridge_dirs(t) == seq![
            (t[0].1@[0], PinDirection::Out),
            (t[0].1@[1], PinDirection::Out),
        ] + spec_bridge_dirs(t.drop_first()));
        assert(spec_bridge_dirs(t) == pair_0 + (spec_bridge_dirs(s.drop_first()) + pair_e));
        assert(pair_0 + (spec_bridge_dirs(s.drop_first()) + pair_e) =~= (pair_0
            + spec_bridge_dirs(s.drop_first())) + pair_e);
        assert(spec_bridge_dirs(s) == pair_0 + spec_bridge_dirs(s.drop_first()));
    }
}

/// The mandated setup order: every switch line as input, then both lines of
/// every H-bridge and every LED line as outputs.
pub open spec fn spec_setup_plan(lc: &LocalConnections) -> Seq<(u64, PinDirection)> {
    lc.limit_switches@.map_values(|p: (String, u64)| (p.1, PinDirection::In)) + spec_bridge_dirs(
        lc.h_bridge@,
    ) + lc.status_leds@.map_values(|p: (String, u64)| (p.1, PinDirection::Out))
}

/// The translation table of the local actor. A switch read samples the
/// switch's line; a servo write sets the servo's PWM channel on at count
/// zero and off at the pulse's duty count; an LED write drives the LED's
/// line, any nonzero level normalised to one; a motor write drives the
/// bridge pair with the drive table's levels for the command's first byte,
/// an empty command being rejected; encoder reads and resets belong to the
/// PAD. A name absent from its table is refused.
pub open spec fn spec_local_respond(lc: &LocalConnections, body: ReqModel) -> Result<
    LocalPlanModel,
    LocalError,
> {
    match body {
        ReqModel::SwitchRead { switch } => match assoc(table_view(lc.limit_switches@), switch) {
            Some(line) => Ok(LocalPlanModel::ReadSwitch(line)),
            None => Err(LocalError::InvalidName),
        },
        ReqModel::ServoWrite { servo, position } => match assoc(table_view(lc.servos@), servo) {
            Some(channel) => Ok(LocalPlanModel::SetPwm(channel, 0, spec_duty(position) as u16)),
            None => Err(LocalError::InvalidName),
        },
        ReqModel::LedWrite { led, state } => match assoc(table_view(lc.status_leds@), led) {
            Some(line) => Ok(
                LocalPlanModel::WritePins(
                    seq![
                        (line, if state == 0 {
                            0u8
                        } else {
                            1u8
                        }),
                    ],
                ),
            ),
            None => Err(LocalError::InvalidName),
        },
        ReqModel::MotorWrite { motor, command } => match assoc(table_view(lc.h_bridge@), motor) {
            Some(pins) => if command.len() == 0 {
                Err(LocalError::InvalidCommand)
            } else {
                Ok(
                    LocalPlanModel::WritePins(
                        seq![
                            (pins@[0], spec_h_bridge_levels(command[0]).0),
                            (pins@[1], spec_h_bridge_levels(command[0]).1),
                        ],
                    ),
                )
            },
            None => Err(LocalError::InvalidName),
        },
        ReqModel::EncoderRead { .. } => Err(LocalError::CannotHandleLocally),
        ReqModel::PadReset => Err(LocalError::CannotHandleLocally),
    }
}

/// The reply a sampled switch level denotes: on exactly when the line reads
/// one.
pub fn switch_response(value: u8) -> (r: LocalResponse)
    ensures
        r == LocalResponse::SwitchOn(value == 1),
{
    LocalResponse::SwitchOn(value == 1)
}

/// The supervisor's reply rule for the local actor: only a switch level is
/// sent into the request's reply slot; every other response is absorbed.
pub fn deliver_local_response(slot: &mut ReplySlot<LocalResponse>, resp: LocalResponse)
    requires
        old(slot)@ is None,
    ensures
        resp is SwitchOn ==> final(slot)@ == Some(resp),
        !(resp is SwitchOn) ==> final(slot)@ is None,
{
    if matches!(resp, LocalResponse::SwitchOn(_)) {
        slot.send(resp);
    }
}

} // verus!
