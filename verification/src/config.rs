//! The immutable routing configuration and the resolver that maps a semantic
//! request to the back-end owning the named device.

use vstd::prelude::*;

use crate::request::{HardwareRequest, ReqModel};

verus! {

/// Devices owned by the PAD microcontroller: each name maps to the 8-bit
/// port index the PAD firmware knows it by.
pub struct PadConfig {
    pub motors: Vec<(String, u8)>,
    pub encoders: Vec<(String, u8)>,
    pub servos: Vec<(String, u8)>,
}

/// Devices wired to the host itself: GPIO line numbers for switches and
/// LEDs, GPIO line pairs for H-bridge motors, PCA9685 channels (0 to 15)
/// for local servos, and the I2C device path of the PCA9685.
pub struct SystemConfig {
    pub motors: Vec<(String, [u64; 2])>,
    pub limit_switches: Vec<(String, u64)>,
    pub status_leds: Vec<(String, u64)>,
    pub servos: Vec<(String, u8)>,
    pub pca9685_path: String,
}

/// The whole routing table, constructed once at startup and never mutated.
pub struct Config {
    pub pad: PadConfig,
    pub system: SystemConfig,
}

/// The back-end a request resolves to: the PAD link, with the port index
/// the firmware expects, or the host-local actor.
#[derive(Debug, Clone, Copy, PartialEq, Eq, Structural)]
pub enum Handler {
    Pad(u8),
    System,
}

/// First-match lookup in an association list of (name, value) pairs.
pub open spec fn assoc<V>(entries: Seq<(Seq<char>, V)>, name: Seq<char>) -> Option<V>
    decreases entries.len(),
{
    if entries.len() == 0 {
        None
    } else if entries[0].0 == name {
        Some(entries[0].1)
    } else {
        assoc(entries.drop_first(), name)
    }
}

/// The value-level contents of a name table: each owned string replaced by
/// the character sequence it denotes.
pub open spec fn table_view<V>(entries: Seq<(String, V)>) -> Seq<(Seq<char>, V)> {
    entries.map_values(|p: (String, V)| (p.0@, p.1))
}

proof fn lemma_assoc_step<V>(s: Seq<(Seq<char>, V)>, name: Seq<char>, i: int)
    requires
        0 <= i < s.len(),
    ensures
        s[i].0 == name ==> assoc(s.skip(i), name) == Some(s[i].1),
        s[i].0 != name ==> assoc(s.skip(i), name) == assoc(s.skip(i + 1), name),
{
    assert(s.skip(i)[0] == s[i]);
    assert(s.skip(i).drop_first() =~= s.skip(i + 1));
}

/// Linear scan of a name table, returning the value of the first entry
/// whose name matches.
pub fn lookup<V: Copy>(entries: &Vec<(String, V)>, name: &String) -> (r: Option<V>)
    ensures
        r == assoc(table_view(entries@), name@),
{
    let ghost t = table_view(entries@);
    proof {
        assert(t.skip(0) =~= t);
    }
    let n = entries.len();
    let mut i: usize = 0;
    while i < n
        invariant
            i <= n,
            n == entries.len(),
            t == table_view(entries@),
            t.len() == n,
            assoc(t, name@) == assoc(t.skip(i as int), name@),
        decreases n - i,
    {
        proof {
            lemma_assoc_step(t, name@, i as int);
        }
        if entries[i].0 == *name {
            return Some(entries[i].1);
        }
        i = i + 1;
    }
    proof {
        assert(t.skip(n as int) =~= Seq::<(Seq<char>, V)>::empty());
    }
    None
}

/// Where a request belongs, as a function of the configuration alone.
///
/// Motor and servo names declared under the PAD section shadow identically
/// named system entries; encoder reads exist only on the PAD; switch and
/// LED requests are always host-local; a PAD reset always goes to the PAD.
/// A name found nowhere resolves to `None`.
pub open spec fn spec_resolve(c: &Config, r: ReqModel) -> Option<Handler> {
    match r {
        ReqModel::ServoWrite { servo, .. } => match assoc(table_view(c.pad.servos@), servo) {
            Some(port) => Some(Handler::Pad(port)),
            None => match assoc(table_view(c.system.servos@), servo) {
                Some(_) => Some(Handler::System),
                None => None,
            },
        },
        ReqModel::MotorWrite { motor, .. } => match assoc(table_view(c.pad.motors@), motor) {
            Some(port) => Some(Handler::Pad(port)),
            None => match assoc(table_view(c.system.motors@), motor) {
                Some(_) => Some(Handler::System),
                None => None,
            },
        },
        ReqModel::EncoderRead { encoder } => match assoc(table_view(c.pad.encoders@), encoder) {
            Some(port) => Some(Handler::Pad(port)),
            None => None,
        },
        ReqModel::SwitchRead { .. } => Some(Handler::System),
        ReqModel::LedWrite { .. } => Some(Handler::System),
        ReqModel::PadReset => Some(Handler::Pad(0)),
    }
}

impl Config {
    /// Map a request to its back-end. Total over all requests and all
    /// configurations, and a pure function of the two: repeated calls on
    /// the same arguments return the same answer.
    pub fn resolve(&self, hrq: &HardwareRequest) -> (r: Option<Handler>)
        ensures
            r == spec_resolve(self, hrq@),
    {
        match hrq {
            HardwareRequest::ServoWrite { servo, .. } => match lookup(&self.pad.servos, servo) {
                Some(port) => Some(Handler::Pad(port)),
                None => match lookup(&self.system.servos, servo) {
                    Some(_) => Some(Handler::System),
                    None => None,
                },
            },
            HardwareRequest::MotorWrite { motor, .. } => match lookup(&self.pad.motors, motor) {
                Some(port) => Some(Handler::Pad(port)),
                None => match lookup(&self.system.motors, motor) {
                    Some(_) => Some(Handler::System),
                    None => None,
                },
            },
            HardwareRequest::EncoderRead { encoder } => match lookup(
                &self.pad.encoders,
                encoder,
            ) {
                Some(port) => Some(Handler::Pad(port)),
                None => None,
            },
            HardwareRequest::SwitchRead { .. } => Some(Handler::System),
            HardwareRequest::LedWrite { .. } => Some(Handler::System),
            HardwareRequest::PadReset => Some(Handler::Pad(0)),
        }
    }
}

} // verus!
