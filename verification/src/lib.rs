//! Request-routing and back-end-mediation core of a hardware daemon.
//!
//! The daemon accepts semantic hardware commands on a local socket and fans
//! them out to two back-ends: an auxiliary microcontroller (the PAD) reached
//! over a serial link, and host-local peripherals (GPIO lines and a PCA9685
//! PWM expander). This crate holds the verified core: the wire codecs for
//! both links, the configuration-driven resolver, the translation layers of
//! the two actors, the reply-slot discipline, and the session bookkeeping.
//! The surrounding process (sockets, serial and GPIO handles, timers) is
//! ordinary unverified code that calls into this crate.

pub mod request;
pub mod config;
pub mod duty;
pub mod hbridge;
pub mod reply;
pub mod pad_wire;
pub mod client_wire;
pub mod pad;
pub mod local;
pub mod session;
