//! The discrete H-bridge drive table: which levels the two GPIO lines of a
//! host-local motor take for each 8-bit command byte.
//!
//! The command bytes follow the signed-magnitude shape that Sabertooth-style
//! tooling emits, whose neutral points are 64 and 192; the bridge has no
//! speed control, so every byte collapses to full forward, full reverse, or
//! rest. 191 rests alongside 192 because upstream tooling rounds down and
//! may produce 191 for the neutral of the upper band.

use vstd::prelude::*;

verus! {

/// Command bytes on which the bridge rests (both lines low).
pub open spec fn is_rest(command: u8) -> bool {
    command == 0 || command == 64 || command == 191 || command == 192
}

/// Command bytes driving the bridge in reverse (line A low, line B high).
pub open spec fn is_reverse(command: u8) -> bool {
    (1 <= command && command <= 63) || (128 <= command && command <= 190)
}

/// Command bytes driving the bridge forward (line A high, line B low).
pub open spec fn is_forward(command: u8) -> bool {
    (65 <= command && command <= 127) || 193 <= command
}

/// The (line A, line B) levels driven for a command byte.
pub open spec fn spec_h_bridge_levels(command: u8) -> (u8, u8) {
    if is_rest(command) {
        (0, 0)
    } else if is_reverse(command) {
        (0, 1)
    } else {
        (1, 0)
    }
}

/// Every command byte falls under exactly one row of the drive table:
/// rest, reverse and forward partition the 256 command bytes.
pub proof fn lemma_h_bridge_partition(command: u8)
    ensures
        is_rest(command) || is_reverse(command) || is_forward(command),
        !(is_rest(command) && is_reverse(command)),
        !(is_rest(command) && is_forward(command)),
        !(is_reverse(command) && is_forward(command)),
{
}

/// Compute the levels for the two GPIO lines of an H-bridge pair.
pub fn h_bridge_levels(command: u8) -> (levels: (u8, u8))
    ensures
        levels == spec_h_bridge_levels(command),
{
    if command == 0 || command == 64 || command == 191 || command == 192 {
        (0, 0)
    } else if (1 <= command && command <= 63) || (128 <= command && command <= 190) {
        (0, 1)
    } else {
        (1, 0)
    }
}

} // verus!
