//! The binary frame format of the PAD serial link.
//!
//! Every operation is one compact binary frame: a one-byte operation tag,
//! then the operation's fields. Bytes are carried raw; multi-byte unsigned
//! integers are carried as base-128 varints, little end first, with the top
//! bit of each byte marking continuation; signed 32-bit values (encoder
//! counts) are zigzag-folded into unsigned values first. The PAD replies
//! only to `EncoderRead` (five zigzag-varint counts, one per encoder slot)
//! and to `VersionReport` (a raw UTF-8 byte string, not framed here).

use vstd::prelude::*;

verus! {

/// One operation on the PAD serial wire.
#[derive(Debug, Clone, PartialEq, Eq)]
pub enum PadOperation {
    KeepAlive,
    SabertoothWrite(u8, u8),
    SmartelexWrite(u8, [u8; 5]),
    EncoderRead,
    PwmWrite(u8, u16),
    VersionReport,
    Reset,
}

/// The mathematical shape of a wire operation, with the Smartelex payload
/// as a byte sequence.
#[verifier::ext_equal]
pub enum PadOpModel {
    KeepAlive,
    SabertoothWrite(u8, u8),
    SmartelexWrite(u8, Seq<u8>),
    EncoderRead,
    PwmWrite(u8, u16),
    VersionReport,
    Reset,
}

impl View for PadOperation {
    type V = PadOpModel;

    open spec fn view(&self) -> PadOpModel {
        match self {
            PadOperation::KeepAlive => PadOpModel::KeepAlive,
            PadOperation::SabertoothWrite(port, cmd) => PadOpModel::SabertoothWrite(*port, *cmd),
            PadOperation::SmartelexWrite(port, payload) => PadOpModel::SmartelexWrite(
                *port,
                payload@,
            ),
            PadOperation::EncoderRead => PadOpModel::EncoderRead,
            PadOperation::PwmWrite(port, duty) => PadOpModel::PwmWrite(*port, *duty),
            PadOperation::VersionReport => PadOpModel::VersionReport,
            PadOperation::Reset => PadOpModel::Reset,
        }
    }
}

/// A model operation that some `PadOperation` value can take: the Smartelex
/// payload holds exactly five bytes.
pub open spec fn wf_pad_op(op: PadOpModel) -> bool {
    op matches PadOpModel::SmartelexWrite(_, payload) ==> payload.len() == 5
}

/// The base-128 varint encoding of an unsigned value.
pub open spec fn spec_varint(v: nat) -> Seq<u8>
    decreases v,
{
    if v < 128 {
        seq![v as u8]
    } else {
        seq![(v % 128 + 128) as u8] + spec_varint(v / 128)
    }
}

/// Exclusive upper bound of the values a varint of `max_len` bytes holds.
pub open spec fn varint_bound(max_len: nat) -> nat
    decreases max_len,
{
    if max_len == 0 {
        1
    } else {
        128 * varint_bound((max_len - 1) as nat)
    }
}

/// Parse a varint of at most `max_len` bytes from the front of `s`,
/// yielding the value and the bytes consumed.
pub open spec fn spec_parse_varint(s: Seq<u8>, max_len: nat) -> Option<(nat, int)>
    decreases max_len,
{
    if max_len == 0 || s.len() == 0 {
        None
    } else if s[0] < 128 {
        Some((s[0] as nat, 1))
    } else {
        match spec_parse_varint(s.drop_first(), (max_len - 1) as nat) {
            Some((v, n)) => Some((((s[0] - 128) + 128 * v) as nat, n + 1)),
            None => None,
        }
    }
}

/// Varint bounds are positive.
pub proof fn lemma_varint_bound_pos(max_len: nat)
    ensures
        varint_bound(max_len) >= 1,
    decreases max_len,
{
    if max_len > 0 {
        lemma_varint_bound_pos((max_len - 1) as nat);
    }
}

/// Varint bounds grow with the permitted length.
pub proof fn lemma_varint_bound_le(a: nat, b: nat)
    requires
        a <= b,
    ensures
        varint_bound(a) <= varint_bound(b),
    decreases b,
{
    if a < b {
        lemma_varint_bound_le(a, (b - 1) as nat);
        lemma_varint_bound_pos((b - 1) as nat);
    }
}

/// A parsed varint's value stays under the bound of its permitted length,
/// and consumes between one byte and that length.
pub proof fn lemma_parse_varint_bound(s: Seq<u8>, max_len: nat)
    ensures
        spec_parse_varint(s, max_len) matches Some((v, n)) ==> v < varint_bound(max_len) && 1 <= n
            <= max_len && n <= s.len(),
    decreases max_len,
{
    if max_len > 0 && s.len() > 0 {
        lemma_varint_bound_pos((max_len - 1) as nat);
        if s[0] >= 128 {
            lemma_parse_varint_bound(s.drop_first(), (max_len - 1) as nat);
            match spec_parse_varint(s.drop_first(), (max_len - 1) as nat) {
                Some((v, n)) => {
                    assert((s[0] - 128) + 128 * v < 128 * varint_bound((max_len - 1) as nat));
                },
                None => {},
            }
        }
    }
}

/// Parsing the encoding of any value that fits the permitted length gives
/// the value back and consumes exactly the encoding, whatever follows it.
pub proof fn lemma_varint_round_trip(v: nat, rest: Seq<u8>, max_len: nat)
    requires
        1 <= max_len,
        v < varint_bound(max_len),
    ensures
        spec_parse_varint(spec_varint(v) + rest, max_len) == Some(
            (v, spec_varint(v).len() as int),
        ),
    decreases v,
{
    let s = spec_varint(v) + rest;
    if v < 128 {
        assert(s[0] == v as u8);
    } else {
        assert(varint_bound(max_len) == 128 * varint_bound((max_len - 1) as nat));
        assert(v / 128 < varint_bound((max_len - 1) as nat));
        assert(s[0] == (v % 128 + 128) as u8);
        assert(s.drop_first() =~= spec_varint(v / 128) + rest);
        lemma_varint_round_trip(v / 128, rest, (max_len - 1) as nat);
        assert((s[0] - 128) + 128 * (v / 128) == v) by {
            assert(s[0] == (v % 128 + 128) as u8);
            assert(v % 128 + 128 * (v / 128) == v) by {
                vstd::arithmetic::div_mod::lemma_fundamental_div_mod(v as int, 128);
            }
        }
    }
}

/// The zigzag fold of a signed 32-bit value: non-negative values map to the
/// even numbers, negative values to the odd ones.
pub open spec fn spec_zigzag(v: i32) -> nat {
    if v >= 0 {
        (2 * v) as nat
    } else {
        (-2 * v - 1) as nat
    }
}

/// The inverse unfolding of a zigzag value.
pub open spec fn spec_unzigzag(z: nat) -> i32 {
    if z % 2 == 0 {
        (z / 2) as i32
    } else {
        (-(((z + 1) / 2) as int)) as i32
    }
}

/// Unfolding after folding yields the original signed value.
pub proof fn lemma_zigzag_round_trip(v: i32)
    ensures
        spec_zigzag(v) < 4294967296,
        spec_unzigzag(spec_zigzag(v)) == v,
{
}

/// Unfold a wire value back to its signed form.
pub fn unzigzag(z: u32) -> (v: i32)
    ensures
        v == spec_unzigzag(z as nat),
{
    if z % 2 == 0 {
        (z / 2) as i32
    } else {
        -((z / 2) as i32) - 1
    }
}

/// Append the varint encoding of a value to a byte buffer.
pub fn push_varint(out: &mut Vec<u8>, v: u64)
    ensures
        final(out)@ == old(out)@ + spec_varint(v as nat),
    decreases v,
{
    if v < 128 {
        out.push(v as u8);
        assert(final(out)@ =~= old(out)@ + spec_varint(v as nat));
    } else {
        let b = (v % 128 + 128) as u8;
        out.push(b);
        push_varint(out, v / 128);
        assert(final(out)@ =~= old(out)@ + spec_varint(v as nat));
    }
}

/// Parse a varint of at most `max_len` bytes starting at `pos`.
pub fn parse_varint(buf: &Vec<u8>, pos: usize, max_len: u8) -> (r: Option<(u64, usize)>)
    requires
        pos <= buf@.len(),
        max_len <= 5,
    ensures
        match spec_parse_varint(buf@.skip(pos as int), max_len as nat) {
            Some((v, n)) => r matches Some((rv, rn)) && rv as nat == v && rn == n && pos + n
                <= buf@.len(),
            None => r is None,
        },
    decreases max_len,
{
    let ghost s = buf@.skip(pos as int);
    proof {
        lemma_parse_varint_bound(s, max_len as nat);
    }
    if max_len == 0 || pos == buf.len() {
        return None;
    }
    let b = buf[pos];
    if b < 128 {
        Some((b as u64, 1))
    } else {
        proof {
            assert(s.drop_first() =~= buf@.skip(pos as int + 1));
            lemma_parse_varint_bound(s.drop_first(), (max_len - 1) as nat);
        }
        match parse_varint(buf, pos + 1, max_len - 1) {
            Some((v, n)) => {
                proof {
                    lemma_varint_bound_le((max_len - 1) as nat, 4);
                    reveal_with_fuel(varint_bound, 6);
                    assert(varint_bound(4) == 268435456);
                }
                let val = ((b - 128) as u64) + 128 * v;
                Some((val, n + 1))
            },
            None => None,
        }
    }
}


/// The wire frame of one operation: a one-byte tag, then the fields.
pub open spec fn spec_encode_op(op: PadOpModel) -> Seq<u8> {
    match op {
        PadOpModel::KeepAlive => seq![0u8],
        PadOpModel::SabertoothWrite(port, cmd) => seq![1u8, port, cmd],
        PadOpModel::SmartelexWrite(port, payload) => seq![2u8, port] + payload,
        PadOpModel::EncoderRead => seq![3u8],
        PadOpModel::PwmWrite(port, duty) => seq![4u8, port] + spec_varint(duty as nat),
        PadOpModel::VersionReport => seq![5u8],
        PadOpModel::Reset => seq![6u8],
    }
}

/// Parse one operation frame from the front of `s`, yielding the operation
/// and the bytes consumed. An unknown tag, a short frame, or a PWM duty
/// outside 16 bits is malformed.
pub open spec fn spec_parse_op(s: Seq<u8>) -> Option<(PadOpModel, int)> {
    if s.len() == 0 {
        None
    } else if s[0] == 0 {
        Some((PadOpModel::KeepAlive, 1))
    } else if s[0] == 1 {
        if s.len() >= 3 {
            Some((PadOpModel::SabertoothWrite(s[1], s[2]), 3))
        } else {
            None
        }
    } else if s[0] == 2 {
        if s.len() >= 7 {
            Some((PadOpModel::SmartelexWrite(s[1], s.subrange(2, 7)), 7))
        } else {
            None
        }
    } else if s[0] == 3 {
        Some((PadOpModel::EncoderRead, 1))
    } else if s[0] == 4 {
        if s.len() >= 2 {
            match spec_parse_varint(s.skip(2), 3) {
                Some((v, n)) => if v < 65536 {
                    Some((PadOpModel::PwmWrite(s[1], v as u16), 2 + n))
                } else {
                    None
                },
                None => None,
            }
        } else {
            None
        }
    } else if s[0] == 5 {
        Some((PadOpModel::VersionReport, 1))
    } else if s[0] == 6 {
        Some((PadOpModel::Reset, 1))
    } else {
        None
    }
}

/// Decoding the frame of any operation yields the operation back and
/// consumes the whole frame.
pub proof fn lemma_pad_wire_round_trip(op: PadOpModel)
    requires
        wf_pad_op(op),
    ensures
        spec_parse_op(spec_encode_op(op)) == Some((op, spec_encode_op(op).len() as int)),
{
    let s = spec_encode_op(op);
    match op {
        PadOpModel::SmartelexWrite(port, payload) => {
            assert(s.subrange(2, 7) =~= payload);
            assert(spec_parse_op(s) matches Some((m, n)) && m =~= op && n == s.len());
        },
        PadOpModel::PwmWrite(port, duty) => {
            reveal_with_fuel(varint_bound, 4);
            assert(varint_bound(3) == 2097152);
            assert(s.skip(2) =~= spec_varint(duty as nat) + Seq::<u8>::empty());
            lemma_varint_round_trip(duty as nat, Seq::<u8>::empty(), 3);
            assert(spec_varint(duty as nat) + Seq::<u8>::empty() =~= spec_varint(duty as nat));
            assert(s.len() == 2 + spec_varint(duty as nat).len());
        },
        _ => {},
    }
}

/// Encode one operation for the serial wire.
pub fn encode_op(op: &PadOperation) -> (out: Vec<u8>)
    ensures
        out@ == spec_encode_op(op@),
{
    let mut out: Vec<u8> = Vec::new();
    match op {
        PadOperation::KeepAlive => {
            out.push(0);
        },
        PadOperation::SabertoothWrite(port, cmd) => {
            out.push(1);
            out.push(*port);
            out.push(*cmd);
        },
        PadOperation::SmartelexWrite(port, payload) => {
            out.push(2);
            out.push(*port);
            let mut i: usize = 0;
            while i < 5
                invariant
                    i <= 5,
                    out@ == seq![2u8, *port] + payload@.take(i as int),
                decreases 5 - i,
            {
                out.push(payload[i]);
                proof {
                    assert(out@ =~= seq![2u8, *port] + payload@.take(i as int + 1));
                }
                i = i + 1;
            }
            proof {
                assert(payload@.take(5) =~= payload@);
            }
        },
        PadOperation::EncoderRead => {
            out.push(3);
        },
        PadOperation::PwmWrite(port, duty) => {
            out.push(4);
            out.push(*port);
            push_varint(&mut out, *duty as u64);
        },
        PadOperation::VersionReport => {
            out.push(5);
        },
        PadOperation::Reset => {
            out.push(6);
        },
    }
    proof {
        assert(out@ =~= spec_encode_op(op@));
    }
    out
}

/// Decode one operation frame starting at `pos`.
pub fn decode_op(buf: &Vec<u8>, pos: usize) -> (r: Option<(PadOperation, usize)>)
    requires
        pos <= buf@.len(),
    ensures
        match spec_parse_op(buf@.skip(pos as int)) {
            Some((m, n)) => r matches Some((op, used)) && op@ == m && used == n && pos + n
                <= buf@.len(),
            None => r is None,
        },
{
    let ghost s = buf@.skip(pos as int);
    if pos == buf.len() {
        return None;
    }
    let tag = buf[pos];
    if tag == 0 {
        Some((PadOperation::KeepAlive, 1))
    } else if tag == 1 {
        if buf.len() - pos >= 3 {
            Some((PadOperation::SabertoothWrite(buf[pos + 1], buf[pos + 2]), 3))
        } else {
            None
        }
    } else if tag == 2 {
        if buf.len() - pos >= 7 {
            let payload: [u8; 5] = [
                buf[pos + 2],
                buf[pos + 3],
                buf[pos + 4],
                buf[pos + 5],
                buf[pos + 6],
            ];
            proof {
                assert(payload@ =~= s.subrange(2, 7));
            }
            Some((PadOperation::SmartelexWrite(buf[pos + 1], payload), 7))
        } else {
            None
        }
    } else if tag == 3 {
        Some((PadOperation::EncoderRead, 1))
    } else if tag == 4 {
        if buf.len() - pos >= 2 {
            proof {
                assert(s.skip(2) =~= buf@.skip(pos as int + 2));
            }
            match parse_varint(buf, pos + 2, 3) {
                Some((v, n)) => if v < 65536 {
                    Some((PadOperation::PwmWrite(buf[pos + 1], v as u16), 2 + n))
                } else {
                    None
                },
                None => None,
            }
        } else {
            None
        }
    } else if tag == 5 {
        Some((PadOperation::VersionReport, 1))
    } else if tag == 6 {
        Some((PadOperation::Reset, 1))
    } else {
        None
    }
}


/// Parse one signed 32-bit value from the front of `s`: a zigzag-folded
/// varint of at most five bytes.
pub open spec fn spec_parse_i32(s: Seq<u8>) -> Option<(i32, int)> {
    match spec_parse_varint(s, 5) {
        Some((z, n)) => if z < 4294967296 {
            Some((spec_unzigzag(z), n))
        } else {
            None
        },
        None => None,
    }
}

/// Parse `count` signed 32-bit values from the front of `s`.
pub open spec fn spec_parse_i32s(s: Seq<u8>, count: nat) -> Option<(Seq<i32>, int)>
    decreases count,
{
    if count == 0 {
        Some((Seq::empty(), 0))
    } else {
        match spec_parse_i32(s) {
            Some((v, n)) => match spec_parse_i32s(s.skip(n), (count - 1) as nat) {
                Some((vs, m)) => Some((seq![v] + vs, n + m)),
                None => None,
            },
            None => None,
        }
    }
}

/// Parse one signed 32-bit value at `pos`.
fn parse_i32(buf: &Vec<u8>, pos: usize) -> (r: Option<(i32, usize)>)
    requires
        pos <= buf@.len(),
    ensures
        match spec_parse_i32(buf@.skip(pos as int)) {
            Some((v, n)) => r matches Some((rv, rn)) && rv == v && rn == n && pos + rn
                <= buf@.len(),
            None => r is None,
        },
{
    match parse_varint(buf, pos, 5) {
        Some((z, n)) => {
            if z < 4294967296 {
                Some((unzigzag(z as u32), n))
            } else {
                None
            }
        },
        None => None,
    }
}

/// Decode the PAD's reply to an encoder read: one signed 32-bit count per
/// encoder slot, five slots in all. Trailing bytes are ignored; a short or
/// malformed reply is refused.
pub fn decode_encoder_values(buf: &Vec<u8>) -> (r: Option<Vec<i32>>)
    ensures
        match spec_parse_i32s(buf@, 5) {
            Some((vs, n)) => r matches Some(values) && values@ == vs && values@.len() == 5,
            None => r is None,
        },
{
    match parse_i32s(buf, 0, 5) {
        Some((values, _)) => {
            proof {
                assert(buf@.skip(0) =~= buf@);
            }
            Some(values)
        },
        None => {
            proof {
                assert(buf@.skip(0) =~= buf@);
            }
            None
        },
    }
}

/// Parse `count` signed 32-bit values at `pos`.
fn parse_i32s(buf: &Vec<u8>, pos: usize, count: u8) -> (r: Option<(Vec<i32>, usize)>)
    requires
        pos <= buf@.len(),
    ensures
        match spec_parse_i32s(buf@.skip(pos as int), count as nat) {
            Some((vs, n)) => r matches Some((values, used)) && values@ == vs && used == n && pos
                + used <= buf@.len() && values@.len() == count as nat,
            None => r is None,
        },
    decreases count,
{
    proof {
        assert(buf.len() == buf@.len());
    }
    if count == 0 {
        let values: Vec<i32> = Vec::new();
        proof {
            assert(values@ =~= Seq::<i32>::empty());
        }
        return Some((values, 0));
    }
    match parse_i32(buf, pos) {
        Some((v, n)) => {
            proof {
                assert(buf@.skip(pos as int).skip(n as int) =~= buf@.skip(pos as int + n as int));
            }
            match parse_i32s(buf, pos + n, count - 1) {
                Some((mut values, m)) => {
                    values.insert(0, v);
                    proof {
                        assert(values@ =~= seq![v] + values@.drop_first());
                    }
                    Some((values, n + m))
                },
                None => None,
            }
        },
        None => None,
    }
}

} // verus!
