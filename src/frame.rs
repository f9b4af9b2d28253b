//! The frame codec: one command into a wire frame, one wire frame into a reply.
use vstd::prelude::*;

use crate::error::{DecodeError, EncodeError};
use crate::packer::{
    be_i32_bytes, be_u16_bytes, be_u16_value, be_u32_bytes, lemma_be_round_trip, splice, Packer,
    Unpacker,
};
use crate::values::{
    fields_bytes, lemma_parse_reply_prefix, lemma_selective_payload_round_trip,
    lemma_values_payload_round_trip, parse_reply, partial_values, rest, select_fields,
    selective_payload, selects, unpack_reply, values_payload, zero_values, CommandReply, Values,
    ValuesMask,
    ALL_GROUPS, GET_VALUES_ID, GET_VALUES_SELECTIVE_ID, GROUP_COUNT,
};

verus! {

/// First byte of a frame.
pub const FRAME_START: u8 = 2;

/// Last byte of a frame.
pub const FRAME_END: u8 = 3;

/// Command id of a motor current request.
pub const SET_CURRENT_ID: u8 = 6;

/// Command id of a speed request.
pub const SET_RPM_ID: u8 = 8;

/// Command id of a handbrake current request.
pub const SET_HANDBRAKE_ID: u8 = 10;

/// Command id of a request relayed over the CAN bus.
pub const FORWARD_CAN_ID: u8 = 34;

/// A command to the controller. Currents travel in milliamperes.
#[derive(Debug)]
pub enum Command {
    /// Requests every telemetry field.
    GetValues,
    /// Sets the motor current, in milliamperes; negative drives in reverse.
    SetCurrent(i32),
    /// Sets the motor speed, in electrical revolutions per minute; negative
    /// drives in reverse.
    SetRpm(i32),
    /// Sets the handbrake current, in milliamperes.
    SetHandbrake(i32),
    /// Relays the inner command to the controller with this id on the CAN bus.
    ForwardCan(u8, Box<Command>),
    /// Requests the telemetry fields that the mask selects.
    GetValuesSelective(ValuesMask),
}

/// The payload of a command: its id, then its fields.
pub open spec fn command_payload(c: Command) -> Seq<u8>
    decreases c,
{
    match c {
        Command::GetValues => seq![GET_VALUES_ID],
        Command::SetCurrent(milliamps) => seq![SET_CURRENT_ID] + be_i32_bytes(milliamps),
        Command::SetRpm(rpm) => seq![SET_RPM_ID] + be_i32_bytes(rpm),
        Command::SetHandbrake(milliamps) => seq![SET_HANDBRAKE_ID] + be_i32_bytes(milliamps),
        Command::ForwardCan(id, inner) => seq![FORWARD_CAN_ID, id] + command_payload(*inner),
        Command::GetValuesSelective(mask) => seq![GET_VALUES_SELECTIVE_ID] + be_u32_bytes(
            mask.bits,
        ),
    }
}

/// The CRC-16/XMODEM checksum of `data`.
pub uninterp spec fn crc16_xmodem(data: Seq<u8>) -> u16;

/// Relies on crc::Crc::<u16>::new(&crc::CRC_16_XMODEM) and its `checksum`:
/// the CRC-16/XMODEM checksum of the bytes, which depends on them alone.
#[verifier::external_body]
fn checksum(data: &[u8]) -> (r: u16)
    ensures
        r == crc16_xmodem(data@),
{
    crc::Crc::<u16>::new(&crc::CRC_16_XMODEM).checksum(data)
}

/// The frame that carries `payload`: start marker, length byte, payload,
/// big-endian checksum of the payload, end marker.
pub open spec fn frame_bytes(payload: Seq<u8>) -> Seq<u8> {
    seq![FRAME_START, payload.len() as u8] + payload + be_u16_bytes(crc16_xmodem(payload))
        + seq![FRAME_END]
}

proof fn lemma_splice_twice(s: Seq<u8>, at: int, a: Seq<u8>, b: Seq<u8>)
    requires
        0 <= at,
        at + a.len() + b.len() <= s.len(),
    ensures
        splice(splice(s, at, a), at + a.len(), b) == splice(s, at, a + b),
{
    assert(splice(splice(s, at, a), at + a.len(), b) =~= splice(s, at, a + b));
}

impl Command {
    /// The payload length, or `None` where it does not fit in `usize`.
    fn payload_len(&self) -> (r: Option<usize>)
        ensures
            r matches Some(n) ==> n == command_payload(*self).len(),
            r is None ==> command_payload(*self).len() > usize::MAX,
        decreases *self,
    {
        match self {
            Command::GetValues => Some(1),
            Command::SetCurrent(_) => Some(5),
            Command::SetRpm(_) => Some(5),
            Command::SetHandbrake(_) => Some(5),
            Command::ForwardCan(_, inner) => match inner.payload_len() {
                Some(n) => n.checked_add(2),
                None => None,
            },
            Command::GetValuesSelective(_) => Some(5),
        }
    }

    /// Writes the payload at the cursor, or fails where it does not fit.
    fn pack_into(&self, packer: &mut Packer) -> (r: Result<(), EncodeError>)
        ensures
            final(final(packer).buf)@ == final(old(packer).buf)@,
            old(packer).fits(command_payload(*self).len() as int) ==> r is Ok && final(packer).pos
                == old(packer).pos + command_payload(*self).len() && final(packer).buf@ == old(
                packer,
            ).written(command_payload(*self)),
            !old(packer).fits(command_payload(*self).len() as int) ==> r == Err::<(), EncodeError>(
                EncodeError::BufferTooSmall,
            ),
        decreases *self,
    {
        let ghost s = packer.buf@;
        let ghost at = packer.pos as int;
        match self {
            Command::GetValues => {
                packer.pack_u8(GET_VALUES_ID)?;
            },
            Command::SetCurrent(milliamps) => {
                packer.pack_u8(SET_CURRENT_ID)?;
                packer.pack_i32(*milliamps)?;
                proof {
                    lemma_splice_twice(s, at, seq![SET_CURRENT_ID], be_i32_bytes(*milliamps));
                }
            },
            Command::SetRpm(rpm) => {
                packer.pack_u8(SET_RPM_ID)?;
                packer.pack_i32(*rpm)?;
                proof {
                    lemma_splice_twice(s, at, seq![SET_RPM_ID], be_i32_bytes(*rpm));
                }
            },
            Command::SetHandbrake(milliamps) => {
                packer.pack_u8(SET_HANDBRAKE_ID)?;
                packer.pack_i32(*milliamps)?;
                proof {
                    lemma_splice_twice(s, at, seq![SET_HANDBRAKE_ID], be_i32_bytes(*milliamps));
                }
            },
            Command::ForwardCan(id, inner) => {
                packer.pack_u8(FORWARD_CAN_ID)?;
                packer.pack_u8(*id)?;
                inner.pack_into(packer)?;
                proof {
                    lemma_splice_twice(s, at, seq![FORWARD_CAN_ID], seq![*id]);
                    assert(seq![FORWARD_CAN_ID] + seq![*id] == seq![FORWARD_CAN_ID, *id]);
                    lemma_splice_twice(s, at, seq![FORWARD_CAN_ID, *id], command_payload(**inner));
                }
            },
            Command::GetValuesSelective(mask) => {
                packer.pack_u8(GET_VALUES_SELECTIVE_ID)?;
                packer.pack_u32(mask.bits)?;
                proof {
                    lemma_splice_twice(s, at, seq![GET_VALUES_SELECTIVE_ID], be_u32_bytes(mask.bits));
                }
            },
        }
        Ok(())
    }
}

/// The longest payload that the one-byte length field can count.
pub const MAX_PAYLOAD: usize = 255;

/// Encodes `command` as one frame at the start of `buf` and returns the frame
/// length. Fails, leaving `buf` as it was, where the frame does not fit or its
/// payload is too long for the length byte.
pub fn encode(command: Command, buf: &mut [u8]) -> (r: Result<usize, EncodeError>)
    ensures
        ({
            let p = command_payload(command);
            let f = frame_bytes(p);
            let ok = p.len() <= MAX_PAYLOAD && f.len() <= old(buf)@.len();
            &&& ok ==> r == Ok::<usize, EncodeError>(f.len() as usize) && final(buf)@ == f + old(
                buf,
            )@.skip(f.len() as int)
            &&& !ok ==> r == Err::<usize, EncodeError>(EncodeError::BufferTooSmall) && final(buf)@
                == old(buf)@
        }),
{
    let ghost p = command_payload(command);
    let room = buf.len();
    let n = match command.payload_len() {
        Some(n) => n,
        None => {
            return Err(EncodeError::BufferTooSmall);
        },
    };
    if n > MAX_PAYLOAD || n > room || room - n < 5 {
        return Err(EncodeError::BufferTooSmall);
    }
    let ghost s = buf@;
    let mut packer = Packer::new(buf);
    packer.pack_u8(FRAME_START)?;
    packer.pack_u8(0)?;
    command.pack_into(&mut packer)?;
    proof {
        lemma_splice_twice(s, 0, seq![FRAME_START], seq![0u8]);
        lemma_splice_twice(s, 0, seq![FRAME_START] + seq![0u8], p);
    }
    packer.buf[1] = n as u8;
    let sum = checksum(vstd::slice::slice_subrange(packer.buf, 2, 2 + n));
    assert(packer.buf@.subrange(2, 2 + n as int) == p);
    packer.pack_u16(sum)?;
    packer.pack_u8(FRAME_END)?;
    let len = packer.pos;
    assert(packer.buf@ =~= frame_bytes(p) + s.skip(n + 5));
    Ok(len)
}

/// A frame whose start marker, length byte and payload are valid, and whose
/// checksum field and end byte are yet to be checked.
#[derive(Debug, Clone, Copy, PartialEq, Eq, Structural)]
pub struct Frame {
    /// Bytes the whole frame takes.
    pub consumed: usize,
    /// Bytes the payload takes; it starts at offset 2.
    pub payload_len: usize,
    /// The checksum field.
    pub checksum: u16,
    /// The byte that should be the end marker.
    pub end: u8,
    /// The reply that the payload holds.
    pub reply: CommandReply,
}

/// Reads the frame at the front of `s`, in wire order: start marker, length
/// byte, payload, length against payload, then the checksum field and the end
/// byte, which are only read here.
pub open spec fn parse_frame_spec(s: Seq<u8>) -> Result<Frame, DecodeError> {
    if s.len() == 0 {
        Err(DecodeError::IncompleteData)
    } else if s[0] != FRAME_START {
        Err(DecodeError::InvalidFrame)
    } else if s.len() < 2 {
        Err(DecodeError::IncompleteData)
    } else {
        match parse_reply(s.skip(2)) {
            Err(e) => Err(e),
            Ok((reply, n)) => if s[1] != n {
                Err(DecodeError::InvalidFrame)
            } else if s.len() < n + 5 {
                Err(DecodeError::IncompleteData)
            } else {
                Ok(
                    Frame {
                        consumed: (n + 5) as usize,
                        payload_len: n as usize,
                        checksum: be_u16_value(s.subrange(n + 2int, n + 4int)),
                        end: s[n + 4int],
                        reply,
                    },
                )
            },
        }
    }
}

/// The outcome of comparing the checksum field of `f` with `actual`, the
/// checksum computed over its payload, and then checking its end marker: a
/// checksum mismatch wins over a wrong end marker.
pub open spec fn accept_spec(f: Frame, actual: u16) -> Result<(usize, CommandReply), DecodeError> {
    if f.checksum != actual {
        Err(DecodeError::ChecksumMismatch { expected: f.checksum, actual })
    } else if f.end != FRAME_END {
        Err(DecodeError::InvalidFrame)
    } else {
        Ok((f.consumed, f.reply))
    }
}

/// Decodes the frame at the front of `s`: the bytes it takes and its reply.
pub open spec fn decode_spec(s: Seq<u8>) -> Result<(usize, CommandReply), DecodeError> {
    match parse_frame_spec(s) {
        Err(e) => Err(e),
        Ok(f) => accept_spec(f, crc16_xmodem(s.subrange(2, 2 + f.payload_len))),
    }
}

/// Reads the frame at the front of `buf`, checking all but its checksum and
/// end marker.
pub fn parse_frame(buf: &[u8]) -> (r: Result<Frame, DecodeError>)
    ensures
        r == parse_frame_spec(buf@),
{
    let mut u = Unpacker::new(buf);
    let start = u.unpack_u8()?;
    if start != FRAME_START {
        return Err(DecodeError::InvalidFrame);
    }
    let len = u.unpack_u8()?;
    assert(rest(u) == buf@.skip(2));
    let reply = unpack_reply(&mut u)?;
    let n = u.pos - 2;
    if len as usize != n {
        return Err(DecodeError::InvalidFrame);
    }
    let checksum = u.unpack_u16()?;
    let end = u.unpack_u8()?;
    Ok(Frame { consumed: u.pos, payload_len: n, checksum, end, reply })
}

impl Frame {
    /// The frame's length and reply where `actual`, the checksum computed over
    /// its payload, matches the checksum field and the end marker is right;
    /// else the mismatch, or else an invalid frame.
    pub fn accept(self, actual: u16) -> (r: Result<(usize, CommandReply), DecodeError>)
        ensures
            r == accept_spec(self, actual),
    {
        if self.checksum != actual {
            Err(DecodeError::ChecksumMismatch { expected: self.checksum, actual })
        } else if self.end != FRAME_END {
            Err(DecodeError::InvalidFrame)
        } else {
            Ok((self.consumed, self.reply))
        }
    }
}

/// Decodes the frame at the front of `buf`: the bytes it takes and its reply.
pub fn decode(buf: &[u8]) -> (r: Result<(usize, CommandReply), DecodeError>)
    ensures
        r == decode_spec(buf@),
{
    let frame = parse_frame(buf)?;
    let actual = checksum(vstd::slice::slice_subrange(buf, 2, 2 + frame.payload_len));
    frame.accept(actual)
}

/// A decoded frame takes at least its five framing bytes and no more than
/// the input holds.
pub proof fn lemma_decode_length(s: Seq<u8>)
    ensures
        decode_spec(s) matches Ok((n, _)) ==> 5 <= n <= s.len(),
{
}

/// Decoding never reads past the frame: on a prefix `s` of `t` it gives what
/// it gives on `t` where the whole frame is in `s`, and reports incomplete
/// data where it is not.
pub proof fn lemma_decode_prefix(s: Seq<u8>, t: Seq<u8>)
    requires
        s.len() <= t.len(),
        s == t.take(s.len() as int),
    ensures
        decode_spec(s) is Ok ==> decode_spec(t) == decode_spec(s),
        decode_spec(t) matches Ok((n, _)) ==> if n <= s.len() {
            decode_spec(s) == decode_spec(t)
        } else {
            decode_spec(s) == Err::<(usize, CommandReply), DecodeError>(DecodeError::IncompleteData)
        },
{
    if s.len() >= 2 && s[0] == FRAME_START {
        assert(s[0] == t[0] && s[1] == t[1]);
        assert(s.skip(2) == t.skip(2).take(s.skip(2).len() as int));
        lemma_parse_reply_prefix(s.skip(2), t.skip(2));
        if let Ok((_, n)) = parse_reply(s.skip(2)) {
            if s.len() >= n + 5 {
                assert(s[n + 4int] == t[n + 4int]);
                assert(s.subrange(n + 2int, n + 4int) == t.subrange(n + 2int, n + 4int));
                assert(s.subrange(2, 2 + n as int) == t.subrange(2, 2 + n as int));
            }
        }
    } else if s.len() > 0 {
        assert(s[0] == t[0]);
    }
}

/// Every proper prefix of a frame is reported as incomplete data.
pub proof fn lemma_truncated_frame_incomplete(f: Seq<u8>, k: int)
    requires
        decode_spec(f) matches Ok((n, _)) && n == f.len(),
        0 <= k < f.len(),
    ensures
        decode_spec(f.take(k)) == Err::<(usize, CommandReply), DecodeError>(
            DecodeError::IncompleteData,
        ),
{
    lemma_decode_prefix(f.take(k), f);
}

/// What follows a frame does not change how the frame decodes.
pub proof fn lemma_decode_extend(f: Seq<u8>, tail: Seq<u8>)
    requires
        decode_spec(f) is Ok,
    ensures
        decode_spec(f + tail) == decode_spec(f),
{
    assert(f == (f + tail).take(f.len() as int));
    lemma_decode_prefix(f, f + tail);
}

/// Writing another value into the checksum field of a frame makes it fail
/// with both checksums: the one now in the field, and the payload's.
pub proof fn lemma_checksum_mutation(f: Seq<u8>, c: u16)
    requires
        decode_spec(f) matches Ok((n, _)) && n == f.len(),
        c != be_u16_value(f.subrange(f.len() - 3, f.len() - 1)),
    ensures
        decode_spec(splice(f, f.len() - 3, be_u16_bytes(c))) == Err::<
            (usize, CommandReply),
            DecodeError,
        >(
            DecodeError::ChecksumMismatch {
                expected: c,
                actual: be_u16_value(f.subrange(f.len() - 3, f.len() - 1)),
            },
        ),
{
    let g = splice(f, f.len() - 3, be_u16_bytes(c));
    let k = f.len() - 3;
    lemma_decode_length(f);
    assert(g.len() == f.len());
    let s = f.take(k);
    assert(s == g.take(k));
    assert(s.skip(2) == f.skip(2).take(s.skip(2).len() as int));
    assert(s.skip(2) == g.skip(2).take(s.skip(2).len() as int));
    lemma_parse_reply_prefix(s.skip(2), f.skip(2));
    lemma_parse_reply_prefix(s.skip(2), g.skip(2));
    lemma_be_round_trip(c, 0, 0, 0);
    assert(g.subrange(k, k + 2) == be_u16_bytes(c));
    assert(g[f.len() - 1] == f[f.len() - 1]);
    assert(g.subrange(2, k) == f.subrange(2, k));
}

/// Changing the length byte of a frame makes it invalid.
pub proof fn lemma_length_mutation(f: Seq<u8>, b: u8)
    requires
        decode_spec(f) matches Ok((n, _)) && n == f.len(),
        b != f[1],
    ensures
        decode_spec(f.update(1, b)) == Err::<(usize, CommandReply), DecodeError>(
            DecodeError::InvalidFrame,
        ),
{
    lemma_decode_length(f);
    assert(f.update(1, b).skip(2) == f.skip(2));
}

/// Replacing the start marker of a frame makes it invalid.
pub proof fn lemma_start_mutation(f: Seq<u8>, b: u8)
    requires
        decode_spec(f) matches Ok((n, _)) && n == f.len(),
        b != FRAME_START,
    ensures
        decode_spec(f.update(0, b)) == Err::<(usize, CommandReply), DecodeError>(
            DecodeError::InvalidFrame,
        ),
{
    lemma_decode_length(f);
}

/// Replacing the end marker of a frame makes it invalid.
pub proof fn lemma_end_mutation(f: Seq<u8>, b: u8)
    requires
        decode_spec(f) matches Ok((n, _)) && n == f.len(),
        b != FRAME_END,
    ensures
        decode_spec(f.update(f.len() - 1, b)) == Err::<(usize, CommandReply), DecodeError>(
            DecodeError::InvalidFrame,
        ),
{
    lemma_decode_length(f);
    let g = f.update(f.len() - 1, b);
    let s = f.take(f.len() - 1);
    assert(s == g.take(f.len() - 1));
    assert(s.skip(2) == f.skip(2).take(s.skip(2).len() as int));
    assert(s.skip(2) == g.skip(2).take(s.skip(2).len() as int));
    lemma_parse_reply_prefix(s.skip(2), f.skip(2));
    lemma_parse_reply_prefix(s.skip(2), g.skip(2));
    let k = f.len() - 5;
    assert(g.subrange(2, 2 + k) == f.subrange(2, 2 + k));
    assert(g.subrange(k + 2, k + 4) == f.subrange(k + 2, k + 4));
}

/// With both a changed checksum field and a wrong end marker, the checksum
/// mismatch is what a frame fails with.
pub proof fn lemma_checksum_wins_over_end_marker(f: Seq<u8>, c: u16, b: u8)
    requires
        decode_spec(f) matches Ok((n, _)) && n == f.len(),
        c != be_u16_value(f.subrange(f.len() - 3, f.len() - 1)),
        b != FRAME_END,
    ensures
        decode_spec(splice(f, f.len() - 3, be_u16_bytes(c)).update(f.len() - 1, b)) == Err::<
            (usize, CommandReply),
            DecodeError,
        >(
            DecodeError::ChecksumMismatch {
                expected: c,
                actual: be_u16_value(f.subrange(f.len() - 3, f.len() - 1)),
            },
        ),
{
    let g = splice(f, f.len() - 3, be_u16_bytes(c)).update(f.len() - 1, b);
    let k = f.len() - 3;
    lemma_decode_length(f);
    let s = f.take(k);
    assert(s == g.take(k));
    assert(s.skip(2) == f.skip(2).take(s.skip(2).len() as int));
    assert(s.skip(2) == g.skip(2).take(s.skip(2).len() as int));
    lemma_parse_reply_prefix(s.skip(2), f.skip(2));
    lemma_parse_reply_prefix(s.skip(2), g.skip(2));
    lemma_be_round_trip(c, 0, 0, 0);
    assert(g.subrange(k, k + 2) == be_u16_bytes(c));
    assert(g.subrange(2, k) == f.subrange(2, k));
}

/// A frame whose command id has no reply layout fails with that id.
pub proof fn lemma_unknown_id(s: Seq<u8>)
    requires
        s.len() >= 3,
        s[0] == FRAME_START,
        s[2] != GET_VALUES_ID,
        s[2] != GET_VALUES_SELECTIVE_ID,
    ensures
        decode_spec(s) == Err::<(usize, CommandReply), DecodeError>(
            DecodeError::UnknownPacket { id: s[2] },
        ),
{
    assert(s.skip(2)[0] == s[2]);
}

/// The frame of a reply payload decodes to that reply, taking the whole frame.
pub proof fn lemma_frame_round_trip(p: Seq<u8>)
    requires
        parse_reply(p) matches Ok((_, n)) && n == p.len(),
        p.len() <= 255,
    ensures
        decode_spec(frame_bytes(p)) == Ok::<(usize, CommandReply), DecodeError>(
            ((p.len() + 5) as usize, parse_reply(p)->Ok_0.0),
        ),
{
    let f = frame_bytes(p);
    let n = p.len() as int;
    assert(p == f.skip(2).take(n));
    lemma_parse_reply_prefix(p, f.skip(2));
    lemma_be_round_trip(crc16_xmodem(p), 0, 0, 0);
    assert(f.subrange(n + 2, n + 4) == be_u16_bytes(crc16_xmodem(p)));
    assert(f.subrange(2, 2 + n) == p);
    assert(f[n + 4] == FRAME_END);
}

/// Decoding the frame of a full telemetry reply gives back every value.
pub proof fn lemma_get_values_round_trip(v: Values)
    ensures
        decode_spec(frame_bytes(values_payload(v))) == Ok::<(usize, CommandReply), DecodeError>(
            ((values_payload(v).len() + 5) as usize, CommandReply::GetValues(v)),
        ),
{
    lemma_values_payload_round_trip(v);
    lemma_frame_round_trip(values_payload(v));
}

/// Decoding the frame of a selective telemetry reply gives back the selected
/// values, the others zero.
pub proof fn lemma_selective_round_trip(mask: u32, v: Values)
    ensures
        decode_spec(frame_bytes(selective_payload(mask, v))) == Ok::<
            (usize, CommandReply),
            DecodeError,
        >(
            (
                (selective_payload(mask, v).len() + 5) as usize,
                CommandReply::GetValuesSelective(select_fields(v, mask)),
            ),
        ),
{
    lemma_selective_payload_round_trip(mask, v);
    lemma_frame_round_trip(selective_payload(mask, v));
}

proof fn lemma_unselected_fields_empty(v: Values, mask: u32, g: u32)
    requires
        g <= GROUP_COUNT,
        mask & ALL_GROUPS == 0,
    ensures
        fields_bytes(v, mask, g) == Seq::<u8>::empty(),
        partial_values(v, mask, g) == zero_values(),
    decreases GROUP_COUNT - g,
{
    assert(forall|k: u32| k < 22 && #[trigger] (mask & (1u32 << k)) != 0 ==> mask & 0x3f_ffffu32
        != 0) by (bit_vector);
    if g < GROUP_COUNT {
        assert(!selects(mask, g));
        lemma_unselected_fields_empty(v, mask, (g + 1) as u32);
    }
}

/// A selective request whose mask names no field group is a frame that also
/// reads as the reply carrying no field: its frame decodes to all-zero values,
/// taking all ten bytes.
pub proof fn lemma_encode_decode_round_trip(mask: ValuesMask)
    requires
        mask.bits & ALL_GROUPS == 0,
    ensures
        decode_spec(frame_bytes(command_payload(Command::GetValuesSelective(mask)))) == Ok::<
            (usize, CommandReply),
            DecodeError,
        >((10usize, CommandReply::GetValuesSelective(zero_values()))),
{
    lemma_unselected_fields_empty(zero_values(), mask.bits, 0);
    lemma_unselected_fields_empty(zero_values(), mask.bits, GROUP_COUNT);
    assert(command_payload(Command::GetValuesSelective(mask)) == selective_payload(
        mask.bits,
        zero_values(),
    ));
    lemma_selective_round_trip(mask.bits, zero_values());
}

} // verus!
