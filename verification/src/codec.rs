//! The wire codec: encoding and decoding of the two record types that cross
//! the network, in the little-endian common data representation the deployed
//! peers use. A buffer is one self-contained message: four bytes of
//! encapsulation header, then the record's fields in declaration order,
//! each primitive aligned to its own size counted from the end of the header.
//!
//! The records carry their floating-point fields as raw IEEE-754 bit
//! patterns (`u64`), so that every peer-written value round-trips through
//! decode and encode untouched; `crate::convert` relates the patterns that
//! matter in this domain to the integers of a `MoveEvent`.

use vstd::prelude::*;
use vstd::bytes::spec_u32_from_le_bytes;
use vstd::bytes::spec_u32_to_le_bytes;
use vstd::bytes::lemma_auto_spec_u32_to_from_le_bytes;
use vstd::bytes::u32_from_le_bytes;
use vstd::bytes::u32_to_le_bytes;
use vstd::bytes::spec_u64_from_le_bytes;
use vstd::bytes::spec_u64_to_le_bytes;
use vstd::bytes::lemma_auto_spec_u64_to_from_le_bytes;
use vstd::bytes::u64_from_le_bytes;
use vstd::bytes::u64_to_le_bytes;
use vstd::slice::slice_index_get;
use vstd::slice::slice_to_vec;
use vstd::slice::slice_subrange;

verus! {

/// A three-component vector of IEEE-754 doubles, each held as its raw
/// 64-bit pattern exactly as it stands on the wire.
#[derive(Debug, Copy, Clone, PartialEq, Eq, Structural)]
pub struct Vector3 {
    pub x: u64,
    pub y: u64,
    pub z: u64,
}

/// The velocity record exchanged on the command topics ("twist"): a linear
/// and an angular vector. Only `linear.x` and `angular.z` carry information
/// in this planar domain, but all six components round-trip untouched.
#[derive(Debug, Copy, Clone, PartialEq, Eq, Structural)]
pub struct VelocityMessage {
    pub linear: Vector3,
    pub angular: Vector3,
}

/// Why a buffer was rejected: too short for the record it should hold, its
/// header names an encapsulation the decoder does not read, or a text field
/// is not valid UTF-8.
#[derive(Debug, Copy, Clone, PartialEq, Eq, Structural)]
pub enum DecodeError {
    Truncated,
    Encapsulation,
    Utf8,
}

/// The header written before every encoded record: plain little-endian CDR,
/// no options.
pub open spec fn spec_encap_header() -> Seq<u8> {
    seq![0u8, 1u8, 0u8, 0u8]
}

/// The decoder accepts a buffer whose second header byte names a
/// little-endian encapsulation, plain or parameter-list; the other header
/// bytes carry no information it needs.
pub open spec fn le_encapsulation(s: Seq<u8>) -> bool
    recommends
        s.len() >= 4,
{
    s[1] == 1u8 || s[1] == 3u8
}

/// A velocity record on the wire: header, then the six components in
/// declaration order, eight little-endian bytes each, no padding (every
/// component is already eight-aligned).
pub open spec fn spec_encode_velocity(m: VelocityMessage) -> Seq<u8> {
    spec_encap_header() + spec_u64_to_le_bytes(m.linear.x) + spec_u64_to_le_bytes(m.linear.y)
        + spec_u64_to_le_bytes(m.linear.z) + spec_u64_to_le_bytes(m.angular.x)
        + spec_u64_to_le_bytes(m.angular.y) + spec_u64_to_le_bytes(m.angular.z)
}

/// The byte length of an encoded velocity record.
pub open spec fn velocity_wire_len() -> int {
    52
}

/// What decoding a buffer as a velocity record yields. Bytes past the
/// record are ignored, as the peers' decoders ignore them.
pub open spec fn spec_decode_velocity(s: Seq<u8>) -> Result<VelocityMessage, DecodeError> {
    if s.len() < 4 {
        Err(DecodeError::Truncated)
    } else if !le_encapsulation(s) {
        Err(DecodeError::Encapsulation)
    } else if s.len() < velocity_wire_len() {
        Err(DecodeError::Truncated)
    } else {
        Ok(
            VelocityMessage {
                linear: Vector3 {
                    x: spec_u64_from_le_bytes(s.subrange(4, 12)),
                    y: spec_u64_from_le_bytes(s.subrange(12, 20)),
                    z: spec_u64_from_le_bytes(s.subrange(20, 28)),
                },
                angular: Vector3 {
                    x: spec_u64_from_le_bytes(s.subrange(28, 36)),
                    y: spec_u64_from_le_bytes(s.subrange(36, 44)),
                    z: spec_u64_from_le_bytes(s.subrange(44, 52)),
                },
            },
        )
    }
}

/// Encode a velocity record for publication.
pub fn encode_velocity(m: &VelocityMessage) -> (out: Vec<u8>)
    ensures
        out@ == spec_encode_velocity(*m),
        out@.len() == velocity_wire_len(),
{
    proof {
        lemma_auto_spec_u64_to_from_le_bytes();
    }
    let mut out: Vec<u8> = Vec::new();
    out.push(0u8);
    out.push(1u8);
    out.push(0u8);
    out.push(0u8);
    let mut lx = u64_to_le_bytes(m.linear.x);
    out.append(&mut lx);
    let mut ly = u64_to_le_bytes(m.linear.y);
    out.append(&mut ly);
    let mut lz = u64_to_le_bytes(m.linear.z);
    out.append(&mut lz);
    let mut ax = u64_to_le_bytes(m.angular.x);
    out.append(&mut ax);
    let mut ay = u64_to_le_bytes(m.angular.y);
    out.append(&mut ay);
    let mut az = u64_to_le_bytes(m.angular.z);
    out.append(&mut az);
    proof {
        assert(out@ =~= spec_encode_velocity(*m));
    }
    out
}

/// Decode one buffer as a velocity record. A malformed buffer yields a
/// `DecodeError`; no buffer disturbs anything else.
pub fn decode_velocity(buf: &[u8]) -> (r: Result<VelocityMessage, DecodeError>)
    ensures
        r == spec_decode_velocity(buf@),
{
    if buf.len() < 4 {
        return Err(DecodeError::Truncated);
    }
    let tag = *slice_index_get(buf, 1);
    if !(tag == 1u8 || tag == 3u8) {
        return Err(DecodeError::Encapsulation);
    }
    if buf.len() < 52 {
        return Err(DecodeError::Truncated);
    }
    let lx = u64_from_le_bytes(slice_subrange(buf, 4, 12));
    let ly = u64_from_le_bytes(slice_subrange(buf, 12, 20));
    let lz = u64_from_le_bytes(slice_subrange(buf, 20, 28));
    let ax = u64_from_le_bytes(slice_subrange(buf, 28, 36));
    let ay = u64_from_le_bytes(slice_subrange(buf, 36, 44));
    let az = u64_from_le_bytes(slice_subrange(buf, 44, 52));
    Ok(
        VelocityMessage {
            linear: Vector3 { x: lx, y: ly, z: lz },
            angular: Vector3 { x: ax, y: ay, z: az },
        },
    )
}

/// Round trip: decoding what `encode_velocity` wrote gives the record back,
/// for every record.
pub proof fn lemma_velocity_round_trip(m: VelocityMessage)
    ensures
        spec_decode_velocity(spec_encode_velocity(m)) == Ok::<VelocityMessage, DecodeError>(m),
{
    lemma_auto_spec_u64_to_from_le_bytes();
    let s = spec_encode_velocity(m);
    assert(s.len() == 52);
    assert(s.subrange(4, 12) =~= spec_u64_to_le_bytes(m.linear.x));
    assert(s.subrange(12, 20) =~= spec_u64_to_le_bytes(m.linear.y));
    assert(s.subrange(20, 28) =~= spec_u64_to_le_bytes(m.linear.z));
    assert(s.subrange(28, 36) =~= spec_u64_to_le_bytes(m.angular.x));
    assert(s.subrange(36, 44) =~= spec_u64_to_le_bytes(m.angular.y));
    assert(s.subrange(44, 52) =~= spec_u64_to_le_bytes(m.angular.z));
}

/// Robustness: every buffer shorter than a velocity record is rejected as
/// truncated or as an unreadable encapsulation, never accepted.
pub proof fn lemma_short_velocity_rejected(s: Seq<u8>)
    requires
        s.len() < velocity_wire_len(),
    ensures
        spec_decode_velocity(s) is Err,
{
}

/// A message timestamp: seconds and nanoseconds.
#[derive(Debug, Copy, Clone, PartialEq, Eq, Structural)]
pub struct LogTime {
    pub sec: i32,
    pub nanosec: u32,
}

/// The telemetry record received on the log topic. Its text fields are held
/// as the raw bytes from the wire — validated as UTF-8 by the decoder, so a
/// well-formed record round-trips untouched; `crate::text` renders them for
/// display.
#[derive(Debug, Clone, PartialEq, Eq)]
#[verifier::ext_equal]
pub struct LogEntry {
    pub stamp: LogTime,
    pub level: u8,
    pub source: Vec<u8>,
    pub message: Vec<u8>,
    pub file: Vec<u8>,
    pub function: Vec<u8>,
    pub line: u32,
}

/// The mathematical content of a log record: its numbers and the byte
/// sequences of its text fields.
#[verifier::ext_equal]
pub struct LogView {
    pub sec: i32,
    pub nanosec: u32,
    pub level: u8,
    pub source: Seq<u8>,
    pub message: Seq<u8>,
    pub file: Seq<u8>,
    pub function: Seq<u8>,
    pub line: u32,
}

impl View for LogEntry {
    type V = LogView;

    open spec fn view(&self) -> LogView {
        LogView {
            sec: self.stamp.sec,
            nanosec: self.stamp.nanosec,
            level: self.level,
            source: self.source@,
            message: self.message@,
            file: self.file@,
            function: self.function@,
            line: self.line,
        }
    }
}

/// A text field fits on the wire: its length, plus one for the terminator,
/// fits the four-byte length prefix.
pub open spec fn str_len_ok(v: Seq<u8>) -> bool {
    v.len() + 1 <= 0xFFFF_FFFF
}

/// Whether a byte continues a multi-byte UTF-8 character.
pub open spec fn utf8_cont(b: u8) -> bool {
    0x80 <= b <= 0xBF
}

/// Whether a byte sequence is well-formed UTF-8, by the shortest-form
/// character table: one leading byte naming the character's width, each
/// continuation byte in range, overlong forms, surrogates and values past
/// the last code point refused.
pub open spec fn utf8_ok(s: Seq<u8>) -> bool
    decreases s.len(),
{
    if s.len() == 0 {
        true
    } else {
        let b0 = s[0];
        if b0 < 0x80 {
            utf8_ok(s.skip(1))
        } else if b0 < 0xC2 {
            false
        } else if b0 <= 0xDF {
            s.len() >= 2 && utf8_cont(s[1]) && utf8_ok(s.skip(2))
        } else if b0 == 0xE0 {
            s.len() >= 3 && 0xA0 <= s[1] <= 0xBF && utf8_cont(s[2]) && utf8_ok(s.skip(3))
        } else if b0 == 0xED {
            s.len() >= 3 && 0x80 <= s[1] <= 0x9F && utf8_cont(s[2]) && utf8_ok(s.skip(3))
        } else if b0 <= 0xEF {
            s.len() >= 3 && utf8_cont(s[1]) && utf8_cont(s[2]) && utf8_ok(s.skip(3))
        } else if b0 == 0xF0 {
            s.len() >= 4 && 0x90 <= s[1] <= 0xBF && utf8_cont(s[2]) && utf8_cont(s[3]) && utf8_ok(
                s.skip(4),
            )
        } else if b0 <= 0xF3 {
            s.len() >= 4 && utf8_cont(s[1]) && utf8_cont(s[2]) && utf8_cont(s[3]) && utf8_ok(
                s.skip(4),
            )
        } else if b0 == 0xF4 {
            s.len() >= 4 && 0x80 <= s[1] <= 0x8F && utf8_cont(s[2]) && utf8_cont(s[3]) && utf8_ok(
                s.skip(4),
            )
        } else {
            false
        }
    }
}

/// A log record all of whose text fields fit on the wire.
pub open spec fn log_len_ok(x: LogView) -> bool {
    &&& str_len_ok(x.source)
    &&& str_len_ok(x.message)
    &&& str_len_ok(x.file)
    &&& str_len_ok(x.function)
}

/// A log record as a peer would produce it: every text field fits on the
/// wire and is valid UTF-8.
pub open spec fn log_wf(x: LogView) -> bool {
    &&& log_len_ok(x)
    &&& utf8_ok(x.source)
    &&& utf8_ok(x.message)
    &&& utf8_ok(x.file)
    &&& utf8_ok(x.function)
}

/// How many zero bytes align a position to the next four-byte boundary.
pub open spec fn pad_len(n: int) -> int {
    (4 - n % 4) % 4
}

/// The padding written at a position.
pub open spec fn pad4(n: int) -> Seq<u8> {
    Seq::new(pad_len(n) as nat, |i: int| 0u8)
}

/// The next four-aligned position at or after `n`.
pub open spec fn align4(n: int) -> int {
    n + pad_len(n)
}

/// A text field on the wire: padding to a four-byte boundary, the length
/// including the terminating zero, the bytes, the terminating zero.
pub open spec fn spec_append_str(s: Seq<u8>, v: Seq<u8>) -> Seq<u8> {
    s + pad4(s.len() as int) + spec_u32_to_le_bytes((v.len() + 1) as u32) + v + seq![0u8]
}

/// A log record on the wire: header, timestamp, level, then the four text
/// fields and the line number, each four-aligned.
pub open spec fn spec_encode_log(x: LogView) -> Seq<u8> {
    let a = spec_encap_header() + spec_u32_to_le_bytes(x.sec as u32) + spec_u32_to_le_bytes(
        x.nanosec,
    ) + seq![x.level];
    let b = spec_append_str(a, x.source);
    let c = spec_append_str(b, x.message);
    let d = spec_append_str(c, x.file);
    let e = spec_append_str(d, x.function);
    e + pad4(e.len() as int) + spec_u32_to_le_bytes(x.line)
}

/// Reading one length-prefixed text field at a position: the length, then
/// that many bytes of which the last is the terminator and is dropped, and
/// the field must read as UTF-8, as the peers' decoders demand. A zero
/// length yields an empty field, as those decoders take it.
pub open spec fn spec_take_str(s: Seq<u8>, pos: int) -> Result<(Seq<u8>, int), DecodeError> {
    if pos + 4 > s.len() {
        Err(DecodeError::Truncated)
    } else {
        let n = spec_u32_from_le_bytes(s.subrange(pos, pos + 4)) as int;
        if pos + 4 + n > s.len() {
            Err(DecodeError::Truncated)
        } else if n == 0 {
            Ok((Seq::empty(), pos + 4))
        } else if utf8_ok(s.subrange(pos + 4, pos + 4 + n - 1)) {
            Ok((s.subrange(pos + 4, pos + 4 + n - 1), pos + 4 + n))
        } else {
            Err(DecodeError::Utf8)
        }
    }
}

/// What decoding a buffer as a log record yields. Padding bytes are skipped
/// unexamined and bytes past the record are ignored, as the peers' decoders
/// skip and ignore them.
pub open spec fn spec_decode_log(s: Seq<u8>) -> Result<LogView, DecodeError> {
    if s.len() < 4 {
        Err(DecodeError::Truncated)
    } else if !le_encapsulation(s) {
        Err(DecodeError::Encapsulation)
    } else if s.len() < 13 {
        Err(DecodeError::Truncated)
    } else {
        let sec = spec_u32_from_le_bytes(s.subrange(4, 8)) as i32;
        let nanosec = spec_u32_from_le_bytes(s.subrange(8, 12));
        let level = s[12];
        match spec_take_str(s, 16) {
            Err(e) => Err(e),
            Ok((source, p1)) => match spec_take_str(s, align4(p1)) {
                Err(e) => Err(e),
                Ok((message, p2)) => match spec_take_str(s, align4(p2)) {
                    Err(e) => Err(e),
                    Ok((file, p3)) => match spec_take_str(s, align4(p3)) {
                        Err(e) => Err(e),
                        Ok((function, p4)) => if align4(p4) + 4 > s.len() {
                            Err(DecodeError::Truncated)
                        } else {
                            Ok(
                                LogView {
                                    sec,
                                    nanosec,
                                    level,
                                    source,
                                    message,
                                    file,
                                    function,
                                    line: spec_u32_from_le_bytes(
                                        s.subrange(align4(p4), align4(p4) + 4),
                                    ),
                                },
                            )
                        },
                    },
                },
            },
        }
    }
}

/// Append a four-byte little-endian word.
fn push_u32_le(out: &mut Vec<u8>, v: u32)
    ensures
        final(out)@ == old(out)@ + spec_u32_to_le_bytes(v),
{
    let mut word = u32_to_le_bytes(v);
    out.append(&mut word);
}

/// Append the zero bytes that bring the buffer to the next four-byte
/// boundary.
fn pad_to_4(out: &mut Vec<u8>)
    ensures
        final(out)@ == old(out)@ + pad4(old(out)@.len() as int),
{
    let rem = out.len() % 4;
    if rem == 1 {
        out.push(0u8);
        out.push(0u8);
        out.push(0u8);
    } else if rem == 2 {
        out.push(0u8);
        out.push(0u8);
    } else if rem == 3 {
        out.push(0u8);
    }
    proof {
        assert(out@ =~= old(out)@ + pad4(old(out)@.len() as int));
    }
}

/// Append one text field: padding, length including the terminator, bytes,
/// terminator.
fn push_str_field(out: &mut Vec<u8>, v: &Vec<u8>)
    requires
        str_len_ok(v@),
    ensures
        final(out)@ == spec_append_str(old(out)@, v@),
{
    pad_to_4(out);
    let n: u32 = v.len() as u32 + 1;
    push_u32_le(out, n);
    out.extend_from_slice(v.as_slice());
    out.push(0u8);
    proof {
        assert(out@ =~= spec_append_str(old(out)@, v@));
    }
}

/// Encode a log record as the peers' decoders expect it.
pub fn encode_log(x: &LogEntry) -> (out: Vec<u8>)
    requires
        log_len_ok(x@),
    ensures
        out@ == spec_encode_log(x@),
{
    let mut out: Vec<u8> = Vec::new();
    out.push(0u8);
    out.push(1u8);
    out.push(0u8);
    out.push(0u8);
    push_u32_le(&mut out, x.stamp.sec as u32);
    push_u32_le(&mut out, x.stamp.nanosec);
    out.push(x.level);
    proof {
        assert(out@ =~= spec_encap_header() + spec_u32_to_le_bytes(x.stamp.sec as u32)
            + spec_u32_to_le_bytes(x.stamp.nanosec) + seq![x.level]);
    }
    push_str_field(&mut out, &x.source);
    push_str_field(&mut out, &x.message);
    push_str_field(&mut out, &x.file);
    push_str_field(&mut out, &x.function);
    pad_to_4(&mut out);
    push_u32_le(&mut out, x.line);
    out
}

/// Check whether the bytes are well-formed UTF-8, one character at a time.
fn check_utf8(v: &Vec<u8>) -> (r: bool)
    ensures
        r == utf8_ok(v@),
{
    let n = v.len();
    let mut i: usize = 0;
    proof {
        assert(v@.skip(0) =~= v@);
    }
    while i < n
        invariant
            i <= n,
            n == v@.len(),
            utf8_ok(v@) == utf8_ok(v@.skip(i as int)),
        decreases n - i,
    {
        let b0 = v[i];
        proof {
            assert(v@.skip(i as int)[0] == b0);
        }
        if b0 < 0x80 {
            proof {
                assert(v@.skip(i as int).skip(1) =~= v@.skip(i as int + 1));
            }
            i = i + 1;
        } else if b0 < 0xC2 {
            return false;
        } else if b0 <= 0xDF {
            if n - i < 2 {
                return false;
            }
            let b1 = v[i + 1];
            proof {
                assert(v@.skip(i as int)[1] == b1);
            }
            if !(0x80 <= b1 && b1 <= 0xBF) {
                return false;
            }
            proof {
                assert(v@.skip(i as int).skip(2) =~= v@.skip(i as int + 2));
            }
            i = i + 2;
        } else if b0 <= 0xEF {
            if n - i < 3 {
                return false;
            }
            let b1 = v[i + 1];
            let b2 = v[i + 2];
            proof {
                assert(v@.skip(i as int)[1] == b1);
                assert(v@.skip(i as int)[2] == b2);
            }
            let first_ok = if b0 == 0xE0 {
                0xA0 <= b1 && b1 <= 0xBF
            } else if b0 == 0xED {
                0x80 <= b1 && b1 <= 0x9F
            } else {
                0x80 <= b1 && b1 <= 0xBF
            };
            if !first_ok {
                return false;
            }
            if !(0x80 <= b2 && b2 <= 0xBF) {
                return false;
            }
            proof {
                assert(v@.skip(i as int).skip(3) =~= v@.skip(i as int + 3));
            }
            i = i + 3;
        } else if b0 <= 0xF4 {
            if n - i < 4 {
                return false;
            }
            let b1 = v[i + 1];
            let b2 = v[i + 2];
            let b3 = v[i + 3];
            proof {
                assert(v@.skip(i as int)[1] == b1);
                assert(v@.skip(i as int)[2] == b2);
                assert(v@.skip(i as int)[3] == b3);
            }
            let first_ok = if b0 == 0xF0 {
                0x90 <= b1 && b1 <= 0xBF
            } else if b0 == 0xF4 {
                0x80 <= b1 && b1 <= 0x8F
            } else {
                0x80 <= b1 && b1 <= 0xBF
            };
            if !first_ok {
                return false;
            }
            if !(0x80 <= b2 && b2 <= 0xBF) {
                return false;
            }
            if !(0x80 <= b3 && b3 <= 0xBF) {
                return false;
            }
            proof {
                assert(v@.skip(i as int).skip(4) =~= v@.skip(i as int + 4));
            }
            i = i + 4;
        } else {
            return false;
        }
    }
    true
}

/// Read one text field at a position; any position past the buffer reads as
/// truncated.
fn take_str(buf: &[u8], pos: usize) -> (r: Result<(Vec<u8>, usize), DecodeError>)
    ensures
        match r {
            Ok(p) => spec_take_str(buf@, pos as int) == Ok::<(Seq<u8>, int), DecodeError>(
                (p.0@, p.1 as int),
            ) && p.1 <= buf@.len(),
            Err(e) => spec_take_str(buf@, pos as int) == Err::<(Seq<u8>, int), DecodeError>(e),
        },
{
    if pos >= buf.len() || buf.len() - pos < 4 {
        return Err(DecodeError::Truncated);
    }
    let n_word = u32_from_le_bytes(slice_subrange(buf, pos, pos + 4));
    let n = n_word as usize;
    if n > buf.len() - (pos + 4) {
        return Err(DecodeError::Truncated);
    }
    if n == 0 {
        let empty: Vec<u8> = Vec::new();
        proof {
            assert(empty@ =~= Seq::<u8>::empty());
        }
        return Ok((empty, pos + 4));
    }
    let bytes = slice_to_vec(slice_subrange(buf, pos + 4, pos + 4 + n - 1));
    if !check_utf8(&bytes) {
        return Err(DecodeError::Utf8);
    }
    Ok((bytes, pos + 4 + n))
}

/// Skip the padding before a four-aligned item; padding that would run past
/// the buffer reads as truncated.
fn skip_pad(buf: &[u8], pos: usize) -> (r: Result<usize, DecodeError>)
    requires
        pos <= buf@.len(),
    ensures
        match r {
            Ok(p) => p == align4(pos as int) && p <= buf@.len(),
            Err(e) => e == DecodeError::Truncated && align4(pos as int) > buf@.len(),
        },
{
    let rem = pos % 4;
    if rem == 0 {
        Ok(pos)
    } else {
        let add = 4 - rem;
        if add <= buf.len() - pos {
            Ok(pos + add)
        } else {
            Err(DecodeError::Truncated)
        }
    }
}

/// Decode one buffer as a log record. A malformed buffer yields a
/// `DecodeError`; no buffer disturbs anything else.
pub fn decode_log(buf: &[u8]) -> (r: Result<LogEntry, DecodeError>)
    ensures
        match r {
            Ok(x) => spec_decode_log(buf@) == Ok::<LogView, DecodeError>(x@),
            Err(e) => spec_decode_log(buf@) == Err::<LogView, DecodeError>(e),
        },
{
    if buf.len() < 4 {
        return Err(DecodeError::Truncated);
    }
    let tag = *slice_index_get(buf, 1);
    if !(tag == 1u8 || tag == 3u8) {
        return Err(DecodeError::Encapsulation);
    }
    if buf.len() < 13 {
        return Err(DecodeError::Truncated);
    }
    let sec = u32_from_le_bytes(slice_subrange(buf, 4, 8)) as i32;
    let nanosec = u32_from_le_bytes(slice_subrange(buf, 8, 12));
    let level = *slice_index_get(buf, 12);
    let source = match take_str(buf, 16) {
        Ok(p) => p,
        Err(e) => {
            return Err(e);
        },
    };
    let q1 = match skip_pad(buf, source.1) {
        Ok(p) => p,
        Err(e) => {
            return Err(e);
        },
    };
    let message = match take_str(buf, q1) {
        Ok(p) => p,
        Err(e) => {
            return Err(e);
        },
    };
    let q2 = match skip_pad(buf, message.1) {
        Ok(p) => p,
        Err(e) => {
            return Err(e);
        },
    };
    let file = match take_str(buf, q2) {
        Ok(p) => p,
        Err(e) => {
            return Err(e);
        },
    };
    let q3 = match skip_pad(buf, file.1) {
        Ok(p) => p,
        Err(e) => {
            return Err(e);
        },
    };
    let function = match take_str(buf, q3) {
        Ok(p) => p,
        Err(e) => {
            return Err(e);
        },
    };
    let q4 = match skip_pad(buf, function.1) {
        Ok(p) => p,
        Err(e) => {
            return Err(e);
        },
    };
    if buf.len() - q4 < 4 {
        return Err(DecodeError::Truncated);
    }
    let line = u32_from_le_bytes(slice_subrange(buf, q4, q4 + 4));
    let entry = LogEntry {
        stamp: LogTime { sec, nanosec },
        level,
        source: source.0,
        message: message.0,
        file: file.0,
        function: function.0,
        line,
    };
    proof {
        assert(spec_decode_log(buf@) == Ok::<LogView, DecodeError>(entry@));
    }
    Ok(entry)
}

/// Reading a text field back from where `spec_append_str` put it yields the
/// field and ends where the appended part ends, whatever follows.
proof fn lemma_take_appended_str(front: Seq<u8>, v: Seq<u8>, rest: Seq<u8>)
    requires
        str_len_ok(v),
        utf8_ok(v),
    ensures
        spec_take_str(spec_append_str(front, v) + rest, align4(front.len() as int)) == Ok::<
            (Seq<u8>, int),
            DecodeError,
        >((v, spec_append_str(front, v).len() as int)),
        spec_append_str(front, v).len() == align4(front.len() as int) + 4 + v.len() + 1,
{
    lemma_auto_spec_u32_to_from_le_bytes();
    let n = (v.len() + 1) as u32;
    let s = spec_append_str(front, v) + rest;
    let p0 = front.len() as int;
    let q = align4(p0);
    assert(spec_append_str(front, v).len() == q + 4 + v.len() + 1);
    assert(s.subrange(q, q + 4) =~= spec_u32_to_le_bytes(n));
    assert(spec_u32_from_le_bytes(s.subrange(q, q + 4)) == n);
    assert(s.subrange(q + 4, q + 4 + n) =~= v + seq![0u8]);
    assert(s.subrange(q + 4, q + 4 + n - 1) =~= v);
}

/// Round trip: decoding what `encode_log` wrote gives the record back, for
/// every record whose text fields fit on the wire and read as UTF-8.
#[verifier::spinoff_prover]
#[verifier::rlimit(60)]
pub proof fn lemma_log_round_trip(x: LogView)
    requires
        log_wf(x),
    ensures
        spec_decode_log(spec_encode_log(x)) == Ok::<LogView, DecodeError>(x),
{
    lemma_auto_spec_u32_to_from_le_bytes();
    let a = spec_encap_header() + spec_u32_to_le_bytes(x.sec as u32) + spec_u32_to_le_bytes(
        x.nanosec,
    ) + seq![x.level];
    let b = spec_append_str(a, x.source);
    let c = spec_append_str(b, x.message);
    let d = spec_append_str(c, x.file);
    let e = spec_append_str(d, x.function);
    let s = spec_encode_log(x);
    assert(a.len() == 13);
    let t2 = c.subrange(b.len() as int, c.len() as int);
    let t3 = d.subrange(c.len() as int, d.len() as int);
    let t4 = e.subrange(d.len() as int, e.len() as int);
    let t5 = s.subrange(e.len() as int, s.len() as int);
    assert(c =~= b + t2);
    assert(d =~= c + t3);
    assert(e =~= d + t4);
    assert(s =~= e + t5);

    assert(s =~= spec_append_str(a, x.source) + (t2 + t3 + t4 + t5));
    lemma_take_appended_str(a, x.source, t2 + t3 + t4 + t5);
    assert(spec_take_str(s, 16) == Ok::<(Seq<u8>, int), DecodeError>((x.source, b.len() as int)));

    assert(s =~= spec_append_str(b, x.message) + (t3 + t4 + t5));
    lemma_take_appended_str(b, x.message, t3 + t4 + t5);

    assert(s =~= spec_append_str(c, x.file) + (t4 + t5));
    lemma_take_appended_str(c, x.file, t4 + t5);

    assert(s =~= spec_append_str(d, x.function) + t5);
    lemma_take_appended_str(d, x.function, t5);

    assert(s.len() == align4(e.len() as int) + 4);
    assert(s[1] == 1u8);
    assert(s.subrange(4, 8) =~= spec_u32_to_le_bytes(x.sec as u32));
    assert(s.subrange(8, 12) =~= spec_u32_to_le_bytes(x.nanosec));
    assert(s[12] == x.level);
    assert(s.subrange(align4(e.len() as int), align4(e.len() as int) + 4) =~= spec_u32_to_le_bytes(
        x.line,
    ));
    let sec = x.sec;
    assert(((sec as u32) as i32) == sec) by (bit_vector);
    assert(spec_decode_log(s) == Ok::<LogView, DecodeError>(x));
}

/// Every `Ok` of `spec_take_str` lands at least four bytes further on and
/// inside the buffer.
proof fn lemma_take_str_advances(s: Seq<u8>, pos: int)
    requires
        spec_take_str(s, pos) is Ok,
    ensures
        spec_take_str(s, pos)->Ok_0.1 >= pos + 4,
        spec_take_str(s, pos)->Ok_0.1 <= s.len(),
{
}

/// Robustness: every buffer shorter than the smallest log record is
/// rejected, never accepted: the fixed fields, four length prefixes and the
/// line number alone span thirty-six bytes.
pub proof fn lemma_short_log_rejected(s: Seq<u8>)
    requires
        s.len() < 36,
    ensures
        spec_decode_log(s) is Err,
{
    if s.len() >= 13 && le_encapsulation(s) {
        if spec_take_str(s, 16) is Ok {
            let p1 = spec_take_str(s, 16)->Ok_0.1;
            lemma_take_str_advances(s, 16);
            if spec_take_str(s, align4(p1)) is Ok {
                let p2 = spec_take_str(s, align4(p1))->Ok_0.1;
                lemma_take_str_advances(s, align4(p1));
                if spec_take_str(s, align4(p2)) is Ok {
                    let p3 = spec_take_str(s, align4(p2))->Ok_0.1;
                    lemma_take_str_advances(s, align4(p2));
                    if spec_take_str(s, align4(p3)) is Ok {
                        let p4 = spec_take_str(s, align4(p3))->Ok_0.1;
                        lemma_take_str_advances(s, align4(p3));
                        assert(p4 >= 32);
                        assert(align4(p4) + 4 > s.len());
                    }
                }
            }
        }
    }
}

} // verus!
