//! Rendering a received log record as one display line, in the shape
//! `[sec.nanosec] [source]: message`. The line is built byte by byte with an
//! exact specification; only the final reading of those bytes as text leans
//! on the standard library's lossy UTF-8 conversion.

use vstd::prelude::*;
use crate::codec::LogEntry;
use crate::codec::LogView;

verus! {

/// The decimal digits of a number, most significant first.
pub open spec fn dec_digits(n: nat) -> Seq<u8>
    decreases n,
{
    if n < 10 {
        seq![(n + 48) as u8]
    } else {
        dec_digits(n / 10) + seq![(n % 10 + 48) as u8]
    }
}

/// The decimal digits of a signed number: a leading minus sign when it is
/// negative, then the digits of its magnitude.
pub open spec fn dec_digits_signed(v: i32) -> Seq<u8> {
    if v < 0 {
        seq![45u8] + dec_digits((-(v as int)) as nat)
    } else {
        dec_digits(v as nat)
    }
}

/// Write an unsigned number in decimal.
fn push_u32_dec(out: &mut Vec<u8>, n: u32)
    ensures
        final(out)@ == old(out)@ + dec_digits(n as nat),
    decreases n,
{
    if n < 10 {
        out.push((n as u8) + 48);
        proof {
            assert(out@ =~= old(out)@ + dec_digits(n as nat));
        }
    } else {
        push_u32_dec(out, n / 10);
        out.push(((n % 10) as u8) + 48);
        proof {
            assert(out@ =~= old(out)@ + dec_digits(n as nat));
        }
    }
}

/// Write a signed number in decimal.
fn push_i32_dec(out: &mut Vec<u8>, v: i32)
    ensures
        final(out)@ == old(out)@ + dec_digits_signed(v),
{
    if v < 0 {
        out.push(45u8);
        let mag = (-(v as i64)) as u32;
        push_u32_dec(out, mag);
        proof {
            assert(out@ =~= old(out)@ + dec_digits_signed(v));
        }
    } else {
        push_u32_dec(out, v as u32);
    }
}

/// The rendered line's bytes: `[sec.nanosec] [source]: message`.
pub open spec fn spec_render_log(x: LogView) -> Seq<u8> {
    seq![91u8] + dec_digits_signed(x.sec) + seq![46u8] + dec_digits(x.nanosec as nat) + seq![
        93u8,
        32u8,
        91u8,
    ] + x.source + seq![93u8, 58u8, 32u8] + x.message
}

/// Render a log record's display line as bytes.
pub fn render_log_bytes(x: &LogEntry) -> (out: Vec<u8>)
    ensures
        out@ == spec_render_log(x@),
{
    let mut out: Vec<u8> = Vec::new();
    out.push(91u8);
    push_i32_dec(&mut out, x.stamp.sec);
    out.push(46u8);
    push_u32_dec(&mut out, x.stamp.nanosec);
    out.push(93u8);
    out.push(32u8);
    out.push(91u8);
    out.extend_from_slice(x.source.as_slice());
    out.push(93u8);
    out.push(58u8);
    out.push(32u8);
    out.extend_from_slice(x.message.as_slice());
    proof {
        assert(out@ =~= spec_render_log(x@));
    }
    out
}

/// Whether every byte is ASCII.
pub open spec fn all_ascii(b: Seq<u8>) -> bool {
    forall|i: int| 0 <= i < b.len() ==> b[i] < 128
}

/// ASCII bytes read as text, one character per byte.
pub open spec fn ascii_chars(b: Seq<u8>) -> Seq<char> {
    b.map(|i: int, c: u8| c as char)
}

/// The text that the standard library's lossy UTF-8 conversion reads a byte
/// sequence as; a function of the bytes alone.
pub uninterp spec fn lossy_of(b: Seq<u8>) -> Seq<char>;

/// Relies on String::from_utf8_lossy: the text it yields depends on the
/// bytes alone; it is empty for no bytes, and reads pure ASCII one byte per
/// character.
#[verifier::external_body]
fn utf8_lossy(b: &Vec<u8>) -> (r: String)
    ensures
        r@ == lossy_of(b@),
        b@.len() == 0 ==> r@.len() == 0,
        all_ascii(b@) ==> r@ == ascii_chars(b@),
{
    String::from_utf8_lossy(b.as_slice()).into_owned()
}

/// Render a log record's display line as text; when the line is pure ASCII
/// it reads exactly as its bytes, one character per byte.
pub fn render_log_line(x: &LogEntry) -> (r: String)
    ensures
        r@ == lossy_of(spec_render_log(x@)),
        all_ascii(spec_render_log(x@)) ==> r@ == ascii_chars(spec_render_log(x@)),
{
    let bytes = render_log_bytes(x);
    utf8_lossy(&bytes)
}

} // verus!
