//! Scripted input and the capture of a session.

use crate::number::Number;
use crate::ratty_vt::term::push_str;
use crate::text::chars_of;
use vstd::prelude::*;
use vstd::utf8::encode_utf8;

verus! {

/// Consecutive frames without a change before a capture is asked for.
pub const IDLE_FRAMES_BEFORE_CAPTURE: u32 = 3;

/// The value of a hexadecimal digit.
pub open spec fn hex_digit(c: char) -> Option<int> {
    if '0' <= c && c <= '9' {
        Some(c as u32 - 48)
    } else if 'a' <= c && c <= 'f' {
        Some(c as u32 - 87)
    } else if 'A' <= c && c <= 'F' {
        Some(c as u32 - 55)
    } else {
        None
    }
}

/// The byte that at most two characters stand for in hexadecimal: digits, the first
/// of which may be a plus sign where another follows; a question mark otherwise.
pub open spec fn hex_byte(text: Seq<char>) -> u8 {
    if text.len() == 2 {
        match (hex_digit(text[0]), hex_digit(text[1])) {
            (Some(high), Some(low)) => (16 * high + low) as u8,
            (None, Some(low)) => if text[0] == '+' {
                low as u8
            } else {
                63
            },
            _ => 63,
        }
    } else if text.len() == 1 {
        match hex_digit(text[0]) {
            Some(low) => low as u8,
            None => 63,
        }
    } else {
        63
    }
}

/// What scripted text stands for: itself, with escapes for bytes, line breaks, tabs
/// and backslashes. An escape that is not known stays as it is.
pub open spec fn decoded(text: Seq<char>) -> Seq<u8>
    decreases text.len(),
{
    if text.len() == 0 {
        Seq::empty()
    } else if text[0] != '\\' {
        encode_utf8(seq![text[0]]) + decoded(text.skip(1))
    } else if text.len() == 1 {
        seq![92u8]
    } else if text[1] == 'x' {
        let end = if text.len() < 4 {
            text.len() as int
        } else {
            4
        };
        seq![hex_byte(text.subrange(2, end))] + decoded(text.skip(end))
    } else if text[1] == 'n' {
        seq![10u8] + decoded(text.skip(2))
    } else if text[1] == 'r' {
        seq![13u8] + decoded(text.skip(2))
    } else if text[1] == 't' {
        seq![9u8] + decoded(text.skip(2))
    } else if text[1] == '\\' {
        seq![92u8] + decoded(text.skip(2))
    } else {
        seq![92u8] + encode_utf8(seq![text[1]]) + decoded(text.skip(2))
    }
}

fn digit_value(c: char) -> (r: Option<u8>)
    ensures
        match r {
            Some(value) => hex_digit(c) == Some(value as int) && value < 16,
            None => hex_digit(c) is None,
        },
{
    if '0' <= c && c <= '9' {
        Some(c as u8 - 48)
    } else if 'a' <= c && c <= 'f' {
        Some(c as u8 - 87)
    } else if 'A' <= c && c <= 'F' {
        Some(c as u8 - 55)
    } else {
        None
    }
}

fn byte_at(chars: &Vec<char>, start: usize, end: usize) -> (r: u8)
    requires
        start <= end <= chars@.len(),
        end - start <= 2,
    ensures
        r == hex_byte(chars@.subrange(start as int, end as int)),
{
    if end - start == 2 {
        match (digit_value(chars[start]), digit_value(chars[start + 1])) {
            (Some(high), Some(low)) => 16 * high + low,
            (None, Some(low)) => if chars[start] == '+' {
                low
            } else {
                63
            },
            _ => 63,
        }
    } else if end - start == 1 {
        match digit_value(chars[start]) {
            Some(low) => low,
            None => 63,
        }
    } else {
        63
    }
}

fn push_char(bytes: &mut Vec<u8>, c: char)
    ensures
        final(bytes)@ == old(bytes)@ + encode_utf8(seq![c]),
{
    let mut text = String::new();
    text.push(c);
    assert(text@ =~= seq![c]);
    push_str(bytes, text.as_str());
}

/// Decodes scripted input into the bytes to write.
pub fn decode_input(text: &str) -> (bytes: Vec<u8>)
    ensures
        bytes@ == decoded(text@),
{
    let chars = chars_of(text);
    let len: usize = chars.len();
    let mut bytes: Vec<u8> = Vec::new();
    let mut i: usize = 0;
    assert(chars@.skip(0) =~= text@);
    assert(bytes@ + decoded(chars@.skip(0)) =~= decoded(text@));
    while i < len
        invariant
            i <= len == chars@.len(),
            bytes@ + decoded(chars@.skip(i as int)) == decoded(text@),
        decreases len - i,
    {
        let ghost rest = chars@.skip(i as int);
        let ghost before = bytes@;
        let c: char = chars[i];
        assert(c == rest[0]);
        if c != '\\' {
            push_char(&mut bytes, c);
            assert(rest.skip(1) =~= chars@.skip(i + 1));
            assert(bytes@ + decoded(rest.skip(1)) =~= before + decoded(rest));
            i = i + 1;
        } else if i + 1 == len {
            bytes.push(92);
            assert(chars@.skip(i + 1).len() == 0);
            assert(bytes@ + decoded(chars@.skip(i + 1)) =~= before + decoded(rest));
            i = i + 1;
        } else {
            let kind: char = chars[i + 1];
            assert(kind == rest[1]);
            if kind == 'x' {
                let end: usize = if len - i < 4 {
                    len
                } else {
                    i + 4
                };
                bytes.push(byte_at(&chars, i + 2, end));
                assert(chars@.subrange(i + 2, end as int) =~= rest.subrange(2, end - i));
                assert(rest.skip(end - i) =~= chars@.skip(end as int));
                assert(bytes@ + decoded(rest.skip(end - i)) =~= before + decoded(rest));
                i = end;
            } else {
                assert(rest.skip(2) =~= chars@.skip(i + 2));
                if kind == 'n' {
                    bytes.push(10);
                } else if kind == 'r' {
                    bytes.push(13);
                } else if kind == 't' {
                    bytes.push(9);
                } else if kind == '\\' {
                    bytes.push(92);
                } else {
                    bytes.push(92);
                    push_char(&mut bytes, kind);
                }
                assert(bytes@ + decoded(rest.skip(2)) =~= before + decoded(rest));
                i = i + 2;
            }
        }
    }
    assert(chars@.skip(i as int).len() == 0);
    assert(bytes@ + decoded(chars@.skip(i as int)) =~= bytes@);
    bytes
}

/// How many consecutive frames left the terminal unchanged.
#[derive(Clone, Copy, Debug, PartialEq, Eq, Structural)]
pub struct CaptureGate {
    pub idle_frames: u32,
}

/// Whether a capture may be made, and why.
#[derive(Clone, Copy, Debug, PartialEq, Eq, Structural)]
pub enum CaptureDecision {
    /// Not yet.
    Wait,
    /// The terminal is idle.
    Idle,
    /// The terminal never went idle, and the time is up.
    TimedOut,
}

impl CaptureGate {
    /// Counts a frame in which some rows changed.
    pub fn track_frame(&mut self, changed_rows: u32)
        ensures
            final(self).idle_frames == (if changed_rows != 0 {
                0
            } else if old(self).idle_frames == u32::MAX {
                u32::MAX as int
            } else {
                old(self).idle_frames + 1
            }),
    {
        if changed_rows == 0 {
            self.idle_frames = self.idle_frames.saturating_add(1);
        } else {
            self.idle_frames = 0;
        }
    }

    /// Whether a capture may be made some seconds into the session: after the time
    /// asked for, once the terminal was idle long enough, or once the timeout is
    /// over.
    pub fn capture_due(&self, elapsed: Number, after: Number, timeout: Number) -> (r:
        CaptureDecision)
        ensures
            r == (if !elapsed.nan() && !after.nan() && elapsed.rank() < after.rank() {
                CaptureDecision::Wait
            } else if self.idle_frames >= IDLE_FRAMES_BEFORE_CAPTURE {
                CaptureDecision::Idle
            } else if elapsed.reaches(timeout) {
                CaptureDecision::TimedOut
            } else {
                CaptureDecision::Wait
            }),
    {
        if !elapsed.is_nan() && !after.is_nan() && !elapsed.at_least(after) {
            return CaptureDecision::Wait;
        }
        if self.idle_frames >= IDLE_FRAMES_BEFORE_CAPTURE {
            return CaptureDecision::Idle;
        }
        if elapsed.at_least(timeout) {
            return CaptureDecision::TimedOut;
        }
        CaptureDecision::Wait
    }
}

/// Rows without what they are padded with.
pub open spec fn unpadded(data: Seq<u8>, row_bytes: int, stride: int, rows: int) -> Seq<u8>
    decreases rows,
{
    if rows <= 0 {
        Seq::empty()
    } else {
        unpadded(data, row_bytes, stride, rows - 1) + data.subrange(
            (rows - 1) * stride,
            (rows - 1) * stride + row_bytes,
        )
    }
}

/// Takes the padding out of the rows of an image, four bytes for each pixel.
pub fn unpad_rows(data: &Vec<u8>, width: u32, height: u32) -> (pixels: Vec<u8>)
    requires
        height > 0,
        width * 4 <= data@.len() / (height as nat),
    ensures
        pixels@ == unpadded(
            data@,
            width * 4,
            (data@.len() / (height as nat)) as int,
            height as int,
        ),
{
    let len: usize = data.len();
    let stride: usize = len / (height as usize);
    let row_bytes: usize = if width as u64 * 4 <= usize::MAX as u64 {
        width as usize * 4
    } else {
        0
    };
    let mut pixels: Vec<u8> = Vec::new();
    let mut row: u32 = 0;
    let mut start: usize = 0;
    proof {
        assert(height * stride <= data@.len()) by (nonlinear_arith)
            requires
                height > 0,
                stride == data@.len() / (height as nat),
        ;
    }
    while row < height
        invariant
            row <= height,
            len == data@.len(),
            row_bytes == width * 4,
            row_bytes <= stride,
            height * stride <= data@.len(),
            start == row * stride,
            pixels@ == unpadded(data@, row_bytes as int, stride as int, row as int),
        decreases height - row,
    {
        proof {
            assert((row + 1) * stride == row * stride + stride) by (nonlinear_arith);
            assert((row + 1) * stride <= height * stride) by (nonlinear_arith)
                requires
                    row + 1 <= height,
                    0 <= stride,
            ;
        }
        let mut i: usize = 0;
        let ghost before = pixels@;
        assert(before =~= before + data@.subrange(start as int, start as int));
        while i < row_bytes
            invariant
                i <= row_bytes,
                len == data@.len(),
                start + row_bytes <= len,
                pixels@ =~= before + data@.subrange(start as int, start + i),
            decreases row_bytes - i,
        {
            pixels.push(data[start + i]);
            i = i + 1;
        }
        start = start + stride;
        row = row + 1;
    }
    pixels
}

} // verus!
