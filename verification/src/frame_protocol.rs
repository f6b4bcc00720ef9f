//! A length-prefixed message framing: each frame is a two-byte
//! little-endian length followed by that many bytes of UTF-8 text.

use vstd::prelude::*;
use vstd::string::StrSliceExecFns;
use vstd::utf8::{decode_utf8, valid_utf8};

verus! {

/// Why a frame could not be written or read.
#[derive(Debug, PartialEq, Eq, Structural, Clone, Copy)]
pub enum FrameError {
    /// A message longer than a two-byte length can carry.
    MessageTooLong,
    /// A frame whose bytes are not valid UTF-8.
    InvalidUtf8,
}

/// The UTF-8 bytes of a message.
pub open spec fn message_bytes(message: Seq<char>) -> Seq<u8> {
    vstd::utf8::encode_utf8(message)
}

/// The encoded frame of a message: its byte length in two little-endian
/// bytes, then the bytes.
pub open spec fn frame_of(message: Seq<char>) -> Seq<u8> {
    let bytes = message_bytes(message);
    seq![(bytes.len() % 0x100) as u8, ((bytes.len() / 0x100) % 0x100) as u8] + bytes
}

/// Appends one frame carrying `message` to the buffer, returning the
/// number of message bytes written; fails, leaving the buffer unchanged,
/// exactly when the message is longer than `u16::MAX` bytes.
pub fn write_frame(buffer: &mut Vec<u8>, message: &str) -> (r: Result<usize, FrameError>)
    ensures
        match r {
            Result::Ok(n) => message_bytes(message@).len() <= u16::MAX && n == message_bytes(
                message@,
            ).len() && final(buffer)@ == old(buffer)@ + frame_of(message@),
            Result::Err(_) => message_bytes(message@).len() > u16::MAX && final(buffer)@ == old(
                buffer,
            )@,
        },
{
    let mut bytes = message.as_bytes_vec();
    let len = bytes.len();
    if len > 0xFFFF {
        return Err(FrameError::MessageTooLong);
    }
    let lo = (len % 0x100) as u8;
    let hi = ((len / 0x100) % 0x100) as u8;
    buffer.push(lo);
    buffer.push(hi);
    buffer.append(&mut bytes);
    proof {
        assert(final(buffer)@ =~= old(buffer)@ + frame_of(message@));
    }
    Ok(len)
}

/// What one read step finds at position `pos` of the data.
pub ghost enum FrameStep {
    /// Fewer than two bytes remain: the stream is done.
    Done,
    /// A frame decoding to the text, ending at the position.
    Frame(Seq<char>, int),
    /// A frame whose bytes are not valid UTF-8, ending at the position.
    BadUtf8(int),
}

/// The declared length of the frame starting at `pos`.
pub open spec fn frame_len_at(data: Seq<u8>, pos: int) -> int {
    data[pos] + 0x100 * data[pos + 1]
}

/// Reads the frame at `pos`: two length bytes, then up to that many bytes
/// of text — a final frame may be cut short by the end of the data.
pub open spec fn frame_step_spec(data: Seq<u8>, pos: int) -> FrameStep {
    if pos + 2 > data.len() {
        FrameStep::Done
    } else {
        let end = if pos + 2 + frame_len_at(data, pos) <= data.len() {
            pos + 2 + frame_len_at(data, pos)
        } else {
            data.len() as int
        };
        let body = data.subrange(pos + 2, end);
        if valid_utf8(body) {
            FrameStep::Frame(decode_utf8(body), end)
        } else {
            FrameStep::BadUtf8(end)
        }
    }
}

/// Relies on `str::from_utf8`: succeeds exactly on valid UTF-8 and yields
/// the text those bytes encode.
#[verifier::external_body]
fn bytes_to_string(v: &Vec<u8>) -> (r: Option<String>)
    ensures
        r is Some <==> valid_utf8(v@),
        r matches Option::Some(s) ==> s@ == decode_utf8(v@),
{
    match std::str::from_utf8(v.as_slice()) {
        Ok(s) => Some(s.to_owned()),
        Err(_) => None,
    }
}

/// Reads the frames of a byte buffer in order.
pub struct FrameReader {
    data: Vec<u8>,
    pos: usize,
}

impl FrameReader {
    /// The bytes being read.
    pub closed spec fn bytes(&self) -> Seq<u8> {
        self.data@
    }

    /// The current read position.
    pub closed spec fn position(&self) -> int {
        self.pos as int
    }

    pub fn new(data: Vec<u8>) -> (r: FrameReader)
        ensures
            r.bytes() == data@,
            r.position() == 0,
    {
        FrameReader { data, pos: 0 }
    }

    /// The next frame's text, an error for a frame that is not UTF-8, or
    /// `None` when fewer than two bytes remain.
    pub fn next(&mut self) -> (r: Option<Result<String, FrameError>>)
        ensures
            final(self).bytes() == old(self).bytes(),
            match frame_step_spec(old(self).bytes(), old(self).position()) {
                FrameStep::Done => r is None && final(self).position() == old(self).position(),
                FrameStep::Frame(text, end) => {
                    &&& r matches Option::Some(Result::Ok(s)) && s@ == text
                    &&& final(self).position() == end
                },
                FrameStep::BadUtf8(end) => {
                    &&& r matches Option::Some(Result::Err(FrameError::InvalidUtf8))
                    &&& final(self).position() == end
                },
            },
    {
        let len = self.data.len();
        if self.pos >= len || len - self.pos < 2 {
            return None;
        }
        let lo = self.data[self.pos] as usize;
        let hi = self.data[self.pos + 1] as usize;
        let size = lo + 0x100 * hi;
        let start = self.pos + 2;
        let end = if size <= len - start {
            start + size
        } else {
            len
        };
        let mut body: Vec<u8> = Vec::new();
        let mut k = start;
        while k < end
            invariant
                start <= k <= end <= len,
                len == self.data@.len(),
                body@ =~= self.data@.subrange(start as int, k as int),
            decreases end - k,
        {
            body.push(self.data[k]);
            k += 1;
        }
        proof {
            assert(body@ =~= self.data@.subrange(start as int, end as int));
        }
        self.pos = end;
        match bytes_to_string(&body) {
            Some(s) => Some(Ok(s)),
            None => Some(Err(FrameError::InvalidUtf8)),
        }
    }
}

} // verus!
