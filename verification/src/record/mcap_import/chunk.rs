//! Decode exactly one validated LZ4 frame into a pre-sized bounded output.
use crate::record::error::RecordError;
use crate::record::mcap_import::preflight::{cursor_wf, le_u32_at, le_u64_at, past_end, Cursor};
use vstd::prelude::*;

verus! {

/// What the `lz4` crate's frame decoder yields for a byte string when asked
/// for exactly `expected` bytes: the decoded bytes, how many further bytes a
/// one-byte probe read returned, and whether the decoder then reported a
/// complete frame. `None` when the decoder cannot be created or the exact
/// read fails.
pub uninterp spec fn lz4_frame_decode(data: Seq<u8>, expected: nat) -> Option<(Seq<u8>, nat, bool)>;

/// Runs `lz4::Decoder` over `data`: `read_exact` into `expected` bytes, one
/// probe `read` of a single byte, then `finish`. The contract names the
/// result as a function of the input bytes and the requested size; it claims
/// that a successful exact read fills exactly `expected` bytes and that a
/// one-byte probe yields at most one byte. Nothing is claimed about which
/// byte strings are decodable.
#[verifier::external_body]
fn lz4_decode(data: &[u8], expected: usize) -> (r: Option<(Vec<u8>, usize, bool)>)
    ensures
        r is Some <==> lz4_frame_decode(data@, expected as nat) is Some,
        r matches Some((out, extra, finished)) ==> lz4_frame_decode(data@, expected as nat) == Some(
            (out@, extra as nat, finished),
        ) && out@.len() == expected && extra <= 1,
{
    let mut decoder = lz4::Decoder::new(data).ok()?;
    let mut out = vec![0u8; expected];
    std::io::Read::read_exact(&mut decoder, &mut out).ok()?;
    let extra = std::io::Read::read(&mut decoder, &mut [0u8; 1]).ok()?;
    let finished = decoder.finish().1.is_ok();
    Some((out, extra, finished))
}

fn unsupported(message: &'static str) -> (e: RecordError)
    ensures
        e == RecordError::UnsupportedMcap(message),
{
    RecordError::UnsupportedMcap(message)
}

/// The largest block that a block-descriptor byte allows, if it names one.
pub open spec fn lz4_block_max(bd: u8) -> Option<u32> {
    let code = (bd >> 4u8) & 7u8;
    if code == 4 {
        Some(0x1_0000u32)
    } else if code == 5 {
        Some(0x4_0000u32)
    } else if code == 6 {
        Some(0x10_0000u32)
    } else if code == 7 {
        Some(0x40_0000u32)
    } else {
        None
    }
}

/// The data blocks of a frame from `p` on: the position after the end mark,
/// or the first failure. Each block is a `u32` word (high bit: stored
/// uncompressed) with a nonzero length of at most `max`, optionally followed
/// by a 4-byte block checksum.
pub open spec fn lz4_blocks(d: Seq<u8>, p: int, max: u32, sums: bool) -> Result<int, RecordError>
    decreases d.len() - p,
{
    if p < 0 || p + 4 > d.len() {
        Err(past_end())
    } else {
        let w = le_u32_at(d, p);
        if w == 0 {
            Ok(p + 4)
        } else {
            let len = (w & 0x7fff_ffffu32) as int;
            if len == 0 || len > max {
                Err(RecordError::Mcap("invalid LZ4 block length"))
            } else if p + 4 + len > d.len() {
                Err(past_end())
            } else if sums {
                if p + 8 + len > d.len() {
                    Err(past_end())
                } else {
                    lz4_blocks(d, p + 8 + len, max, sums)
                }
            } else {
                lz4_blocks(d, p + 4 + len, max, sums)
            }
        }
    }
}

/// What follows the data blocks: an optional 4-byte content checksum, then
/// the end of the input.
pub open spec fn lz4_after_blocks(d: Seq<u8>, blocks: Result<int, RecordError>, flags: u8) -> Result<(), RecordError> {
    match blocks {
        Err(e) => Err(e),
        Ok(q) => if flags & 0x04 != 0 && q + 4 > d.len() {
            Err(past_end())
        } else {
            let end = if flags & 0x04 != 0 { q + 4 } else { q };
            if end != d.len() {
                Err(RecordError::Mcap("trailing LZ4 data"))
            } else {
                Ok(())
            }
        },
    }
}

/// The structure of one standard LZ4 frame of `expected` decoded bytes: the
/// magic, a version-1 descriptor without dictionary or reserved bits, a valid
/// block maximum, a content size (if present) equal to `expected`, the data
/// blocks, an optional content checksum, and nothing after.
pub open spec fn lz4_frame_check(d: Seq<u8>, expected: nat) -> Result<(), RecordError> {
    if d.len() < 4 {
        Err(past_end())
    } else if !(d[0] == 0x04 && d[1] == 0x22 && d[2] == 0x4d && d[3] == 0x18) {
        Err(RecordError::UnsupportedMcap("LZ4 requires one standard frame"))
    } else if d.len() < 6 {
        Err(past_end())
    } else {
        let flags = d[4];
        let bd = d[5];
        if flags >> 6u8 != 1 || flags & 0x03 != 0 || bd & 0x8f != 0 {
            Err(RecordError::UnsupportedMcap("LZ4 version, reserved bits or dictionary"))
        } else {
            match lz4_block_max(bd) {
                None => Err(RecordError::Mcap("invalid LZ4 block maximum")),
                Some(max) => {
                    let sized = flags & 0x08 != 0;
                    if sized && d.len() < 14 {
                        Err(past_end())
                    } else if sized && le_u64_at(d, 6) != expected {
                        Err(RecordError::Mcap("LZ4 content size disagrees with MCAP chunk"))
                    } else {
                        let p = if sized { 14int } else { 6int };
                        if p + 1 > d.len() {
                            Err(past_end())
                        } else {
                            lz4_after_blocks(d, lz4_blocks(d, p + 1, max, flags & 0x10 != 0), flags)
                        }
                    }
                },
            }
        }
    }
}

/// Validate that `data` is exactly one standard LZ4 frame (no dictionary,
/// skippable or concatenated frames, trailing bytes or oversized blocks),
/// then decode it into exactly `expected` bytes.
pub fn decode(data: &[u8], expected: usize) -> (r: Result<Vec<u8>, RecordError>)
    ensures
        r matches Ok(out) ==> out@.len() == expected && data@.len() >= 7
            && data@.subrange(0, 4) == seq![0x04u8, 0x22u8, 0x4du8, 0x18u8]
            && lz4_frame_decode(data@, expected as nat) == Some((out@, 0nat, true)),
        data@.len() < 4 ==> r is Err,
        match lz4_frame_check(data@, expected as nat) {
            Err(e) => r == Err::<Vec<u8>, RecordError>(e),
            Ok(()) => match lz4_frame_decode(data@, expected as nat) {
                None => r == Err::<Vec<u8>, RecordError>(
                    RecordError::Mcap("LZ4 frame does not decode to the advertised size"),
                ),
                Some((out, extra, finished)) => if extra != 0 {
                    r == Err::<Vec<u8>, RecordError>(RecordError::Mcap("decoded chunk exceeds advertised size"))
                } else if !finished {
                    r == Err::<Vec<u8>, RecordError>(RecordError::Mcap("LZ4 frame is incomplete"))
                } else {
                    r matches Ok(o) && o@ == out
                },
            },
        },
{
    let mut c = Cursor::new(data);
    let magic = c.take(4)?;
    if !(magic[0] == 0x04 && magic[1] == 0x22 && magic[2] == 0x4d && magic[3] == 0x18) {
        return Err(unsupported("LZ4 requires one standard frame"));
    }
    assert(magic@ =~= seq![0x04u8, 0x22u8, 0x4du8, 0x18u8]);
    let flags = c.take(1)?[0];
    let bd = c.take(1)?[0];
    if flags >> 6u8 != 1 || flags & 0x03 != 0 || bd & 0x8f != 0 {
        return Err(unsupported("LZ4 version, reserved bits or dictionary"));
    }
    let code = (bd >> 4u8) & 7;
    let block_max: u32 = if code == 4 {
        0x1_0000
    } else if code == 5 {
        0x4_0000
    } else if code == 6 {
        0x10_0000
    } else if code == 7 {
        0x40_0000
    } else {
        return Err(RecordError::Mcap("invalid LZ4 block maximum"));
    };
    if flags & 0x08 != 0 {
        let size = c.u64()?;
        if size != expected as u64 {
            return Err(RecordError::Mcap("LZ4 content size disagrees with MCAP chunk"));
        }
    }
    // The header checksum is checked by the decoder.
    c.take(1)?;
    let ghost sums = flags & 0x10 != 0;
    assert(lz4_block_max(bd) == Some(block_max));
    loop
        invariant_except_break
            lz4_frame_check(data@, expected as nat) == lz4_after_blocks(
                data@,
                lz4_blocks(data@, c@.1, block_max, sums),
                flags,
            ),
        invariant
            cursor_wf(c@),
            c@.0 == data@,
            data@.len() >= 7,
            data@.subrange(0, 4) == seq![0x04u8, 0x22u8, 0x4du8, 0x18u8],
            sums == (flags & 0x10 != 0),
        ensures
            cursor_wf(c@),
            c@.0 == data@,
            lz4_frame_check(data@, expected as nat) == lz4_after_blocks(data@, Ok(c@.1), flags),
        decreases data@.len() - c@.1,
    {
        let ghost p = c@.1;
        let word = c.u32()?;
        if word == 0 {
            assert(lz4_blocks(data@, p, block_max, sums) == Ok::<int, RecordError>(c@.1));
            break;
        }
        let len = word & 0x7fff_ffff;
        proof {
            let w = le_u32_at(data@, p);
            assert(word == w as usize);
            assert((w as usize) & 0x7fff_ffffusize == (w & 0x7fff_ffffu32) as usize) by (bit_vector);
        }
        if len == 0 || len as u32 > block_max {
            return Err(RecordError::Mcap("invalid LZ4 block length"));
        }
        c.take(len)?;
        if flags & 0x10 != 0 {
            c.take(4)?;
        }
    }
    if flags & 0x04 != 0 {
        c.take(4)?;
    }
    if c.remaining() != 0 {
        return Err(RecordError::Mcap("trailing LZ4 data"));
    }
    let (out, extra, finished) = match lz4_decode(data, expected) {
        Some(t) => t,
        None => return Err(RecordError::Mcap("LZ4 frame does not decode to the advertised size")),
    };
    if extra != 0 {
        return Err(RecordError::Mcap("decoded chunk exceeds advertised size"));
    }
    if !finished {
        return Err(RecordError::Mcap("LZ4 frame is incomplete"));
    }
    Ok(out)
}

} // verus!
