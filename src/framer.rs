//! Decisions of the blob framer: how long the next header is, and whether
//! the blob after it is read or skipped.
use vstd::prelude::*;

use crate::filter::bytes_eq;

verus! {

/// Largest blob header accepted.
pub const MAX_HEADER_SIZE: usize = 64 * 1024;

/// A blob header: the blob's declared type and size.
pub struct BlobHeader {
    pub type_pb: Vec<u8>,
    pub indexdata: Option<Vec<u8>>,
    pub datasize: i32,
}

/// Why the stream cannot be framed.
#[derive(Clone, Copy, Debug, PartialEq, Eq, Structural)]
pub enum FrameError {
    /// The header size prefix exceeds [`MAX_HEADER_SIZE`].
    HeaderTooLarge,
    /// The header declares a negative blob size.
    NegativeDataSize,
}

/// What to do with the blob that follows a header.
#[derive(Clone, Copy, Debug, PartialEq, Eq, Structural)]
pub enum FrameAction {
    /// Pass over this many bytes: the blob is not element data.
    Skip(usize),
    /// Read this many bytes: the blob holds element data.
    Read(usize),
}

/// The big-endian unsigned value of four bytes.
pub open spec fn be_u32(p: Seq<u8>) -> int {
    p[0] as int * 0x1000000 + p[1] as int * 0x10000 + p[2] as int * 0x100 + p[3] as int
}

/// The blob type that carries element data: `OSMData`.
pub open spec fn data_type() -> Seq<u8> {
    seq![0x4fu8, 0x53u8, 0x4du8, 0x44u8, 0x61u8, 0x74u8, 0x61u8]
}

/// The size of the header announced by a four-byte big-endian prefix.
/// Fails with [`FrameError::HeaderTooLarge`] above [`MAX_HEADER_SIZE`].
pub fn header_size(prefix: [u8; 4]) -> (r: Result<usize, FrameError>)
    ensures
        be_u32(prefix@) <= MAX_HEADER_SIZE ==> r == Ok::<usize, FrameError>(be_u32(prefix@) as usize),
        be_u32(prefix@) > MAX_HEADER_SIZE ==> r == Err::<usize, FrameError>(FrameError::HeaderTooLarge),
{
    let n: u64 = prefix[0] as u64 * 0x1000000 + prefix[1] as u64 * 0x10000 + prefix[2] as u64 * 0x100 + prefix[3] as u64;
    if n > MAX_HEADER_SIZE as u64 {
        Err(FrameError::HeaderTooLarge)
    } else {
        Ok(n as usize)
    }
}

/// Whether `header` announces element data (type `OSMData`), which is read,
/// or anything else, which is skipped. Fails with
/// [`FrameError::NegativeDataSize`] on a negative blob size.
pub fn frame_action(header: &BlobHeader) -> (r: Result<FrameAction, FrameError>)
    ensures
        header.datasize < 0 ==> r == Err::<FrameAction, FrameError>(FrameError::NegativeDataSize),
        header.datasize >= 0 && header.type_pb@ == data_type() ==> r == Ok::<FrameAction, FrameError>(
            FrameAction::Read(header.datasize as usize),
        ),
        header.datasize >= 0 && header.type_pb@ != data_type() ==> r == Ok::<FrameAction, FrameError>(
            FrameAction::Skip(header.datasize as usize),
        ),
{
    if header.datasize < 0 {
        return Err(FrameError::NegativeDataSize);
    }
    let size = header.datasize as usize;
    let want: [u8; 7] = [0x4f, 0x53, 0x4d, 0x44, 0x61, 0x74, 0x61];
    proof {
        assert(want@ =~= data_type());
    }
    if bytes_eq(header.type_pb.as_slice(), want.as_slice()) {
        Ok(FrameAction::Read(size))
    } else {
        Ok(FrameAction::Skip(size))
    }
}

/// Length to give the reusable blob buffer so that it holds `needed` bytes:
/// unchanged when it already does, else doubled past `needed` (or exactly
/// `needed` when doubling would overflow).
pub fn grown_len(current: usize, needed: usize) -> (r: usize)
    ensures
        current >= needed ==> r == current,
        current < needed && needed <= usize::MAX / 2 ==> r == 2 * needed,
        current < needed && needed > usize::MAX / 2 ==> r == needed,
{
    if current >= needed {
        current
    } else if needed <= usize::MAX / 2 {
        2 * needed
    } else {
        needed
    }
}

} // verus!
