//! The request planning of the virtio block driver: how a byte range of the
//! disk is cut into device requests of whole sectors.
use vstd::prelude::*;

verus! {

/// Bytes of a disk sector.
pub const SECTOR_SIZE: usize = 512;
/// The most bytes one device request moves (one page, eight sectors).
pub const MAX_CHUNK: usize = 4096;

/// One device request of a transfer: the first sector, where its bytes sit in
/// the caller's buffer, how many of them are used, and the whole sectors the
/// device moves.
#[derive(Clone, Copy, PartialEq, Eq, Structural, Debug)]
pub struct BlkRequest {
    pub sector: u64,
    pub offset: usize,
    pub len: usize,
    pub padded: usize,
}

/// `x` rounded up to a whole number of sectors.
pub open spec fn sector_round(x: int) -> int {
    ((x + 511) / 512) * 512
}

/// Request `k` of a transfer of `len` bytes from `byte_offset`.
pub open spec fn request_at(byte_offset: u64, len: int, k: int) -> BlkRequest {
    let off = k * 4096;
    let chunk = if len - off < 4096 { len - off } else { 4096 };
    BlkRequest {
        sector: ((byte_offset + off) / 512) as u64,
        offset: off as usize,
        len: chunk as usize,
        padded: sector_round(chunk) as usize,
    }
}

/// How many requests a transfer of `len` bytes takes.
pub open spec fn request_count(len: int) -> int {
    (len + 4095) / 4096
}

/// Whether the device takes a request of `len` bytes: whole sectors, at least
/// one, at most one chunk.
pub fn request_len_ok(len: usize) -> (ok: bool)
    ensures
        ok == (len != 0 && len % 512 == 0 && len <= MAX_CHUNK),
{
    !(len == 0 || len % SECTOR_SIZE != 0 || len > MAX_CHUNK)
}

/// The requests that read or write `len` bytes from `byte_offset`, in order:
/// chunks of at most 4096 bytes, each rounded up to whole sectors. None when
/// the offset is not on a sector boundary.
pub fn plan_transfer(byte_offset: u64, len: usize) -> (r: Option<Vec<BlkRequest>>)
    requires
        byte_offset + len <= u64::MAX,
    ensures
        byte_offset % 512 != 0 ==> r is None,
        byte_offset % 512 == 0 ==> (r matches Some(v) && v@.len() == request_count(len as int)
            && forall|k: int| 0 <= k < v@.len() ==> #[trigger] v@[k] == request_at(byte_offset, len as int, k)),
{
    if byte_offset % (SECTOR_SIZE as u64) != 0 {
        return None;
    }
    let mut v: Vec<BlkRequest> = Vec::new();
    let mut off: usize = 0;
    while off < len
        invariant
            byte_offset + len <= u64::MAX,
            off <= len,
            off < len ==> off == v@.len() * 4096,
            off == len ==> v@.len() == request_count(len as int),
            forall|k: int| 0 <= k < v@.len() ==> #[trigger] v@[k] == request_at(byte_offset, len as int, k),
        decreases len - off,
    {
        let chunk: usize = if len - off < MAX_CHUNK { len - off } else { MAX_CHUNK };
        let padded: usize = ((chunk + 511) / 512) * 512;
        let sector: u64 = (byte_offset + off as u64) / (SECTOR_SIZE as u64);
        let ghost k = v@.len() as int;
        v.push(BlkRequest { sector, offset: off, len: chunk, padded });
        assert(v@[k] == request_at(byte_offset, len as int, k));
        off = off + chunk;
        proof {
            let n = v@.len() as int;
            if off == len {
                assert(request_count(len as int) == n) by (nonlinear_arith)
                    requires (n - 1) * 4096 < len, len <= n * 4096, n >= 1,
                        request_count(len as int) == (len + 4095) / 4096;
            }
        }
    }
    Some(v)
}

/// The requests of a transfer from a sector boundary tile it: each starts
/// where the one before ended, the last ends at its end, each starts on the
/// sector its bytes begin at, and each moves whole sectors, at least one and
/// at most one chunk, of which its bytes leave less than a sector unused.
pub proof fn lemma_requests_tile(byte_offset: u64, len: int, k: int)
    requires
        byte_offset % 512 == 0,
        0 <= k < request_count(len),
        len <= usize::MAX,
        byte_offset + len <= u64::MAX,
    ensures
        ({
            let r = request_at(byte_offset, len, k);
            &&& r.offset + r.len == (if k + 1 < request_count(len) { request_at(byte_offset, len, k + 1).offset as int } else { len })
            &&& 0 < r.len <= 4096
            &&& r.padded % 512 == 0 && r.len <= r.padded <= 4096 && r.padded - r.len < 512
            &&& r.sector * 512 == byte_offset + r.offset
        }),
{
    let off = k * 4096;
    assert(off < len && (k + 1 < request_count(len) ==> off + 4096 < len)
        && (k + 1 >= request_count(len) ==> len <= off + 4096)) by (nonlinear_arith)
        requires 0 <= k < request_count(len), request_count(len) == (len + 4095) / 4096, off == k * 4096;
    let chunk = if len - off < 4096 { len - off } else { 4096 };
    assert(sector_round(chunk) % 512 == 0 && chunk <= sector_round(chunk) <= 4096
        && sector_round(chunk) - chunk < 512) by (nonlinear_arith)
        requires 0 < chunk <= 4096, sector_round(chunk) == ((chunk + 511) / 512) * 512;
    assert(((byte_offset + off) / 512) * 512 == byte_offset + off) by (nonlinear_arith)
        requires byte_offset % 512 == 0, off == k * 4096, k >= 0;
}

} // verus!
