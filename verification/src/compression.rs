//! Peeling the Zstandard and Yaz0 compression layers off archive data.

use vstd::prelude::*;

use crate::magic::{magic_kind_of, peek_magic_kind, MagicKind};

verus! {

/// How deep archives may nest inside one another before a scan gives up on a branch.
pub const MAX_RECURSION_DEPTH: u32 = 32;

/// What `tomolib::formats::zs::decompress` produces from `data`: the decompressed
/// bytes, or `None` where it reports an error.
pub uninterp spec fn zstd_decompressed(data: Seq<u8>) -> Option<Seq<u8>>;

/// What `szs::decode` produces from `data`: the decoded bytes, or `None` where it
/// reports an error.
pub uninterp spec fn yaz0_decoded(data: Seq<u8>) -> Option<Seq<u8>>;

/// Decompresses a Zstandard stream with `tomolib::formats::zs::decompress`, writing
/// into a fresh vector. Claimed: the outcome is `zstd_decompressed(data)`, a function
/// of the input bytes alone; what those bytes are is not stated.
#[verifier::external_body]
fn zstd_decompress(data: &[u8]) -> (res: Option<Vec<u8>>)
    ensures
        match res {
            Some(v) => zstd_decompressed(data@) == Some(v@),
            None => zstd_decompressed(data@) is None,
        },
{
    let mut out = Vec::new();
    match tomolib::formats::zs::decompress(data, &mut out) {
        Ok(_) => Some(out),
        Err(_) => None,
    }
}

/// The decoded size a Yaz0 header declares: big-endian, in bytes 4 to 7.
pub open spec fn yaz0_declared_size(d: Seq<u8>) -> nat {
    (d[4] as nat) * 0x100_0000 + (d[5] as nat) * 0x1_0000 + (d[6] as nat) * 0x100 + (d[7] as nat)
}

/// Whether the rest of a Yaz0 stream, read from `inp` with `out` bytes written so far,
/// stays inside its input and output: every group's bytes are present, and every
/// back-reference reaches no further back than the bytes written and copies no further
/// than the declared size. `header` holds the current chunk's flags, most significant
/// unread flag first, and `bit` counts the flags used (8: a new chunk starts).
/// Decoding stops where the input or the declared output runs out.
pub open spec fn yaz0_groups_fit(d: Seq<u8>, size: nat, inp: int, out: nat, header: nat, bit: nat) -> bool
    decreases d.len() - inp,
{
    if inp < 0 || inp >= d.len() || out >= size {
        true
    } else if bit >= 8 {
        yaz0_groups_fit(d, size, inp + 1, out, d[inp] as nat, 0)
    } else if header >= 128 {
        yaz0_groups_fit(d, size, inp + 1, out + 1, ((header * 2) % 256) as nat, bit + 1)
    } else if inp + 2 > d.len() {
        false
    } else {
        let g = (d[inp] as nat) * 256 + (d[inp + 1] as nat);
        let back = g % 4096 + 1;
        let short = g / 4096;
        if short == 0 && inp + 3 > d.len() {
            false
        } else {
            let len: nat = if short != 0 { short + 2 } else { (d[inp + 2] as nat) + 18 };
            let used: int = if short != 0 { 2 } else { 3 };
            back <= out && out + len <= size && yaz0_groups_fit(
                d,
                size,
                inp + used,
                out + len,
                ((header * 2) % 256) as nat,
                bit + 1,
            )
        }
    }
}

/// Whether `szs::decode` can decode `d` without reading or writing out of bounds: data
/// that is not a Yaz0 stream is refused by it; a Yaz0 stream's groups must fit.
pub open spec fn yaz0_decodable(d: Seq<u8>) -> bool {
    (d.len() >= 8 && d.subrange(0, 4) == crate::magic::yaz0_magic()) ==> yaz0_groups_fit(
        d,
        yaz0_declared_size(d),
        16,
        0,
        0,
        8,
    )
}

/// Checks `yaz0_decodable`, walking the stream's groups without decoding them.
pub fn yaz0_check(d: &[u8]) -> (r: bool)
    ensures
        r == yaz0_decodable(d@),
{
    let n = d.len();
    if n < 8 || !(d[0] == 0x59 && d[1] == 0x61 && d[2] == 0x7A && d[3] == 0x30) {
        proof {
            if n >= 8 {
                assert(d@.subrange(0, 4)[0] == d@[0]);
                assert(d@.subrange(0, 4)[1] == d@[1]);
                assert(d@.subrange(0, 4)[2] == d@[2]);
                assert(d@.subrange(0, 4)[3] == d@[3]);
            }
        }
        return true;
    }
    assert(d@.subrange(0, 4) =~= crate::magic::yaz0_magic());
    let size: u64 = (d[4] as u64) * 0x100_0000 + (d[5] as u64) * 0x1_0000 + (d[6] as u64) * 0x100 + (d[7] as u64);
    let mut inp: usize = 16;
    let mut out: u64 = 0;
    let mut header: u64 = 0;
    let mut bit: u64 = 8;
    while inp < n && out < size
        invariant
            n == d@.len(),
            size == yaz0_declared_size(d@),
            size < 0x1_0000_0000,
            out <= size,
            header < 256,
            bit <= 8,
            yaz0_decodable(d@) == yaz0_groups_fit(d@, size as nat, inp as int, out as nat, header as nat, bit as nat),
        decreases n - inp,
    {
        if bit >= 8 {
            header = d[inp] as u64;
            bit = 0;
            inp = inp + 1;
        } else if header >= 128 {
            header = (header * 2) % 256;
            bit = bit + 1;
            inp = inp + 1;
            out = out + 1;
        } else {
            if inp + 1 >= n {
                return false;
            }
            let g: u64 = (d[inp] as u64) * 256 + (d[inp + 1] as u64);
            let back: u64 = g % 4096 + 1;
            let short: u64 = g / 4096;
            if short == 0 && inp + 2 >= n {
                return false;
            }
            let len: u64 = if short != 0 { short + 2 } else { (d[inp + 2] as u64) + 18 };
            let used: usize = if short != 0 { 2 } else { 3 };
            if !(back <= out && out + len <= size) {
                return false;
            }
            header = (header * 2) % 256;
            bit = bit + 1;
            inp = inp + used;
            out = out + len;
        }
    }
    true
}

/// Decodes a Yaz0 (SZS) stream with `szs::decode`, on data whose groups stay inside
/// its input and declared output (`yaz0_decodable`); on other data the decoder reads
/// and writes out of bounds. Claimed: the outcome is `yaz0_decoded(data)`, a function
/// of the input bytes alone; what those bytes are is not stated.
#[verifier::external_body]
fn yaz0_decode(data: &[u8]) -> (res: Option<Vec<u8>>)
    requires
        yaz0_decodable(data@),
    ensures
        match res {
            Some(v) => yaz0_decoded(data@) == Some(v@),
            None => yaz0_decoded(data@) is None,
        },
{
    match szs::decode(data) {
        Ok(v) => Some(v),
        Err(_) => None,
    }
}

/// Why no compression layer could be removed.
#[derive(Debug, Clone, Copy, PartialEq, Eq, Structural)]
pub enum UnwrappedError {
    DecompressionFailed,
    MaxDepthExceeded,
    DataAlreadyUncompressed,
}

/// The outcome of removing one compression layer from `data` found at nesting `depth`.
pub open spec fn unwrapped(data: Seq<u8>, depth: u32) -> Result<Seq<u8>, UnwrappedError> {
    if depth >= MAX_RECURSION_DEPTH {
        Err(UnwrappedError::MaxDepthExceeded)
    } else {
        match magic_kind_of(data) {
            MagicKind::Zstd => match zstd_decompressed(data) {
                Some(v) => Ok(v),
                None => Err(UnwrappedError::DecompressionFailed),
            },
            MagicKind::Yaz0 => if !yaz0_decodable(data) {
                Err(UnwrappedError::DecompressionFailed)
            } else {
                match yaz0_decoded(data) {
                    Some(v) => Ok(v),
                    None => Err(UnwrappedError::DecompressionFailed),
                }
            },
            _ => Err(UnwrappedError::DataAlreadyUncompressed),
        }
    }
}

/// Removes one Zstandard or Yaz0 layer from `data`. Data with another magic is
/// reported as already uncompressed; at `MAX_RECURSION_DEPTH` or deeper nothing is tried.
pub fn unwrap_compression(data: &[u8], depth: u32) -> (res: Result<Vec<u8>, UnwrappedError>)
    ensures
        match res {
            Ok(v) => unwrapped(data@, depth) == Ok::<Seq<u8>, UnwrappedError>(v@),
            Err(e) => unwrapped(data@, depth) == Err::<Seq<u8>, UnwrappedError>(e),
        },
{
    if depth >= MAX_RECURSION_DEPTH {
        return Err(UnwrappedError::MaxDepthExceeded);
    }
    match peek_magic_kind(data) {
        MagicKind::Zstd => match zstd_decompress(data) {
            Some(v) => Ok(v),
            None => Err(UnwrappedError::DecompressionFailed),
        },
        MagicKind::Yaz0 => if !yaz0_check(data) {
            Err(UnwrappedError::DecompressionFailed)
        } else {
            match yaz0_decode(data) {
                Some(v) => Ok(v),
                None => Err(UnwrappedError::DecompressionFailed),
            }
        },
        _ => Err(UnwrappedError::DataAlreadyUncompressed),
    }
}

/// The bytes after a leading Zstandard layer has been removed, where one is there and
/// decompresses; otherwise the input unchanged.
pub open spec fn decompressed_if_needed(data: Seq<u8>) -> Seq<u8> {
    if data.len() >= 4 && data.subrange(0, 4) == crate::magic::zstd_magic() {
        match zstd_decompressed(data) {
            Some(v) => v,
            None => data,
        }
    } else {
        data
    }
}

/// Removes a leading Zstandard layer from a file's bytes if it has one; data that
/// is not Zstandard, or fails to decompress, comes back unchanged.
pub fn decompress_if_needed(data: Vec<u8>) -> (res: Vec<u8>)
    ensures
        res@ == decompressed_if_needed(data@),
{
    if data.len() >= 4 && data[0] == 0x28 && data[1] == 0xB5 && data[2] == 0x2F && data[3] == 0xFD {
        assert(data@.subrange(0, 4) =~= crate::magic::zstd_magic());
        match zstd_decompress(data.as_slice()) {
            Some(v) => {
                return v;
            },
            None => {},
        }
    } else if data.len() >= 4 {
        assert(data@.subrange(0, 4)[0] == data@[0]);
        assert(data@.subrange(0, 4)[1] == data@[1]);
        assert(data@.subrange(0, 4)[2] == data@[2]);
        assert(data@.subrange(0, 4)[3] == data@[3]);
    }
    data
}

} // verus!
