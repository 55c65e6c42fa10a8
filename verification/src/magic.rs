//! Recognising file kinds by their leading magic bytes.

use vstd::prelude::*;

verus! {

/// The kinds of payload that an archive entry can hold, told apart by magic bytes.
#[derive(Debug, Clone, Copy, PartialEq, Eq, Structural)]
pub enum MagicKind {
    Bflyt,
    Bflan,
    Bntx,
    Msbp,
    Msbt,
    Sarc,
    Yaz0,
    Zstd,
    Unknown,
}

/// `data` starts with the bytes of `pat`.
pub open spec fn starts_with(data: Seq<u8>, pat: Seq<u8>) -> bool {
    data.len() >= pat.len() && data.subrange(0, pat.len() as int) == pat
}

pub open spec fn msbp_magic() -> Seq<u8> {
    seq![0x4Du8, 0x73, 0x67, 0x50, 0x72, 0x6A, 0x42, 0x6E]  // "MsgPrjBn"
}

pub open spec fn msbt_magic() -> Seq<u8> {
    seq![0x4Du8, 0x73, 0x67, 0x53, 0x74, 0x64, 0x42, 0x6E]  // "MsgStdBn"
}

pub open spec fn bflyt_magic() -> Seq<u8> {
    seq![0x46u8, 0x4C, 0x59, 0x54]  // "FLYT"
}

pub open spec fn bflan_magic() -> Seq<u8> {
    seq![0x46u8, 0x4C, 0x41, 0x4E]  // "FLAN"
}

pub open spec fn bntx_magic() -> Seq<u8> {
    seq![0x42u8, 0x4E, 0x54, 0x58]  // "BNTX"
}

pub open spec fn sarc_magic() -> Seq<u8> {
    seq![0x53u8, 0x41, 0x52, 0x43]  // "SARC"
}

pub open spec fn yaz0_magic() -> Seq<u8> {
    seq![0x59u8, 0x61, 0x7A, 0x30]  // "Yaz0"
}

pub open spec fn zstd_magic() -> Seq<u8> {
    seq![0x28u8, 0xB5, 0x2F, 0xFD]
}

/// The kind that the leading bytes of `data` announce. The eight-byte message
/// magics are tried before the four-byte ones; data shorter than four bytes is
/// always `Unknown`.
pub open spec fn magic_kind_of(data: Seq<u8>) -> MagicKind {
    if data.len() < 4 {
        MagicKind::Unknown
    } else if starts_with(data, msbp_magic()) {
        MagicKind::Msbp
    } else if starts_with(data, msbt_magic()) {
        MagicKind::Msbt
    } else if starts_with(data, bflyt_magic()) {
        MagicKind::Bflyt
    } else if starts_with(data, bflan_magic()) {
        MagicKind::Bflan
    } else if starts_with(data, bntx_magic()) {
        MagicKind::Bntx
    } else if starts_with(data, sarc_magic()) {
        MagicKind::Sarc
    } else if starts_with(data, yaz0_magic()) {
        MagicKind::Yaz0
    } else if starts_with(data, zstd_magic()) {
        MagicKind::Zstd
    } else {
        MagicKind::Unknown
    }
}

fn has_prefix4(data: &[u8], a: u8, b: u8, c: u8, d: u8) -> (res: bool)
    requires
        data@.len() >= 4,
    ensures
        res == starts_with(data@, seq![a, b, c, d]),
{
    let r = data[0] == a && data[1] == b && data[2] == c && data[3] == d;
    proof {
        let pat = seq![a, b, c, d];
        if r {
            assert(data@.subrange(0, 4) =~= pat);
        } else {
            assert(data@.subrange(0, 4)[0] == data@[0]);
            assert(data@.subrange(0, 4)[1] == data@[1]);
            assert(data@.subrange(0, 4)[2] == data@[2]);
            assert(data@.subrange(0, 4)[3] == data@[3]);
        }
    }
    r
}

fn has_msg_prefix(data: &[u8], kind: u8) -> (res: bool)
    requires
        data@.len() >= 8,
    ensures
        res == starts_with(data@, seq![0x4Du8, 0x73, 0x67, kind, if kind == 0x50 { 0x72u8 } else { 0x74u8 }, if kind == 0x50 { 0x6Au8 } else { 0x64u8 }, 0x42, 0x6E]),
{
    let b4: u8 = if kind == 0x50 { 0x72 } else { 0x74 };
    let b5: u8 = if kind == 0x50 { 0x6A } else { 0x64 };
    let r = data[0] == 0x4D && data[1] == 0x73 && data[2] == 0x67 && data[3] == kind
        && data[4] == b4 && data[5] == b5 && data[6] == 0x42 && data[7] == 0x6E;
    proof {
        let pat = seq![0x4Du8, 0x73, 0x67, kind, b4, b5, 0x42, 0x6E];
        let sub = data@.subrange(0, 8);
        if r {
            assert(sub =~= pat);
        } else {
            assert(sub[0] == data@[0] && sub[1] == data@[1] && sub[2] == data@[2]);
            assert(sub[3] == data@[3] && sub[4] == data@[4] && sub[5] == data@[5]);
            assert(sub[6] == data@[6] && sub[7] == data@[7]);
        }
    }
    r
}

/// Reads the magic bytes at the start of `data` and reports the kind of file.
pub fn peek_magic_kind(data: &[u8]) -> (kind: MagicKind)
    ensures
        kind == magic_kind_of(data@),
{
    if data.len() < 4 {
        return MagicKind::Unknown;
    }
    if data.len() >= 8 {
        if has_msg_prefix(data, 0x50) {
            assert(msbp_magic() =~= seq![0x4Du8, 0x73, 0x67, 0x50u8, 0x72u8, 0x6Au8, 0x42, 0x6E]);
            return MagicKind::Msbp;
        }
        if has_msg_prefix(data, 0x53) {
            assert(msbt_magic() =~= seq![0x4Du8, 0x73, 0x67, 0x53u8, 0x74u8, 0x64u8, 0x42, 0x6E]);
            assert(!starts_with(data@, msbp_magic())) by {
                assert(data@.subrange(0, 8)[3] == data@[3]);
            }
            return MagicKind::Msbt;
        }
        assert(msbp_magic() =~= seq![0x4Du8, 0x73, 0x67, 0x50u8, 0x72u8, 0x6Au8, 0x42, 0x6E]);
        assert(msbt_magic() =~= seq![0x4Du8, 0x73, 0x67, 0x53u8, 0x74u8, 0x64u8, 0x42, 0x6E]);
    } else {
        assert(!starts_with(data@, msbp_magic()));
        assert(!starts_with(data@, msbt_magic()));
    }
    if has_prefix4(data, 0x46, 0x4C, 0x59, 0x54) {
        assert(bflyt_magic() =~= seq![0x46u8, 0x4C, 0x59, 0x54]);
        proof { lemma_not_msg(data@); }
        return MagicKind::Bflyt;
    }
    assert(bflyt_magic() =~= seq![0x46u8, 0x4C, 0x59, 0x54]);
    if has_prefix4(data, 0x46, 0x4C, 0x41, 0x4E) {
        assert(bflan_magic() =~= seq![0x46u8, 0x4C, 0x41, 0x4E]);
        proof { lemma_not_msg(data@); }
        return MagicKind::Bflan;
    }
    assert(bflan_magic() =~= seq![0x46u8, 0x4C, 0x41, 0x4E]);
    if has_prefix4(data, 0x42, 0x4E, 0x54, 0x58) {
        assert(bntx_magic() =~= seq![0x42u8, 0x4E, 0x54, 0x58]);
        proof { lemma_not_msg(data@); }
        return MagicKind::Bntx;
    }
    assert(bntx_magic() =~= seq![0x42u8, 0x4E, 0x54, 0x58]);
    if has_prefix4(data, 0x53, 0x41, 0x52, 0x43) {
        assert(sarc_magic() =~= seq![0x53u8, 0x41, 0x52, 0x43]);
        proof { lemma_not_msg(data@); }
        return MagicKind::Sarc;
    }
    assert(sarc_magic() =~= seq![0x53u8, 0x41, 0x52, 0x43]);
    if has_prefix4(data, 0x59, 0x61, 0x7A, 0x30) {
        assert(yaz0_magic() =~= seq![0x59u8, 0x61, 0x7A, 0x30]);
        proof { lemma_not_msg(data@); }
        return MagicKind::Yaz0;
    }
    assert(yaz0_magic() =~= seq![0x59u8, 0x61, 0x7A, 0x30]);
    if has_prefix4(data, 0x28, 0xB5, 0x2F, 0xFD) {
        assert(zstd_magic() =~= seq![0x28u8, 0xB5, 0x2F, 0xFD]);
        proof { lemma_not_msg(data@); }
        return MagicKind::Zstd;
    }
    assert(zstd_magic() =~= seq![0x28u8, 0xB5, 0x2F, 0xFD]);
    MagicKind::Unknown
}

/// A message magic starts with 'M', which none of the four-byte magics do, so once
/// a four-byte magic is seen at the start no message magic can be there.
proof fn lemma_not_msg(data: Seq<u8>)
    requires
        data.len() >= 4,
        data[0] != 0x4Du8,
    ensures
        !starts_with(data, msbp_magic()),
        !starts_with(data, msbt_magic()),
{
    if starts_with(data, msbp_magic()) {
        assert(data.subrange(0, 8)[0] == data[0]);
    }
    if starts_with(data, msbt_magic()) {
        assert(data.subrange(0, 8)[0] == data[0]);
    }
}

} // verus!
