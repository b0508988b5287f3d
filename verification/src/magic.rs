//! Magic bytes: what a file *is* before its name is trusted.

use vstd::prelude::*;
use crate::system::System;

verus! {

/// What the first bytes of a file say it is.
#[derive(Debug, Clone, Copy, PartialEq, Eq, Structural)]
pub enum Kind {
    /// A container Den can unpack: zip, 7z, rar, gzip, tar.
    Archive(Archive),
    /// A ROM with a recognisable header.
    Rom(System),
    /// An ISO9660 disc image.
    Iso9660,
    /// A DOS/Windows executable (MZ header).
    Mz,
    /// Nothing nameable.
    Unknown,
}

/// The archive formats Den unpacks.
#[derive(Debug, Clone, Copy, PartialEq, Eq, Structural)]
pub enum Archive {
    Zip,
    SevenZ,
    Rar,
    Gzip,
    Tar,
}

/// Where the ISO9660 volume descriptor's marker starts on a 2048-byte
/// sector disc.
pub const ISO_MARKER: usize = 0x8001;

/// How many leading bytes `kinds` can ever look at.
pub const HEAD: usize = 0x8006;

/// `p` occurs in `h` starting at `off`.
pub open spec fn bytes_at(h: Seq<u8>, off: int, p: Seq<u8>) -> bool {
    off + p.len() <= h.len() && h.subrange(off, off + p.len()) == p
}

/// The classification of a file head, signature by signature, first match
/// wins.
pub open spec fn kind_of(h: Seq<u8>) -> Kind {
    if bytes_at(h, 0, seq![0x50u8, 0x4b, 0x03, 0x04]) || bytes_at(
        h,
        0,
        seq![0x50u8, 0x4b, 0x05, 0x06],
    ) {
        Kind::Archive(Archive::Zip)
    } else if bytes_at(h, 0, seq![0x37u8, 0x7a, 0xbc, 0xaf, 0x27, 0x1c]) {
        Kind::Archive(Archive::SevenZ)
    } else if bytes_at(h, 0, seq![0x52u8, 0x61, 0x72, 0x21, 0x1a, 0x07]) {
        Kind::Archive(Archive::Rar)
    } else if bytes_at(h, 0, seq![0x1fu8, 0x8b]) {
        Kind::Archive(Archive::Gzip)
    } else if h.len() >= 262 && bytes_at(h, 257, seq![0x75u8, 0x73, 0x74, 0x61, 0x72]) {
        Kind::Archive(Archive::Tar)
    } else if bytes_at(h, 0, seq![0x4eu8, 0x45, 0x53, 0x1a]) {
        Kind::Rom(System::Nes)
    } else if bytes_at(h, 0, seq![0x80u8, 0x37, 0x12, 0x40]) || bytes_at(
        h,
        0,
        seq![0x37u8, 0x80, 0x40, 0x12],
    ) || bytes_at(h, 0, seq![0x40u8, 0x12, 0x37, 0x80]) {
        Kind::Rom(System::N64)
    } else if bytes_at(h, 0x8001, seq![0x43u8, 0x44, 0x30, 0x30, 0x31]) {
        Kind::Iso9660
    } else if bytes_at(h, 0, seq![0x4du8, 0x5a]) {
        Kind::Mz
    } else {
        Kind::Unknown
    }
}

/// Whether `p` occurs in `h` at `off`.
pub fn has_bytes_at(h: &[u8], off: usize, p: &[u8]) -> (r: bool)
    ensures
        r == bytes_at(h@, off as int, p@),
{
    if off > h.len() || p.len() > h.len() - off {
        return false;
    }
    let mut i: usize = 0;
    while i < p.len()
        invariant
            off + p@.len() <= h@.len(),
            h@.len() <= usize::MAX,
            i <= p@.len(),
            forall|k: int| 0 <= k < i ==> h@[off + k] == p@[k],
        decreases p@.len() - i,
    {
        if h[off + i] != p[i] {
            assert(h@.subrange(off as int, off + p@.len())[i as int] != p@[i as int]);
            return false;
        }
        i += 1;
    }
    assert(h@.subrange(off as int, off + p@.len()) =~= p@);
    true
}

/// Classify a file's head without touching the disk.
pub fn kinds(head: &[u8]) -> (k: Kind)
    ensures
        k == kind_of(head@),
{
    let zip1: [u8; 4] = [0x50, 0x4b, 0x03, 0x04];
    let zip2: [u8; 4] = [0x50, 0x4b, 0x05, 0x06];
    let seven: [u8; 6] = [0x37, 0x7a, 0xbc, 0xaf, 0x27, 0x1c];
    let rar: [u8; 6] = [0x52, 0x61, 0x72, 0x21, 0x1a, 0x07];
    let gz: [u8; 2] = [0x1f, 0x8b];
    let ustar: [u8; 5] = [0x75, 0x73, 0x74, 0x61, 0x72];
    let ines: [u8; 4] = [0x4e, 0x45, 0x53, 0x1a];
    let z64: [u8; 4] = [0x80, 0x37, 0x12, 0x40];
    let v64: [u8; 4] = [0x37, 0x80, 0x40, 0x12];
    let n64: [u8; 4] = [0x40, 0x12, 0x37, 0x80];
    let cd001: [u8; 5] = [0x43, 0x44, 0x30, 0x30, 0x31];
    let mz: [u8; 2] = [0x4d, 0x5a];
    assert(zip1@ =~= seq![0x50u8, 0x4b, 0x03, 0x04]);
    assert(zip2@ =~= seq![0x50u8, 0x4b, 0x05, 0x06]);
    assert(seven@ =~= seq![0x37u8, 0x7a, 0xbc, 0xaf, 0x27, 0x1c]);
    assert(rar@ =~= seq![0x52u8, 0x61, 0x72, 0x21, 0x1a, 0x07]);
    assert(gz@ =~= seq![0x1fu8, 0x8b]);
    assert(ustar@ =~= seq![0x75u8, 0x73, 0x74, 0x61, 0x72]);
    assert(ines@ =~= seq![0x4eu8, 0x45, 0x53, 0x1a]);
    assert(z64@ =~= seq![0x80u8, 0x37, 0x12, 0x40]);
    assert(v64@ =~= seq![0x37u8, 0x80, 0x40, 0x12]);
    assert(n64@ =~= seq![0x40u8, 0x12, 0x37, 0x80]);
    assert(cd001@ =~= seq![0x43u8, 0x44, 0x30, 0x30, 0x31]);
    assert(mz@ =~= seq![0x4du8, 0x5a]);
    if has_bytes_at(head, 0, &zip1) || has_bytes_at(head, 0, &zip2) {
        return Kind::Archive(Archive::Zip);
    }
    if has_bytes_at(head, 0, &seven) {
        return Kind::Archive(Archive::SevenZ);
    }
    if has_bytes_at(head, 0, &rar) {
        return Kind::Archive(Archive::Rar);
    }
    if has_bytes_at(head, 0, &gz) {
        return Kind::Archive(Archive::Gzip);
    }
    if head.len() >= 262 && has_bytes_at(head, 257, &ustar) {
        return Kind::Archive(Archive::Tar);
    }
    if has_bytes_at(head, 0, &ines) {
        return Kind::Rom(System::Nes);
    }
    if has_bytes_at(head, 0, &z64) || has_bytes_at(head, 0, &v64) || has_bytes_at(head, 0, &n64) {
        return Kind::Rom(System::N64);
    }
    if has_bytes_at(head, ISO_MARKER, &cd001) {
        return Kind::Iso9660;
    }
    if has_bytes_at(head, 0, &mz) {
        return Kind::Mz;
    }
    Kind::Unknown
}

/// A head too short to hold the whole disc marker is never taken for a disc,
/// however much of the marker it does hold.
pub proof fn lemma_short_head_is_no_disc(h: Seq<u8>)
    requires
        h.len() < HEAD,
    ensures
        kind_of(h) != Kind::Iso9660,
{
}

/// The POSIX tar mark: `ustar` at byte 257 of the first header block.
pub open spec fn ustar_mark(h: Seq<u8>) -> bool {
    h.len() >= 262 && h[257] == 0x75 && h[258] == 0x73 && h[259] == 0x74 && h[260] == 0x61 && h[261] == 0x72
}

proof fn lemma_leading(h: Seq<u8>, p: Seq<u8>)
    requires
        p.len() <= h.len(),
        forall|i: int| 0 <= i < p.len() ==> h[i] == p[i],
    ensures
        bytes_at(h, 0, p),
{
    assert(h.subrange(0, p.len() as int) =~= p);
}

proof fn lemma_not_leading(h: Seq<u8>, p: Seq<u8>)
    requires
        p.len() > 0,
        h.len() > 0,
        h[0] != p[0],
    ensures
        !bytes_at(h, 0, p),
{
    if bytes_at(h, 0, p) {
        assert(h.subrange(0, p.len() as int)[0] == h[0]);
    }
}

/// Each signature names its kind, written in raw bytes: a zip's `PK\3\4`
/// (or an empty zip's `PK\5\6`), 7-Zip's six bytes, RAR's `Rar!\x1a\x07`,
/// gzip's `\x1f\x8b`; a tar's `ustar` at byte 257 when no archive signature
/// leads the file; and, when the file is no tar, an iNES header, an N64
/// header in any of its three byte orders, and a DOS `MZ` with no disc
/// marker.
pub proof fn lemma_signatures_name_their_kind(h: Seq<u8>)
    ensures
        h.len() >= 4 && h[0] == 0x50 && h[1] == 0x4b && h[2] == 0x03 && h[3] == 0x04 ==> kind_of(h)
            == Kind::Archive(Archive::Zip),
        h.len() >= 4 && h[0] == 0x50 && h[1] == 0x4b && h[2] == 0x05 && h[3] == 0x06 ==> kind_of(h)
            == Kind::Archive(Archive::Zip),
        h.len() >= 6 && h[0] == 0x37 && h[1] == 0x7a && h[2] == 0xbc && h[3] == 0xaf && h[4] == 0x27
            && h[5] == 0x1c ==> kind_of(h) == Kind::Archive(Archive::SevenZ),
        h.len() >= 6 && h[0] == 0x52 && h[1] == 0x61 && h[2] == 0x72 && h[3] == 0x21 && h[4] == 0x1a
            && h[5] == 0x07 ==> kind_of(h) == Kind::Archive(Archive::Rar),
        h.len() >= 2 && h[0] == 0x1f && h[1] == 0x8b ==> kind_of(h) == Kind::Archive(Archive::Gzip),
        ustar_mark(h) && h[0] != 0x50 && h[0] != 0x37 && h[0] != 0x52 && h[0] != 0x1f ==> kind_of(h)
            == Kind::Archive(Archive::Tar),
        !ustar_mark(h) && h.len() >= 4 && h[0] == 0x4e && h[1] == 0x45 && h[2] == 0x53 && h[3] == 0x1a
            ==> kind_of(h) == Kind::Rom(System::Nes),
        !ustar_mark(h) && h.len() >= 4 && ((h[0] == 0x80 && h[1] == 0x37 && h[2] == 0x12 && h[3] == 0x40)
            || (h[0] == 0x37 && h[1] == 0x80 && h[2] == 0x40 && h[3] == 0x12) || (h[0] == 0x40 && h[1]
            == 0x12 && h[2] == 0x37 && h[3] == 0x80)) ==> kind_of(h) == Kind::Rom(System::N64),
        !ustar_mark(h) && h.len() >= 2 && h[0] == 0x4d && h[1] == 0x5a && !bytes_at(
            h,
            0x8001,
            seq![0x43u8, 0x44, 0x30, 0x30, 0x31],
        ) ==> kind_of(h) == Kind::Mz,
{
    let zip = seq![0x50u8, 0x4b, 0x03, 0x04];
    let zip0 = seq![0x50u8, 0x4b, 0x05, 0x06];
    let sz = seq![0x37u8, 0x7a, 0xbc, 0xaf, 0x27, 0x1c];
    let rar = seq![0x52u8, 0x61, 0x72, 0x21, 0x1a, 0x07];
    let gz = seq![0x1fu8, 0x8b];
    let ustar = seq![0x75u8, 0x73, 0x74, 0x61, 0x72];
    let nes = seq![0x4eu8, 0x45, 0x53, 0x1a];
    let n1 = seq![0x80u8, 0x37, 0x12, 0x40];
    let n2 = seq![0x37u8, 0x80, 0x40, 0x12];
    let n3 = seq![0x40u8, 0x12, 0x37, 0x80];
    let mz = seq![0x4du8, 0x5a];
    if h.len() > 0 {
        if h[0] != 0x50 {
            lemma_not_leading(h, zip);
            lemma_not_leading(h, zip0);
        }
        if h[0] != 0x37 {
            lemma_not_leading(h, sz);
            lemma_not_leading(h, n2);
        }
        if h[0] != 0x52 {
            lemma_not_leading(h, rar);
        }
        if h[0] != 0x1f {
            lemma_not_leading(h, gz);
        }
        if h[0] != 0x4e {
            lemma_not_leading(h, nes);
        }
        if h[0] != 0x80 {
            lemma_not_leading(h, n1);
        }
        if h[0] != 0x40 {
            lemma_not_leading(h, n3);
        }
    }
    if h.len() >= 4 && h[0] == 0x50 && h[1] == 0x4b && h[2] == 0x03 && h[3] == 0x04 {
        lemma_leading(h, zip);
    }
    if h.len() >= 4 && h[0] == 0x50 && h[1] == 0x4b && h[2] == 0x05 && h[3] == 0x06 {
        lemma_leading(h, zip0);
    }
    if h.len() >= 6 && h[0] == 0x37 && h[1] == 0x7a && h[2] == 0xbc && h[3] == 0xaf && h[4] == 0x27
        && h[5] == 0x1c {
        lemma_leading(h, sz);
    }
    if h.len() >= 6 && h[0] == 0x52 && h[1] == 0x61 && h[2] == 0x72 && h[3] == 0x21 && h[4] == 0x1a
        && h[5] == 0x07 {
        lemma_leading(h, rar);
    }
    if h.len() >= 2 && h[0] == 0x1f && h[1] == 0x8b {
        lemma_leading(h, gz);
    }
    if ustar_mark(h) {
        assert(h.subrange(257, 262) =~= ustar);
    } else if h.len() >= 262 && bytes_at(h, 257, ustar) {
        assert(h.subrange(257, 262)[0] == h[257]);
        assert(h.subrange(257, 262)[1] == h[258]);
        assert(h.subrange(257, 262)[2] == h[259]);
        assert(h.subrange(257, 262)[3] == h[260]);
        assert(h.subrange(257, 262)[4] == h[261]);
    }
    if h.len() >= 4 && h[0] == 0x4e && h[1] == 0x45 && h[2] == 0x53 && h[3] == 0x1a {
        lemma_leading(h, nes);
    }
    if h.len() >= 4 && h[0] == 0x80 && h[1] == 0x37 && h[2] == 0x12 && h[3] == 0x40 {
        lemma_leading(h, n1);
    }
    if h.len() >= 4 && h[0] == 0x37 && h[1] == 0x80 && h[2] == 0x40 && h[3] == 0x12 {
        lemma_leading(h, n2);
        if bytes_at(h, 0, sz) {
            assert(h.subrange(0, 6)[1] == h[1]);
        }
    }
    if h.len() >= 4 && h[0] == 0x40 && h[1] == 0x12 && h[2] == 0x37 && h[3] == 0x80 {
        lemma_leading(h, n3);
    }
    if h.len() >= 2 && h[0] == 0x4d && h[1] == 0x5a {
        lemma_leading(h, mz);
    }
}

} // verus!
