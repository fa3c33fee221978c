//! Detection of filesystem magic bytes at every offset of a buffer.

use vstd::prelude::*;

verus! {

/// The filesystems whose headers the scanner recognises.
#[derive(Clone, Copy, Debug, PartialEq, Eq, Structural)]
pub enum FsType {
    Squashfs,
    CramFS,
    JFFS2,
}

/// Byte order in which a header's magic number was written.
#[derive(Clone, Copy, Debug, PartialEq, Eq, Structural)]
pub enum Endianness {
    Little,
    Big,
}

impl FsType {
    /// The name under which the filesystem is reported.
    pub open spec fn name_spec(self) -> Seq<char> {
        match self {
            FsType::Squashfs => "Squashfs"@,
            FsType::CramFS => "CramFS"@,
            FsType::JFFS2 => "JFFS2"@,
        }
    }

    /// The name under which the filesystem is reported.
    pub fn name(&self) -> (s: &'static str)
        ensures
            s@ == self.name_spec(),
    {
        match self {
            FsType::Squashfs => "Squashfs",
            FsType::CramFS => "CramFS",
            FsType::JFFS2 => "JFFS2",
        }
    }
}

impl Endianness {
    /// The name under which the byte order is reported.
    pub open spec fn name_spec(self) -> Seq<char> {
        match self {
            Endianness::Little => "Little Endian"@,
            Endianness::Big => "Big Endian"@,
        }
    }

    /// The name under which the byte order is reported.
    pub fn name(&self) -> (s: &'static str)
        ensures
            s@ == self.name_spec(),
    {
        match self {
            Endianness::Little => "Little Endian",
            Endianness::Big => "Big Endian",
        }
    }
}

/// One magic signature found in a buffer.
#[derive(Clone, Copy, Debug, PartialEq, Eq, Structural)]
pub struct FilesystemMatch {
    pub offset: usize,
    pub fs_type: FsType,
    pub endian: Endianness,
}

/// Number of bytes a buffer must hold from an offset on for that offset to be
/// examined at all.
pub const WINDOW: usize = 4;

/// The exact bytes, in buffer order, that announce a filesystem of the given
/// type and byte order.
pub open spec fn signature(fs: FsType, endian: Endianness) -> Seq<u8> {
    match (fs, endian) {
        (FsType::Squashfs, Endianness::Little) => seq![0x73u8, 0x71u8, 0x73u8, 0x68u8],
        (FsType::Squashfs, Endianness::Big) => seq![0x68u8, 0x73u8, 0x71u8, 0x73u8],
        (FsType::CramFS, Endianness::Little) => seq![0x28u8, 0xcdu8, 0x3du8, 0x45u8],
        (FsType::CramFS, Endianness::Big) => seq![0x45u8, 0x3du8, 0xcdu8, 0x28u8],
        (FsType::JFFS2, Endianness::Little) => seq![0x19u8, 0x85u8],
        (FsType::JFFS2, Endianness::Big) => seq![0x85u8, 0x19u8],
    }
}

/// Whether the bytes of `data` starting at `at` are the signature of `fs` in
/// byte order `endian`.
pub open spec fn has_signature(data: Seq<u8>, at: int, fs: FsType, endian: Endianness) -> bool {
    let sig = signature(fs, endian);
    0 <= at && at + sig.len() <= data.len() && data.subrange(at, at + sig.len()) == sig
}

/// The match that a positive test of `fs` and `endian` at `at` yields, as a
/// sequence of one element, or the empty sequence.
pub open spec fn hit(data: Seq<u8>, at: int, fs: FsType, endian: Endianness) -> Seq<
    FilesystemMatch,
> {
    if has_signature(data, at, fs, endian) {
        seq![FilesystemMatch { offset: at as usize, fs_type: fs, endian }]
    } else {
        Seq::empty()
    }
}

/// The matches of the four-byte signatures at one offset: the first that
/// fits among Squashfs then CramFS, each little-endian before big-endian.
pub open spec fn wide_matches_at(data: Seq<u8>, at: int) -> Seq<FilesystemMatch> {
    if has_signature(data, at, FsType::Squashfs, Endianness::Little) {
        hit(data, at, FsType::Squashfs, Endianness::Little)
    } else if has_signature(data, at, FsType::Squashfs, Endianness::Big) {
        hit(data, at, FsType::Squashfs, Endianness::Big)
    } else if has_signature(data, at, FsType::CramFS, Endianness::Little) {
        hit(data, at, FsType::CramFS, Endianness::Little)
    } else {
        hit(data, at, FsType::CramFS, Endianness::Big)
    }
}

/// The matches of the two-byte signatures at one offset.
pub open spec fn narrow_matches_at(data: Seq<u8>, at: int) -> Seq<FilesystemMatch> {
    if has_signature(data, at, FsType::JFFS2, Endianness::Little) {
        hit(data, at, FsType::JFFS2, Endianness::Little)
    } else {
        hit(data, at, FsType::JFFS2, Endianness::Big)
    }
}

/// Everything reported for one offset: the four-byte check first, then the
/// two-byte check, which is independent of it.
pub open spec fn matches_at(data: Seq<u8>, at: int) -> Seq<FilesystemMatch> {
    wide_matches_at(data, at) + narrow_matches_at(data, at)
}

/// The matches at the offsets below `upto`, in ascending order of offset.
pub open spec fn matches_below(data: Seq<u8>, upto: int) -> Seq<FilesystemMatch>
    decreases upto,
{
    if upto <= 0 {
        Seq::empty()
    } else {
        matches_below(data, upto - 1) + matches_at(data, upto - 1)
    }
}

/// Number of offsets that a scan of a buffer of length `len` examines: those
/// that leave room for a whole window.
pub open spec fn offsets_scanned(len: nat) -> int {
    if len < WINDOW {
        0
    } else {
        len - WINDOW + 1
    }
}

/// The result of scanning a whole buffer.
pub open spec fn scan_spec(data: Seq<u8>) -> Seq<FilesystemMatch> {
    matches_below(data, offsets_scanned(data.len()))
}

/// Length and first byte of every signature; no two of one length begin
/// alike.
proof fn lemma_signature_heads()
    ensures
        signature(FsType::Squashfs, Endianness::Little).len() == 4,
        signature(FsType::Squashfs, Endianness::Big).len() == 4,
        signature(FsType::CramFS, Endianness::Little).len() == 4,
        signature(FsType::CramFS, Endianness::Big).len() == 4,
        signature(FsType::JFFS2, Endianness::Little).len() == 2,
        signature(FsType::JFFS2, Endianness::Big).len() == 2,
        signature(FsType::Squashfs, Endianness::Little)[0] == 0x73,
        signature(FsType::Squashfs, Endianness::Big)[0] == 0x68,
        signature(FsType::CramFS, Endianness::Little)[0] == 0x28,
        signature(FsType::CramFS, Endianness::Big)[0] == 0x45,
        signature(FsType::JFFS2, Endianness::Little)[0] == 0x19,
        signature(FsType::JFFS2, Endianness::Big)[0] == 0x85,
{
}

/// What is reported at one offset is exactly the signatures that stand
/// there.
pub proof fn lemma_matches_at(data: Seq<u8>, at: int, m: FilesystemMatch)
    requires
        0 <= at <= usize::MAX,
    ensures
        matches_at(data, at).contains(m) <==> m.offset == at && has_signature(
            data,
            at,
            m.fs_type,
            m.endian,
        ),
{
    lemma_signature_heads();
    let wide = wide_matches_at(data, at);
    let narrow = narrow_matches_at(data, at);
    let both = wide + narrow;
    if both.contains(m) {
        let i = choose|i: int| 0 <= i < both.len() && both[i] == m;
        if i < wide.len() {
            assert(wide[i] == m);
        } else {
            assert(narrow[i - wide.len()] == m);
        }
    }
    if m.offset == at && has_signature(data, at, m.fs_type, m.endian) {
        let sig = signature(m.fs_type, m.endian);
        let window = data.subrange(at, at + sig.len());
        assert(window[0] == sig[0]);
        if sig.len() == 4 {
            assert forall|fs: FsType, endian: Endianness|
                has_signature(data, at, fs, endian) && signature(fs, endian).len()
                    == 4 implies fs == m.fs_type && endian == m.endian by {
                assert(data.subrange(at, at + 4)[0] == signature(fs, endian)[0]);
            }
            assert(wide == hit(data, at, m.fs_type, m.endian));
            assert(wide[0] == m);
            assert(both[0] == m);
        } else {
            assert forall|fs: FsType, endian: Endianness|
                has_signature(data, at, fs, endian) && signature(fs, endian).len()
                    == 2 implies fs == m.fs_type && endian == m.endian by {
                assert(data.subrange(at, at + 2)[0] == signature(fs, endian)[0]);
            }
            assert(narrow == hit(data, at, m.fs_type, m.endian));
            assert(narrow[0] == m);
            assert(both[wide.len() as int] == m);
        }
    }
}

/// What is reported below an offset is exactly the signatures that stand
/// at the offsets below it.
pub proof fn lemma_matches_below(data: Seq<u8>, upto: int, m: FilesystemMatch)
    requires
        0 <= upto <= usize::MAX,
    ensures
        matches_below(data, upto).contains(m) <==> m.offset < upto && has_signature(
            data,
            m.offset as int,
            m.fs_type,
            m.endian,
        ),
    decreases upto,
{
    if upto > 0 {
        let before = matches_below(data, upto - 1);
        let here = matches_at(data, upto - 1);
        let all = before + here;
        lemma_matches_below(data, upto - 1, m);
        lemma_matches_at(data, upto - 1, m);
        if all.contains(m) {
            let i = choose|i: int| 0 <= i < all.len() && all[i] == m;
            if i < before.len() {
                assert(before[i] == m);
            } else {
                assert(here[i - before.len()] == m);
            }
        }
        if before.contains(m) {
            let i = choose|i: int| 0 <= i < before.len() && before[i] == m;
            assert(all[i] == m);
        }
        if here.contains(m) {
            let i = choose|i: int| 0 <= i < here.len() && here[i] == m;
            assert(all[before.len() + i] == m);
        }
    }
}

/// A scan reports a match exactly where a signature stands at an offset
/// that leaves room for a whole window: nothing else is reported and no
/// such signature is missed.
pub proof fn lemma_scan_reports(data: Seq<u8>, m: FilesystemMatch)
    requires
        data.len() <= usize::MAX,
    ensures
        scan_spec(data).contains(m) <==> m.offset + WINDOW <= data.len() && has_signature(
            data,
            m.offset as int,
            m.fs_type,
            m.endian,
        ),
{
    lemma_matches_below(data, offsets_scanned(data.len()), m);
}

/// The matches below an offset come in ascending order of offset.
proof fn lemma_below_ordered(data: Seq<u8>, upto: int, i: int, j: int)
    requires
        0 <= upto <= usize::MAX,
        0 <= i <= j < matches_below(data, upto).len(),
    ensures
        matches_below(data, upto)[i].offset <= matches_below(data, upto)[j].offset < upto,
    decreases upto,
{
    let before = matches_below(data, upto - 1);
    let here = matches_at(data, upto - 1);
    if j < before.len() {
        lemma_below_ordered(data, upto - 1, i, j);
    } else {
        assert(here[j - before.len()].offset == upto - 1);
        if i < before.len() {
            lemma_below_ordered(data, upto - 1, i, i);
        } else {
            assert(here[i - before.len()].offset == upto - 1);
        }
    }
}

/// The matches of a scan come in ascending order of offset.
pub proof fn lemma_scan_ordered(data: Seq<u8>, i: int, j: int)
    requires
        data.len() <= usize::MAX,
        0 <= i <= j < scan_spec(data).len(),
    ensures
        scan_spec(data)[i].offset <= scan_spec(data)[j].offset,
{
    lemma_below_ordered(data, offsets_scanned(data.len()), i, j);
}

/// Tests one signature at one offset that leaves room for a whole window.
pub fn has_signature_at(data: &[u8], at: usize, fs: FsType, endian: Endianness) -> (found: bool)
    requires
        at + WINDOW <= data@.len(),
    ensures
        found == has_signature(data@, at as int, fs, endian),
{
    let b0: u8 = data[at];
    let b1: u8 = data[at + 1];
    let b2: u8 = data[at + 2];
    let b3: u8 = data[at + 3];
    let ghost sig = signature(fs, endian);
    let ghost win = data@.subrange(at as int, at + sig.len());
    proof {
        assert(win[0] == b0 && win[1] == b1);
        if sig.len() == 4 {
            assert(win[2] == b2 && win[3] == b3);
        }
    }
    let found = match (fs, endian) {
        (FsType::Squashfs, Endianness::Little) => b0 == 0x73 && b1 == 0x71 && b2 == 0x73 && b3
            == 0x68,
        (FsType::Squashfs, Endianness::Big) => b0 == 0x68 && b1 == 0x73 && b2 == 0x71 && b3
            == 0x73,
        (FsType::CramFS, Endianness::Little) => b0 == 0x28 && b1 == 0xcd && b2 == 0x3d && b3
            == 0x45,
        (FsType::CramFS, Endianness::Big) => b0 == 0x45 && b1 == 0x3d && b2 == 0xcd && b3 == 0x28,
        (FsType::JFFS2, Endianness::Little) => b0 == 0x19 && b1 == 0x85,
        (FsType::JFFS2, Endianness::Big) => b0 == 0x85 && b1 == 0x19,
    };
    proof {
        if found {
            assert(win =~= sig);
        }
    }
    found
}

/// Scans `data` for filesystem signatures.
///
/// Every offset that leaves room for four bytes is examined, none is skipped
/// after a match, and the matches come in ascending order of offset; a buffer
/// shorter than four bytes yields nothing.
pub fn find_filesystem_magic(data: &[u8]) -> (matches: Vec<FilesystemMatch>)
    ensures
        matches@ == scan_spec(data@),
        data@.len() < WINDOW ==> matches@.len() == 0,
{
    let mut matches: Vec<FilesystemMatch> = Vec::new();
    if data.len() < WINDOW {
        return matches;
    }
    let last: usize = data.len() - WINDOW;
    let mut i: usize = 0;
    while i <= last
        invariant
            last + WINDOW == data@.len(),
            last < usize::MAX,
            i <= last + 1,
            matches@ == matches_below(data@, i as int),
        decreases last + 1 - i,
    {
        let ghost before = matches@;
        if has_signature_at(data, i, FsType::Squashfs, Endianness::Little) {
            matches.push(
                FilesystemMatch { offset: i, fs_type: FsType::Squashfs, endian: Endianness::Little },
            );
        } else if has_signature_at(data, i, FsType::Squashfs, Endianness::Big) {
            matches.push(
                FilesystemMatch { offset: i, fs_type: FsType::Squashfs, endian: Endianness::Big },
            );
        } else if has_signature_at(data, i, FsType::CramFS, Endianness::Little) {
            matches.push(
                FilesystemMatch { offset: i, fs_type: FsType::CramFS, endian: Endianness::Little },
            );
        } else if has_signature_at(data, i, FsType::CramFS, Endianness::Big) {
            matches.push(
                FilesystemMatch { offset: i, fs_type: FsType::CramFS, endian: Endianness::Big },
            );
        }
        assert(matches@ =~= before + wide_matches_at(data@, i as int));
        let ghost middle = matches@;
        if has_signature_at(data, i, FsType::JFFS2, Endianness::Little) {
            matches.push(
                FilesystemMatch { offset: i, fs_type: FsType::JFFS2, endian: Endianness::Little },
            );
        } else if has_signature_at(data, i, FsType::JFFS2, Endianness::Big) {
            matches.push(
                FilesystemMatch { offset: i, fs_type: FsType::JFFS2, endian: Endianness::Big },
            );
        }
        assert(matches@ =~= middle + narrow_matches_at(data@, i as int));
        assert(matches@ =~= before + matches_at(data@, i as int));
        i = i + 1;
    }
    matches
}

} // verus!
