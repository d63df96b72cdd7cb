use vstd::prelude::*;

verus! {

/// The archive formats recognised by their leading bytes.
#[derive(Clone, Copy, Debug, PartialEq, Eq, Structural)]
pub enum Format {
    Zip,
    Gzip,
    Bzip2,
    Xz,
    Tar,
    SevenZip,
    Rar,
}

/// Byte `i` of the file as the detector sees it: the detector reads into a
/// zeroed buffer, so a position past the end of the file reads as zero.
pub open spec fn byte_at(header: Seq<u8>, i: int) -> u8 {
    if 0 <= i < header.len() {
        header[i]
    } else {
        0u8
    }
}

/// The file starts with `magic` (positions past the end read as zero).
pub open spec fn starts_with_magic(header: Seq<u8>, magic: Seq<u8>) -> bool {
    forall|i: int| 0 <= i < magic.len() ==> #[trigger] byte_at(header, i) == magic[i]
}

/// The POSIX tar signature "ustar" at offset 257, read in full.
pub open spec fn has_ustar_signature(header: Seq<u8>) -> bool {
    &&& header.len() >= 262
    &&& header.subrange(257, 262) == seq![0x75u8, 0x73u8, 0x74u8, 0x61u8, 0x72u8]
}

/// The format that a file whose leading bytes are `header` has, if any.
/// The signatures are tried in this order; tar is recognised last, by the
/// "ustar" signature at offset 257.
pub open spec fn format_of(header: Seq<u8>) -> Option<Format> {
    if starts_with_magic(header, seq![0x50u8, 0x4Bu8, 0x03u8, 0x04u8])
        || starts_with_magic(header, seq![0x50u8, 0x4Bu8, 0x05u8, 0x06u8]) {
        Some(Format::Zip)
    } else if starts_with_magic(header, seq![0x1Fu8, 0x8Bu8]) {
        Some(Format::Gzip)
    } else if starts_with_magic(header, seq![0x42u8, 0x5Au8, 0x68u8]) {
        Some(Format::Bzip2)
    } else if starts_with_magic(header, seq![0xFDu8, 0x37u8, 0x7Au8, 0x58u8, 0x5Au8, 0x00u8]) {
        Some(Format::Xz)
    } else if starts_with_magic(header, seq![0x37u8, 0x7Au8, 0xBCu8, 0xAFu8, 0x27u8, 0x1Cu8]) {
        Some(Format::SevenZip)
    } else if starts_with_magic(header, seq![0x52u8, 0x61u8, 0x72u8, 0x21u8, 0x1Au8, 0x07u8]) {
        Some(Format::Rar)
    } else if has_ustar_signature(header) {
        Some(Format::Tar)
    } else {
        None
    }
}

/// The format is decided by the first eight bytes and by the five bytes at
/// offset 257 alone: two files that agree on these (a missing byte counting
/// as a zero among the first eight) have the same format.
pub proof fn lemma_format_depends_on_signature_bytes(a: Seq<u8>, b: Seq<u8>)
    requires
        forall|i: int| 0 <= i < 8 ==> byte_at(a, i) == byte_at(b, i),
        a.len() >= 262 <==> b.len() >= 262,
        a.len() >= 262 ==> a.subrange(257, 262) == b.subrange(257, 262),
    ensures
        format_of(a) == format_of(b),
{
    assert(forall|m: Seq<u8>| m.len() <= 8 ==> (starts_with_magic(a, m) == starts_with_magic(b, m)));
}

/// The signature bytes decide the format, whatever follows them: a file
/// that starts with one of the signatures below has that format, with no
/// condition on its other bytes (a RAR 4 archive, "Rar!\x1a\x07\x00", and
/// a RAR 5 archive, "Rar!\x1a\x07\x01", are both rar). The signatures start
/// with different bytes, except zip's two, so none hides another.
pub proof fn lemma_signatures_decide(h: Seq<u8>)
    ensures
        h.len() >= 4 && h[0] == 0x50 && h[1] == 0x4B && h[2] == 0x03 && h[3] == 0x04
            ==> format_of(h) == Some(Format::Zip),
        h.len() >= 4 && h[0] == 0x50 && h[1] == 0x4B && h[2] == 0x05 && h[3] == 0x06
            ==> format_of(h) == Some(Format::Zip),
        h.len() >= 2 && h[0] == 0x1F && h[1] == 0x8B ==> format_of(h) == Some(Format::Gzip),
        h.len() >= 3 && h[0] == 0x42 && h[1] == 0x5A && h[2] == 0x68
            ==> format_of(h) == Some(Format::Bzip2),
        h.len() >= 6 && h[0] == 0xFD && h[1] == 0x37 && h[2] == 0x7A && h[3] == 0x58
            && h[4] == 0x5A && h[5] == 0x00 ==> format_of(h) == Some(Format::Xz),
        h.len() >= 6 && h[0] == 0x37 && h[1] == 0x7A && h[2] == 0xBC && h[3] == 0xAF
            && h[4] == 0x27 && h[5] == 0x1C ==> format_of(h) == Some(Format::SevenZip),
        h.len() >= 6 && h[0] == 0x52 && h[1] == 0x61 && h[2] == 0x72 && h[3] == 0x21
            && h[4] == 0x1A && h[5] == 0x07 ==> format_of(h) == Some(Format::Rar),
        h.len() >= 262 && h[0] != 0x50 && h[0] != 0x1F && h[0] != 0x42 && h[0] != 0xFD
            && h[0] != 0x37 && h[0] != 0x52 && h[257] == 0x75 && h[258] == 0x73 && h[259] == 0x74
            && h[260] == 0x61 && h[261] == 0x72 ==> format_of(h) == Some(Format::Tar),
        h.len() < 262 && h[0] != 0x50 && h[0] != 0x1F && h[0] != 0x42 && h[0] != 0xFD
            && h[0] != 0x37 && h[0] != 0x52 ==> format_of(h) is None,
        h.len() == 0 ==> format_of(h) is None,
{
    assert(h.len() > 0 ==> byte_at(h, 0) == h[0]);
    assert(h.len() > 1 ==> byte_at(h, 1) == h[1]);
    assert(h.len() > 2 ==> byte_at(h, 2) == h[2]);
    assert(h.len() > 3 ==> byte_at(h, 3) == h[3]);
    assert(h.len() > 4 ==> byte_at(h, 4) == h[4]);
    assert(h.len() > 5 ==> byte_at(h, 5) == h[5]);
    assert(h.len() == 0 ==> byte_at(h, 0) == 0);
    if h.len() >= 262 {
        let sig = seq![0x75u8, 0x73u8, 0x74u8, 0x61u8, 0x72u8];
        if h[257] == 0x75 && h[258] == 0x73 && h[259] == 0x74 && h[260] == 0x61 && h[261] == 0x72 {
            assert(h.subrange(257, 262) =~= sig);
        }
    }
}

fn byte_or_zero(header: &[u8], i: usize) -> (b: u8)
    ensures
        b == byte_at(header@, i as int),
{
    if i < header.len() {
        header[i]
    } else {
        0
    }
}

fn matches_magic(header: &[u8], magic: &[u8]) -> (r: bool)
    requires
        magic@.len() <= 8,
    ensures
        r == starts_with_magic(header@, magic@),
{
    let mut i: usize = 0;
    while i < magic.len()
        invariant
            i <= magic@.len(),
            magic@.len() <= 8,
            forall|j: int| 0 <= j < i ==> #[trigger] byte_at(header@, j) == magic@[j],
        decreases magic@.len() - i,
    {
        if byte_or_zero(header, i) != magic[i] {
            return false;
        }
        i = i + 1;
    }
    true
}

fn ustar_at_257(header: &[u8]) -> (r: bool)
    ensures
        r == has_ustar_signature(header@),
{
    if header.len() < 262 {
        return false;
    }
    let r = header[257] == 0x75u8 && header[258] == 0x73u8 && header[259] == 0x74u8
        && header[260] == 0x61u8 && header[261] == 0x72u8;
    proof {
        let sig = seq![0x75u8, 0x73u8, 0x74u8, 0x61u8, 0x72u8];
        if r {
            assert(header@.subrange(257, 262) =~= sig);
        } else {
            if header@.subrange(257, 262) == sig {
                assert(header@.subrange(257, 262)[0] == header@[257]);
                assert(header@.subrange(257, 262)[1] == header@[258]);
                assert(header@.subrange(257, 262)[2] == header@[259]);
                assert(header@.subrange(257, 262)[3] == header@[260]);
                assert(header@.subrange(257, 262)[4] == header@[261]);
            }
        }
    }
    r
}

/// Recognises the archive format from the leading bytes of a file: the
/// first eight bytes carry the signature of zip, gzip, bzip2, xz, 7z and rar
/// archives; a tar archive carries "ustar" at offset 257. `None` when no
/// signature matches.
pub fn detect_format(header: &[u8]) -> (r: Option<Format>)
    ensures
        r == format_of(header@),
{
    let zip_local: [u8; 4] = [0x50, 0x4B, 0x03, 0x04];
    let zip_empty: [u8; 4] = [0x50, 0x4B, 0x05, 0x06];
    let gzip: [u8; 2] = [0x1F, 0x8B];
    let bzip2: [u8; 3] = [0x42, 0x5A, 0x68];
    let xz: [u8; 6] = [0xFD, 0x37, 0x7A, 0x58, 0x5A, 0x00];
    let seven_zip: [u8; 6] = [0x37, 0x7A, 0xBC, 0xAF, 0x27, 0x1C];
    let rar: [u8; 6] = [0x52, 0x61, 0x72, 0x21, 0x1A, 0x07];
    proof {
        assert(zip_local@ =~= seq![0x50u8, 0x4Bu8, 0x03u8, 0x04u8]);
        assert(zip_empty@ =~= seq![0x50u8, 0x4Bu8, 0x05u8, 0x06u8]);
        assert(gzip@ =~= seq![0x1Fu8, 0x8Bu8]);
        assert(bzip2@ =~= seq![0x42u8, 0x5Au8, 0x68u8]);
        assert(xz@ =~= seq![0xFDu8, 0x37u8, 0x7Au8, 0x58u8, 0x5Au8, 0x00u8]);
        assert(seven_zip@ =~= seq![0x37u8, 0x7Au8, 0xBCu8, 0xAFu8, 0x27u8, 0x1Cu8]);
        assert(rar@ =~= seq![0x52u8, 0x61u8, 0x72u8, 0x21u8, 0x1Au8, 0x07u8]);
    }
    if matches_magic(header, &zip_local) || matches_magic(header, &zip_empty) {
        Some(Format::Zip)
    } else if matches_magic(header, &gzip) {
        Some(Format::Gzip)
    } else if matches_magic(header, &bzip2) {
        Some(Format::Bzip2)
    } else if matches_magic(header, &xz) {
        Some(Format::Xz)
    } else if matches_magic(header, &seven_zip) {
        Some(Format::SevenZip)
    } else if matches_magic(header, &rar) {
        Some(Format::Rar)
    } else if ustar_at_257(header) {
        Some(Format::Tar)
    } else {
        None
    }
}

} // verus!
