//! Archive kinds and their detection from the first bytes of a file.

use vstd::prelude::*;

verus! {

/// The archive formats that can be extracted.
#[derive(Debug, Clone, Copy, PartialEq, Eq, Structural)]
pub enum ArchiveType {
    Tar,
    Gz,
    Zip,
}

/// The magic number of a gzip stream (deflate method).
pub open spec fn gz_signature() -> Seq<u8> {
    seq![0x1Fu8, 0x8Bu8, 0x08u8]
}

/// The magic number of a zip archive.
pub open spec fn zip_signature() -> Seq<u8> {
    seq![0x50u8, 0x4Bu8, 0x03u8]
}

/// The kind of archive that starts with the three bytes `magic`: gzip and zip
/// by their magic numbers, plain tar otherwise.
pub fn detect_archive_type(magic: &[u8]) -> (r: ArchiveType)
    requires
        magic@.len() == 3,
    ensures
        r == (if magic@ == gz_signature() {
            ArchiveType::Gz
        } else if magic@ == zip_signature() {
            ArchiveType::Zip
        } else {
            ArchiveType::Tar
        }),
{
    if magic[0] == 0x1F && magic[1] == 0x8B && magic[2] == 0x08 {
        assert(magic@ =~= gz_signature());
        ArchiveType::Gz
    } else if magic[0] == 0x50 && magic[1] == 0x4B && magic[2] == 0x03 {
        assert(magic@ =~= zip_signature());
        ArchiveType::Zip
    } else {
        assert(magic@ != gz_signature()) by {
            if magic@ == gz_signature() {
                assert(magic@[0] == 0x1F && magic@[1] == 0x8B && magic@[2] == 0x08);
            }
        }
        assert(magic@ != zip_signature()) by {
            if magic@ == zip_signature() {
                assert(magic@[0] == 0x50 && magic@[1] == 0x4B && magic@[2] == 0x03);
            }
        }
        ArchiveType::Tar
    }
}

} // verus!
