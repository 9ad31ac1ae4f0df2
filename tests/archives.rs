use utils_box::archives::{detect_archive_type, ArchiveType};

#[test]
fn detects_archive_types() {
    assert_eq!(detect_archive_type(&[0x1F, 0x8B, 0x08]), ArchiveType::Gz);
    assert_eq!(detect_archive_type(&[0x50, 0x4B, 0x03]), ArchiveType::Zip);
    assert_eq!(detect_archive_type(&[0x1F, 0x8B, 0x07]), ArchiveType::Tar);
    assert_eq!(detect_archive_type(&[b'u', b's', b't']), ArchiveType::Tar);
}
