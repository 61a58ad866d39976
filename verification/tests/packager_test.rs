use seesea_installer::packager::{
    compress_file, decode_archive, decompress_file, encode_archive, pack_directory,
    unpack_directory, ArchiveEntry, ArchiveError,
};

fn entry(path: &str, content: &[u8]) -> ArchiveEntry {
    ArchiveEntry { path: path.to_string(), content: content.to_vec() }
}

#[test]
fn archive_has_the_documented_layout() {
    let bytes = encode_archive(&vec![entry("a.txt", b"hi")]).unwrap();
    let mut expected = vec![5, 0, 0, 0];
    expected.extend_from_slice(b"a.txt");
    expected.extend_from_slice(&[2, 0, 0, 0, 0, 0, 0, 0]);
    expected.extend_from_slice(b"hi");
    assert_eq!(bytes, expected);
    assert_eq!(encode_archive(&Vec::new()).unwrap(), Vec::<u8>::new());
}

#[test]
fn archive_reads_back() {
    let entries = vec![
        entry("bin/app", &[0, 1, 2, 255]),
        entry("empty", b""),
        entry("docs/\u{e9}t\u{e9}.md", b"# notes\n"),
    ];
    let bytes = encode_archive(&entries).unwrap();
    assert_eq!(decode_archive(&bytes).unwrap(), entries);
    assert_eq!(decode_archive(&[]).unwrap(), Vec::new());
}

#[test]
fn truncated_archives_are_rejected() {
    let bytes = encode_archive(&vec![entry("a.txt", b"hello")]).unwrap();
    for cut in 1..bytes.len() {
        assert_eq!(decode_archive(&bytes[..cut]), Err(ArchiveError::Truncated), "cut at {cut}");
    }
    assert_eq!(decode_archive(&[9, 0, 0]), Err(ArchiveError::Truncated));
}

#[test]
fn path_that_is_not_text_is_rejected() {
    let mut bytes = vec![2, 0, 0, 0, 0xff, 0xfe];
    bytes.extend_from_slice(&[0; 8]);
    assert_eq!(decode_archive(&bytes), Err(ArchiveError::InvalidPath));
    // The path is checked before the length of the content is read.
    assert_eq!(decode_archive(&[2, 0, 0, 0, 0xff, 0xfe]), Err(ArchiveError::InvalidPath));
}

#[test]
fn compression_changes_and_restores_the_bytes() {
    let content = vec![7u8; 4096];
    let packed = compress_file(&content).unwrap();
    assert_ne!(packed, content);
    assert!(packed.len() < content.len());
    assert_eq!(&packed[..4], &[0x28, 0xb5, 0x2f, 0xfd]);
    assert_eq!(decompress_file(&packed).unwrap(), content);
    assert_eq!(compress_file(&content).unwrap(), packed);
}

#[test]
fn bytes_that_are_no_frame_do_not_decompress() {
    assert_eq!(decompress_file(b"certainly not compressed"), Err(ArchiveError::Compression));
}

#[test]
fn packed_directory_unpacks() {
    let entries = vec![entry("one", b"1"), entry("dir/two", b"22"), entry("three", &[3; 300])];
    let packed = pack_directory(&entries).unwrap();
    assert_ne!(packed, encode_archive(&entries).unwrap());
    assert_eq!(unpack_directory(&packed).unwrap(), entries);
    assert_eq!(unpack_directory(b"junk"), Err(ArchiveError::Compression));
}
