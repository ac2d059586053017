use pakkit::entries::{ExtractError, TreeEntry};
use pakkit::pack::pack_entries;
use pakkit::unpack::unpack_entries;

fn file(path: &str, data: &[u8]) -> TreeEntry {
    TreeEntry { path: path.to_string(), is_dir: false, data: data.to_vec() }
}

fn dir(path: &str) -> TreeEntry {
    TreeEntry { path: path.to_string(), is_dir: true, data: Vec::new() }
}

#[test]
fn round_trip_reproduces_tree() {
    let tree = vec![
        file("readme.txt", b"hello world!"),
        dir("data"),
        file("data/config.json", b"{\"answer\":42,\"padding\":\"xxxxxxxxxxxxxx\"}"),
        file("empty.bin", b""),
        dir("data/inner"),
    ];
    let bytes = pack_entries(&tree).expect("pack");
    let out = unpack_entries(bytes).expect("unpack");
    assert_eq!(out.len(), tree.len());
    for (got, want) in out.iter().zip(tree.iter()) {
        assert_eq!(got.is_dir, want.is_dir);
        assert_eq!(got.data, want.data);
        let expected_name =
            if want.is_dir { format!("{}/", want.path) } else { want.path.clone() };
        assert_eq!(got.name, expected_name);
    }
}

#[test]
fn three_entry_scenario() {
    let tree = vec![
        file("readme.txt", b"hello world!"),
        dir("data"),
        file("data/config.json", b"{\"answer\":42,\"padding\":\"xxxxxxxxxxxxxx\"}"),
    ];
    assert_eq!(tree[0].data.len(), 12);
    assert_eq!(tree[2].data.len(), 40);
    let bytes = pack_entries(&tree).expect("pack");

    let mut archive = zip::ZipArchive::new(std::io::Cursor::new(bytes.clone())).expect("open");
    assert_eq!(archive.len(), 3);
    assert!(archive.by_name("readme.txt").is_ok());
    assert!(archive.by_name("data/").is_ok());
    assert!(archive.by_name("data/config.json").is_ok());

    let out = unpack_entries(bytes).expect("unpack");
    assert_eq!(out.len(), 3);
    assert_eq!(out[0].name, "readme.txt");
    assert!(!out[0].is_dir);
    assert_eq!(out[0].data.len(), 12);
    assert_eq!(out[0].data, b"hello world!".to_vec());
    assert_eq!(out[1].name, "data/");
    assert!(out[1].is_dir);
    assert_eq!(out[1].data.len(), 0);
    assert_eq!(out[2].name, "data/config.json");
    assert!(!out[2].is_dir);
    assert_eq!(out[2].data.len(), 40);
}

#[test]
fn backslash_paths_normalized_in_archive() {
    let tree = vec![file("a\\b\\c.txt", b"payload")];
    let bytes = pack_entries(&tree).expect("pack");
    let mut archive = zip::ZipArchive::new(std::io::Cursor::new(bytes)).expect("open");
    let entry = archive.by_index(0).expect("entry");
    assert_eq!(entry.name(), "a/b/c.txt");
}

#[test]
fn empty_tree_round_trips() {
    let bytes = pack_entries(&Vec::new()).expect("pack");
    let out = unpack_entries(bytes).expect("unpack");
    assert!(out.is_empty());
}

#[test]
fn traversal_entry_rejected() {
    let mut w = zip::ZipWriter::new(std::io::Cursor::new(Vec::new()));
    let options = zip::write::SimpleFileOptions::default();
    w.start_file::<&str, ()>("../../escape.txt", options).expect("start");
    std::io::Write::write_all(&mut w, b"evil").expect("write");
    let bytes = w.finish().expect("finish").into_inner();
    let err = unpack_entries(bytes).expect_err("must reject");
    assert_eq!(err, ExtractError::UnsafeEntryName("../../escape.txt".to_string()));
}

#[test]
fn absolute_entry_rejected() {
    let mut w = zip::ZipWriter::new(std::io::Cursor::new(Vec::new()));
    let options = zip::write::SimpleFileOptions::default();
    w.start_file::<&str, ()>("/abs.txt", options).expect("start");
    std::io::Write::write_all(&mut w, b"evil").expect("write");
    let bytes = w.finish().expect("finish").into_inner();
    let err = unpack_entries(bytes).expect_err("must reject");
    assert_eq!(err, ExtractError::UnsafeEntryName("/abs.txt".to_string()));
}

#[test]
fn garbage_bytes_rejected() {
    let err = unpack_entries(b"this is not an archive".to_vec()).expect_err("must reject");
    assert_eq!(err, ExtractError::InvalidArchive);
}

#[test]
fn corrupt_payload_reported() {
    let tree = vec![file("blob.bin", &[7u8; 4096])];
    let mut bytes = pack_entries(&tree).expect("pack");
    // The local file header is 30 bytes plus the name; damage the compressed
    // payload behind it so the entry no longer decompresses to its checksum.
    let offset = 30 + "blob.bin".len() + 4;
    bytes[offset] ^= 0xff;
    let err = unpack_entries(bytes).expect_err("must reject");
    assert!(matches!(err, ExtractError::CorruptEntry(0)));
}

#[test]
fn interior_dotdot_accepted() {
    let mut w = zip::ZipWriter::new(std::io::Cursor::new(Vec::new()));
    let options = zip::write::SimpleFileOptions::default();
    w.start_file::<&str, ()>("a/../b.txt", options).expect("start");
    std::io::Write::write_all(&mut w, b"ok").expect("write");
    let bytes = w.finish().expect("finish").into_inner();
    let out = unpack_entries(bytes).expect("unpack");
    assert_eq!(out.len(), 1);
    assert_eq!(out[0].name, "a/../b.txt");
    assert!(!out[0].is_dir);
    assert_eq!(out[0].data, b"ok".to_vec());
}

#[test]
fn backslash_entry_normalized_on_extract() {
    let mut w = zip::ZipWriter::new(std::io::Cursor::new(Vec::new()));
    let options = zip::write::SimpleFileOptions::default();
    w.start_file::<&str, ()>("dir\\file.txt", options).expect("start");
    std::io::Write::write_all(&mut w, b"data").expect("write");
    let bytes = w.finish().expect("finish").into_inner();
    let out = unpack_entries(bytes).expect("unpack");
    assert_eq!(out.len(), 1);
    assert_eq!(out[0].name, "dir/file.txt");
    assert_eq!(out[0].data, b"data".to_vec());
}
