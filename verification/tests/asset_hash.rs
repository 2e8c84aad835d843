use obadh_engine::asset_hash::{package_digest_hex, sha256_hex, sort_package_files, AssetHasher};

const EMPTY_SHA256: &str = "e3b0c44298fc1c149afbf4c8996fb92427ae41e4649b934ca495991b7852b855";
const ABC_SHA256: &str = "ba7816bf8f01cfea414140de5dae2223b00361a396177a9cb410ff61f20015ad";

fn digest_of(bytes: &[u8]) -> String {
    let mut hasher = AssetHasher::new();
    hasher.update(bytes);
    hasher.hex_digest()
}

#[test]
fn hasher_gives_known_sha256_digests() {
    assert_eq!(AssetHasher::new().hex_digest(), EMPTY_SHA256);
    assert_eq!(digest_of(b"abc"), ABC_SHA256);
}

#[test]
fn hasher_digest_does_not_depend_on_chunking() {
    let mut chunked = AssetHasher::new();
    chunked.update(b"a");
    chunked.update(b"");
    chunked.update(b"bc");
    assert_eq!(chunked.hex_digest(), ABC_SHA256);
}

#[test]
fn finalize_returns_thirty_two_digest_bytes() {
    let mut hasher = AssetHasher::new();
    hasher.update(b"abc");
    let digest = hasher.finalize();
    assert_eq!(digest.len(), 32);
    assert_eq!(digest[0], 0xba);
    assert_eq!(digest[31], 0xad);
    assert_eq!(sha256_hex(&digest), ABC_SHA256);
}

#[test]
fn sha256_hex_renders_two_lower_case_digits_per_byte() {
    assert_eq!(sha256_hex(&[]), "");
    assert_eq!(sha256_hex(&[0x00, 0x0f, 0xa0, 0xff]), "000fa0ff");
}

#[test]
fn package_file_frame_is_path_nul_contents() {
    let mut framed = AssetHasher::new();
    framed.begin_package_file("model/weights.bin");
    framed.update(b"\x01\x02");
    assert_eq!(framed.hex_digest(), digest_of(b"model/weights.bin\0\x01\x02"));
}

#[test]
fn sort_package_files_orders_by_path_bytes_and_keeps_ties_in_order() {
    let mut files = vec![
        ("b".to_string(), 1),
        ("a".to_string(), 2),
        ("b".to_string(), 3),
        ("Z".to_string(), 4),
        ("a".to_string(), 5),
        ("\u{e9}".to_string(), 6),
        ("a/b".to_string(), 7),
    ];
    sort_package_files(&mut files);
    let order: Vec<i32> = files.iter().map(|file| file.1).collect();
    assert_eq!(order, vec![4, 2, 5, 7, 1, 3, 6]);
}

#[test]
fn package_digest_hashes_sorted_frames() {
    let mut files = vec![
        ("b.txt".to_string(), b"2".to_vec()),
        ("a.txt".to_string(), b"1".to_vec()),
    ];
    let digest = package_digest_hex(&mut files);
    assert_eq!(files[0].0, "a.txt");
    assert_eq!(files[1].0, "b.txt");
    assert_eq!(digest, digest_of(b"a.txt\x001b.txt\x002"));

    let mut streamed = AssetHasher::new();
    for (relative, contents) in &files {
        streamed.begin_package_file(relative);
        streamed.update(contents);
    }
    assert_eq!(streamed.hex_digest(), digest);
}

#[test]
fn empty_package_digest_is_digest_of_nothing() {
    let mut files: Vec<(String, Vec<u8>)> = Vec::new();
    assert_eq!(package_digest_hex(&mut files), EMPTY_SHA256);
}
