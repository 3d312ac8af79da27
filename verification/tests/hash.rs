use dirsync::hash::{hash_data, hash_eq, StreamHasher};

const EMPTY: [u8; 32] = [
    0xaf, 0x13, 0x49, 0xb9, 0xf5, 0xf9, 0xa1, 0xa6, 0xa0, 0x40, 0x4d, 0xea, 0x36, 0xdc, 0xc9, 0x49,
    0x9b, 0xcb, 0x25, 0xc9, 0xad, 0xc1, 0x12, 0xb7, 0xcc, 0x9a, 0x93, 0xca, 0xe4, 0x1f, 0x32, 0x62,
];

#[test]
fn hash_of_nothing_is_the_known_one() {
    assert_eq!(hash_data(b""), (EMPTY, 0));
    assert_eq!(StreamHasher::new().finish(), (EMPTY, 0));
}

#[test]
fn pieces_hash_like_the_whole() {
    let data: Vec<u8> = (0..5000u32).map(|i| (i % 251) as u8).collect();
    let mut stream = StreamHasher::new();
    for piece in data.chunks(777) {
        stream = stream.update(piece);
    }
    assert_eq!(stream.finish(), hash_data(&data));
    assert_eq!(stream.finish().1, 5000);
    assert_eq!(hash_data(&data).0, *blake3::hash(&data).as_bytes());
}

#[test]
fn test_file_hash_and_size() {
    let (hash, size) = StreamHasher::new().update(b"hello world").finish();
    assert_eq!(size, 11);
    let (hash2, _) = StreamHasher::new().update(b"hello world").finish();
    assert_eq!(hash, hash2);
}

#[test]
fn test_file_hash_different_content() {
    let (h1, _) = StreamHasher::new().update(b"hello").finish();
    let (h2, _) = StreamHasher::new().update(b"world").finish();
    assert_ne!(h1, h2);
}

#[test]
fn hashes_are_compared_in_full() {
    let mut other = EMPTY;
    assert!(hash_eq(&EMPTY, &other));
    other[31] ^= 1;
    assert!(!hash_eq(&EMPTY, &other));
}
