use petrel::blob::{address_of, is_intact, not_a_hash, pack, part_name, place_of, unpack, BlobError};

#[test]
fn write_read_roundtrip_and_dedupe() {
    let data = b"From: a@example.com\r\nSubject: hi\r\n\r\nbody body body".repeat(50);
    let (h1, p1) = address_of(&data);
    let s1 = pack(&data).unwrap();
    let (h2, p2) = address_of(&data);
    let s2 = pack(&data).unwrap();
    assert_eq!(h1, h2);
    assert_eq!(p1, p2);
    assert_eq!(s1.len(), s2.len());
    assert_eq!(unpack(&h1, &s1).unwrap(), data);
    assert!(s1.len() < data.len(), "zstd should compress repetitive mail");
}

#[test]
fn a_hash_is_the_one_everybody_knows() {
    let (hash, place) = address_of(b"");
    assert_eq!(
        hash,
        "af1349b9f5f9a1a6a0404dea36dcc9499bcb25c9adc112b7cc9a93cae41f3262"
    );
    assert_eq!(place.outer, "af");
    assert_eq!(place.inner, "13");
    assert_eq!(place.file, format!("{hash}.zst"));
    assert_eq!(part_name(&hash), format!("{hash}.part"));
}

#[test]
fn what_is_too_short_to_be_a_hash_has_no_place() {
    assert!(place_of("").is_none());
    assert!(place_of("abc").is_none());
    // Four bytes that cannot be parted after two.
    assert!(place_of("aéb").is_none());
    assert_eq!(place_of("abcd").unwrap().file, "abcd.zst");
    let e = not_a_hash("ab\n");
    assert_eq!(e.to_text(), "corrupt blob: \"ab\\n\" is not a blob hash");
}

#[test]
fn bytes_that_rotted_are_not_handed_out() {
    let (hash, _) = address_of(b"one");
    let stored = pack(b"one").unwrap();
    assert!(is_intact(&hash, &stored));

    // Another blob under this name.
    let other = pack(b"two").unwrap();
    let (found, _) = address_of(b"two");
    assert!(!is_intact(&hash, &other));
    match unpack(&hash, &other) {
        Err(BlobError::Corrupt(why)) => {
            assert_eq!(why, format!("{hash}: content hash mismatch (found {found})"))
        }
        _ => panic!("read what is not there"),
    }

    // Not a compressed file at all.
    match unpack(&hash, b"not zstd") {
        Err(e) => assert!(e
            .to_text()
            .starts_with(&format!("corrupt blob: {hash}: decompression failed: "))),
        Ok(_) => panic!("read what is not there"),
    }
}

#[test]
fn an_io_error_says_that_it_is_one() {
    let e = BlobError::Io(std::io::Error::new(std::io::ErrorKind::NotFound, "gone"));
    assert_eq!(e.to_text(), "io: gone");
}

#[test]
fn a_store_gives_back_what_was_written_to_it() {
    let mut shelves = std::collections::HashMap::new();
    let all: [&[u8]; 4] = [b"one", b"two", b"", b"one"];
    for bytes in all {
        let (_, place) = address_of(bytes);
        shelves.entry(place.file).or_insert_with(|| pack(bytes).unwrap());
    }
    assert_eq!(shelves.len(), 3, "the same bytes are kept once");
    for bytes in all {
        let (hash, place) = address_of(bytes);
        assert_eq!(place_of(&hash), Some(place.clone()));
        assert_eq!(unpack(&hash, &shelves[&place.file]).unwrap(), bytes);
        assert!(is_intact(&hash, &shelves[&place.file]));
    }
}
