use qudoku::hashing::{hash_to_point, inc_slice_be, sha256};

#[test]
fn test_inc_slice_be() {
    let fixtures = [
        (vec![], vec![]),
        (vec![0], vec![1]),
        (vec![0, 0, 0xFE], vec![0, 0, 0xFF]),
        (vec![0, 0, 0xFF], vec![0, 1, 0]),
        (vec![0xFF, 0xFF, 0xFF], vec![0, 0, 0]),
        (vec![0xFF, 0xFF, 1], vec![0xFF, 0xFF, 2]),
    ];

    for (input, output) in fixtures {
        let mut s: Vec<u8> = input.clone();
        inc_slice_be(&mut s);
        assert_eq!(&s, &output);
    }
}

#[test]
fn test_sha256_known_vector() {
    let digest = sha256(b"abc");
    let expected: Vec<u8> = vec![
        0xba, 0x78, 0x16, 0xbf, 0x8f, 0x01, 0xcf, 0xea, 0x41, 0x41, 0x40, 0xde, 0x5d, 0xae, 0x22,
        0x23, 0xb0, 0x03, 0x61, 0xa3, 0x96, 0x17, 0x7a, 0x9c, 0xb4, 0x10, 0xff, 0x61, 0xf2, 0x00,
        0x15, 0xad,
    ];
    assert_eq!(digest, expected);

    let empty = sha256(b"");
    let expected_empty: Vec<u8> = vec![
        0xe3, 0xb0, 0xc4, 0x42, 0x98, 0xfc, 0x1c, 0x14, 0x9a, 0xfb, 0xf4, 0xc8, 0x99, 0x6f, 0xb9,
        0x24, 0x27, 0xae, 0x41, 0xe4, 0x64, 0x9b, 0x93, 0x4c, 0xa4, 0x95, 0x99, 0x1b, 0x78, 0x52,
        0xb8, 0x55,
    ];
    assert_eq!(empty, expected_empty);
}

#[test]
fn test_hash_to_point_deterministic() {
    let a = hash_to_point(b"hello").expect("a candidate digest must lift");
    let b = hash_to_point(b"hello").expect("a candidate digest must lift");
    assert_eq!(a, b);

    let c = hash_to_point(b"another input").expect("a candidate digest must lift");
    assert_ne!(a, c);

    let d = hash_to_point(b"").expect("a candidate digest must lift");
    assert_eq!(d.serialize().len(), 33);
    // The lifted point always has even parity, so its compressed
    // serialization starts with the even-parity tag.
    assert_eq!(d.serialize()[0], 0x02);
    assert_eq!(a.serialize()[0], 0x02);
}
