use bench_harness::select::has_extension;

#[test]
fn extension_matches() {
    assert!(has_extension(b"photo.jpeg", b"jpeg"));
    assert!(has_extension(b"a.b.jpeg", b"jpeg"));
    assert!(has_extension(b"a.", b""));
}

#[test]
fn extension_mismatches() {
    assert!(!has_extension(b"photo.jpg", b"jpeg"));
    assert!(!has_extension(b"jpeg", b"jpeg"));
    assert!(!has_extension(b".jpeg", b"jpeg"));
    assert!(!has_extension(b"..", b""));
    assert!(!has_extension(b"photo.jpeg.bak", b"jpeg"));
    assert!(!has_extension(b"", b""));
    assert!(!has_extension(b"a.jpegx", b"jpeg"));
}
