use codecrafters_http_server::compression::gzip_encode;

#[test]
fn test_gzip_encode_basic() {
    let data = b"Hello, World!";
    let compressed = gzip_encode(data).unwrap();
    assert_ne!(&compressed[..], data);
    assert_eq!(compressed[0], 0x1f);
    assert_eq!(compressed[1], 0x8b);
}

#[test]
fn test_gzip_encode_empty() {
    let data = b"";
    let compressed = gzip_encode(data).unwrap();
    assert!(compressed.len() > 0);
}

#[test]
fn gzip_output_depends_on_input_alone() {
    let a = gzip_encode(b"same input").unwrap();
    let b = gzip_encode(b"same input").unwrap();
    assert_eq!(a, b);
}
