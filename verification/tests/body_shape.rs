use deslop_core::cluster_filters::body_shape::{shape_digest, shape_encoding, ShapeToken};

#[test]
fn a_stream_encodes_kinds_symbols_and_closes_canonically() {
    let stream = [ShapeToken::Kind(258), ShapeToken::Symbol(b"ab".to_vec()), ShapeToken::Close];
    assert_eq!(shape_encoding(&stream), vec![2, 1, 2, 0, 0, 0, 97, 98, 0]);
    assert!(shape_encoding(&[]).is_empty());
}

#[test]
fn the_digest_is_the_hash_of_the_encoding() {
    let stream = [ShapeToken::Kind(7), ShapeToken::Symbol(b"client".to_vec()), ShapeToken::Close];
    let encoding = shape_encoding(&stream);
    assert_eq!(shape_digest(&stream), *blake3::hash(&encoding).as_bytes());
    let other = [ShapeToken::Kind(7), ShapeToken::Symbol(b"server".to_vec()), ShapeToken::Close];
    assert_ne!(shape_digest(&stream), shape_digest(&other));
}
