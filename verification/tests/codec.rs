use mnist_codec::{ImageReader, LabelReader, ParseError};

fn be(value: u32) -> [u8; 4] {
    value.to_be_bytes()
}

fn label_stream(magic: u32, count: u32, payload: &[u8]) -> Vec<u8> {
    let mut bytes = Vec::new();
    bytes.extend_from_slice(&be(magic));
    bytes.extend_from_slice(&be(count));
    bytes.extend_from_slice(payload);
    bytes
}

fn image_stream(magic: u32, count: u32, rows: u32, cols: u32, payload: &[u8]) -> Vec<u8> {
    let mut bytes = Vec::new();
    bytes.extend_from_slice(&be(magic));
    bytes.extend_from_slice(&be(count));
    bytes.extend_from_slice(&be(rows));
    bytes.extend_from_slice(&be(cols));
    bytes.extend_from_slice(payload);
    bytes
}

#[test]
fn label_parse_concrete() {
    let bytes = vec![0x00, 0x00, 0x08, 0x01, 0x00, 0x00, 0x00, 0x02, 0x01, 0x02];
    assert_eq!(LabelReader::parse(&bytes), Ok(vec![1, 2]));
}

#[test]
fn label_parse_payload_verbatim() {
    let payload = [7, 0, 9, 255, 3];
    let bytes = label_stream(2049, 5, &payload);
    assert_eq!(LabelReader::parse(&bytes), Ok(payload.to_vec()));
}

#[test]
fn label_parse_empty_payload() {
    let bytes = label_stream(2049, 0, &[]);
    assert_eq!(LabelReader::parse(&bytes), Ok(Vec::new()));
}

#[test]
fn label_parse_count_not_enforced() {
    // The declared count (5) only pre-sizes the buffer; two payload
    // bytes yield two labels, with no error.
    let bytes = label_stream(2049, 5, &[9, 7]);
    assert_eq!(LabelReader::parse(&bytes), Ok(vec![9, 7]));
}

#[test]
fn label_parse_wrong_magic() {
    let bytes = label_stream(2051, 2, &[1, 2]);
    assert_eq!(LabelReader::parse(&bytes), Err(ParseError::WrongMagic));
    let bytes = label_stream(999, 2, &[1, 2]);
    assert_eq!(LabelReader::parse(&bytes), Err(ParseError::WrongMagic));
}

#[test]
fn label_parse_truncated_magic() {
    assert_eq!(LabelReader::parse(&[]), Err(ParseError::TruncatedInput));
    assert_eq!(
        LabelReader::parse(&[0x00, 0x00, 0x08]),
        Err(ParseError::TruncatedInput)
    );
}

#[test]
fn label_parse_truncated_header() {
    // Good magic, but only three of the four count bytes.
    let bytes = [0x00, 0x00, 0x08, 0x01, 0x00, 0x00, 0x00];
    assert_eq!(LabelReader::parse(&bytes), Err(ParseError::TruncatedInput));
}

#[test]
fn label_parse_twice_equal() {
    let bytes = label_stream(2049, 3, &[4, 5, 6]);
    let first = LabelReader::parse(&bytes);
    let second = LabelReader::parse(&bytes);
    assert_eq!(first, second);
}

#[test]
fn image_parse_concrete() {
    let bytes = image_stream(2051, 1, 2, 2, &[1, 2, 3, 4]);
    assert_eq!(
        ImageReader::parse(&bytes),
        Ok(vec![vec![vec![1, 2], vec![3, 4]]])
    );
}

#[test]
fn image_parse_short_payload_drops_partial_image() {
    // One byte short of a complete 2x2 image: no image, no error.
    let bytes = image_stream(2051, 1, 2, 2, &[1, 2, 3]);
    assert_eq!(ImageReader::parse(&bytes), Ok(Vec::new()));
}

#[test]
fn image_parse_chunk_dropping() {
    // Ten payload bytes over 2x2 images: floor(10 / 4) = 2 complete
    // images; the two trailing bytes are dropped without error.
    let bytes = image_stream(2051, 3, 2, 2, &[1, 2, 3, 4, 5, 6, 7, 8, 9, 10]);
    assert_eq!(
        ImageReader::parse(&bytes),
        Ok(vec![
            vec![vec![1, 2], vec![3, 4]],
            vec![vec![5, 6], vec![7, 8]],
        ])
    );
}

#[test]
fn image_parse_count_not_enforced() {
    // The declared image count (1) is never checked: eight payload bytes
    // still fill two complete 2x2 images.
    let bytes = image_stream(2051, 1, 2, 2, &[1, 2, 3, 4, 5, 6, 7, 8]);
    assert_eq!(
        ImageReader::parse(&bytes),
        Ok(vec![
            vec![vec![1, 2], vec![3, 4]],
            vec![vec![5, 6], vec![7, 8]],
        ])
    );
}

#[test]
fn image_parse_row_major_order() {
    // 1x3 rows: each image is one row of three pixels, in source order.
    let bytes = image_stream(2051, 2, 1, 3, &[10, 11, 12, 20, 21, 22]);
    assert_eq!(
        ImageReader::parse(&bytes),
        Ok(vec![vec![vec![10, 11, 12]], vec![vec![20, 21, 22]]])
    );
}

#[test]
fn image_parse_wrong_magic() {
    let bytes = image_stream(2049, 1, 2, 2, &[1, 2, 3, 4]);
    assert_eq!(ImageReader::parse(&bytes), Err(ParseError::WrongMagic));
    let bytes = image_stream(0, 1, 2, 2, &[1, 2, 3, 4]);
    assert_eq!(ImageReader::parse(&bytes), Err(ParseError::WrongMagic));
}

#[test]
fn image_parse_truncated_magic() {
    assert_eq!(ImageReader::parse(&[]), Err(ParseError::TruncatedInput));
    assert_eq!(
        ImageReader::parse(&[0x00, 0x00, 0x08]),
        Err(ParseError::TruncatedInput)
    );
}

#[test]
fn image_parse_truncated_header() {
    // Good magic, but the header stops one byte short of 16.
    let full = image_stream(2051, 1, 2, 2, &[]);
    let bytes = &full[..15];
    assert_eq!(ImageReader::parse(bytes), Err(ParseError::TruncatedInput));
}

#[test]
fn image_parse_empty_payload() {
    let bytes = image_stream(2051, 0, 28, 28, &[]);
    assert_eq!(ImageReader::parse(&bytes), Ok(Vec::new()));
}

#[test]
fn label_parse_strict_exact_count() {
    let bytes = label_stream(2049, 3, &[4, 5, 6]);
    assert_eq!(LabelReader::parse_strict(&bytes), Ok(vec![4, 5, 6]));
}

#[test]
fn label_parse_strict_count_mismatch() {
    let short = label_stream(2049, 5, &[9, 7]);
    assert_eq!(
        LabelReader::parse_strict(&short),
        Err(ParseError::LengthMismatch)
    );
    let long = label_stream(2049, 1, &[9, 7]);
    assert_eq!(
        LabelReader::parse_strict(&long),
        Err(ParseError::LengthMismatch)
    );
}

#[test]
fn label_parse_strict_propagates_errors() {
    let bytes = label_stream(2051, 2, &[1, 2]);
    assert_eq!(LabelReader::parse_strict(&bytes), Err(ParseError::WrongMagic));
    assert_eq!(LabelReader::parse_strict(&[]), Err(ParseError::TruncatedInput));
}

#[test]
fn image_parse_strict_exact_count() {
    let bytes = image_stream(2051, 1, 2, 2, &[1, 2, 3, 4]);
    assert_eq!(
        ImageReader::parse_strict(&bytes),
        Ok(vec![vec![vec![1, 2], vec![3, 4]]])
    );
}

#[test]
fn image_parse_strict_count_mismatch() {
    let short = image_stream(2051, 1, 2, 2, &[1, 2, 3]);
    assert_eq!(
        ImageReader::parse_strict(&short),
        Err(ParseError::LengthMismatch)
    );
    let long = image_stream(2051, 1, 2, 2, &[1, 2, 3, 4, 5, 6, 7, 8]);
    assert_eq!(
        ImageReader::parse_strict(&long),
        Err(ParseError::LengthMismatch)
    );
}

#[test]
fn image_parse_strict_propagates_errors() {
    let bytes = image_stream(2049, 1, 2, 2, &[1, 2, 3, 4]);
    assert_eq!(ImageReader::parse_strict(&bytes), Err(ParseError::WrongMagic));
    assert_eq!(ImageReader::parse_strict(&[]), Err(ParseError::TruncatedInput));
}

#[test]
fn image_parse_twice_equal() {
    let bytes = image_stream(2051, 1, 2, 3, &[1, 2, 3, 4, 5, 6]);
    let first = ImageReader::parse(&bytes);
    let second = ImageReader::parse(&bytes);
    assert_eq!(first, second);
}
