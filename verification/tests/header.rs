use gauzilla::error::{FormatError, SceneError};
use gauzilla::ply::read_header;
use gauzilla::scene::Scene;
use gauzilla::splat::{Quantized, SerializedSplat};

fn lines(n: usize) -> Vec<u8> {
    let mut bytes = Vec::new();
    for i in 0..n {
        bytes.extend_from_slice(format!("comment line {}\n", i).as_bytes());
    }
    bytes
}

#[test]
fn header_gives_offset_and_count() {
    let text = "ply\nformat binary_little_endian 1.0\nelement vertex 3\nproperty float x\nend_header\n";
    let mut bytes = text.as_bytes().to_vec();
    bytes.extend_from_slice(&[1, 2, 3, 4]);
    assert_eq!(read_header(&bytes), Ok((text.len(), 3)));
    assert_eq!(Scene::parse_file_header(&bytes), Ok((text.len(), 3)));
}

#[test]
fn header_without_count_line_declares_none() {
    let text = "ply\nend_header\n";
    assert_eq!(read_header(text.as_bytes()), Ok((text.len(), 0)));
}

#[test]
fn last_count_line_wins() {
    let text = "element vertex 7\nelement vertex 12\nend_header\n";
    assert_eq!(read_header(text.as_bytes()), Ok((text.len(), 12)));
}

#[test]
fn count_may_carry_a_plus_and_leading_zeros() {
    let text = "element vertex +0042\nend_header\n";
    assert_eq!(read_header(text.as_bytes()), Ok((text.len(), 42)));
}

#[test]
fn zero_vertices_then_sentinel_is_an_empty_store() {
    let text = "element vertex 0\nend_header\n";
    let bytes = text.as_bytes();
    let (offset, count) = Scene::parse_file_header(bytes).unwrap();
    assert_eq!((offset, count), (text.len(), 0));
    let splats = SerializedSplat::decode_all(bytes, offset, count).unwrap();
    assert!(splats.is_empty());
    let prepared: Vec<(SerializedSplat, Quantized)> = Vec::new();
    let mut scene = Scene::new();
    scene.load(&prepared);
    assert_eq!(scene.splat_count(), 0);
    assert!(scene.buffer().is_empty());
}

#[test]
fn missing_sentinel_is_a_format_error() {
    let text = "ply\nelement vertex 3\n";
    assert_eq!(read_header(text.as_bytes()), Err(FormatError::MissingSentinel));
    assert_eq!(
        Scene::parse_file_header(text.as_bytes()),
        Err(SceneError::Format(FormatError::MissingSentinel))
    );
}

#[test]
fn empty_input_has_no_sentinel() {
    assert_eq!(read_header(&[]), Err(FormatError::MissingSentinel));
}

#[test]
fn sentinel_without_line_break_does_not_count() {
    assert_eq!(read_header(b"ply\nend_header"), Err(FormatError::MissingSentinel));
}

#[test]
fn sentinel_with_carriage_return_does_not_count() {
    assert_eq!(read_header(b"ply\r\nend_header\r\n"), Err(FormatError::MissingSentinel));
}

#[test]
fn sentinel_after_65_lines_is_found() {
    let mut bytes = lines(65);
    bytes.extend_from_slice(b"end_header\n");
    assert_eq!(read_header(&bytes), Ok((bytes.len(), 0)));
}

#[test]
fn sentinel_after_66_lines_is_not_looked_for() {
    let mut bytes = lines(66);
    bytes.extend_from_slice(b"end_header\n");
    assert_eq!(read_header(&bytes), Err(FormatError::MissingSentinel));
}

#[test]
fn count_line_without_a_number_is_malformed() {
    assert_eq!(
        read_header(b"element vertex many\nend_header\n"),
        Err(FormatError::MalformedHeader)
    );
    assert_eq!(read_header(b"element vertex \nend_header\n"), Err(FormatError::MalformedHeader));
    assert_eq!(read_header(b"element vertex -3\nend_header\n"), Err(FormatError::MalformedHeader));
    assert_eq!(read_header(b"element vertex 3 \nend_header\n"), Err(FormatError::MalformedHeader));
    assert_eq!(read_header(b"element vertex +\nend_header\n"), Err(FormatError::MalformedHeader));
}

#[test]
fn count_that_overflows_is_malformed() {
    assert_eq!(
        read_header(b"element vertex 99999999999999999999999999\nend_header\n"),
        Err(FormatError::MalformedHeader)
    );
}

#[test]
fn largest_count_is_read() {
    let text = format!("element vertex {}\nend_header\n", usize::MAX);
    assert_eq!(read_header(text.as_bytes()), Ok((text.len(), usize::MAX)));
}

#[test]
fn malformed_count_behind_the_sentinel_is_not_read() {
    let text = "end_header\nelement vertex many\n";
    assert_eq!(read_header(text.as_bytes()), Ok((11, 0)));
}

#[test]
fn error_messages() {
    assert_eq!(
        SceneError::Format(FormatError::MissingSentinel).message(),
        "the file is not correctly formatted"
    );
    assert_eq!(
        SceneError::Size.message(),
        "the buffer length is not a multiple of the record size"
    );
    assert_eq!(SceneError::ServiceTimeout.message(), "the decode service timed out");
}
