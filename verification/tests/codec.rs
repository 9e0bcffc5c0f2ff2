use sdl_demo::codec::{line_to_slice, slice_to_string};

#[test]
fn encode_empty_is_empty_string() {
    let empty: [u32; 0] = [];
    assert_eq!(slice_to_string(&empty), "");
}

#[test]
fn encode_single_value() {
    assert_eq!(slice_to_string(&[5]), "5");
}

#[test]
fn encode_joins_with_single_spaces() {
    assert_eq!(slice_to_string(&[10, 20, 3]), "10 20 3");
}

#[test]
fn encode_zero() {
    assert_eq!(slice_to_string(&[0, 0]), "0 0");
}

#[test]
fn decode_empty_is_empty() {
    assert!(line_to_slice("").is_empty());
}

#[test]
fn decode_whitespace_only_is_empty() {
    assert!(line_to_slice("   ").is_empty());
}

#[test]
fn decode_drops_malformed_token() {
    assert_eq!(line_to_slice("1 x 3"), vec![1, 3]);
}

#[test]
fn decode_double_space_drops_empty_token() {
    assert_eq!(line_to_slice("1  3"), vec![1, 3]);
}

#[test]
fn decode_max_value() {
    assert_eq!(line_to_slice("4294967295"), vec![4294967295]);
}

#[test]
fn decode_drops_overflowing_token() {
    assert_eq!(line_to_slice("1 4294967296 3"), vec![1, 3]);
}

#[test]
fn decode_drops_partial_number() {
    assert_eq!(line_to_slice("12a 34"), vec![34]);
}

#[test]
fn round_trip_concrete() {
    let values: Vec<u32> = vec![0, 7, 42, 1000000, 4294967295];
    assert_eq!(line_to_slice(&slice_to_string(&values)), values);
}

#[test]
fn round_trip_empty() {
    let empty: [u32; 0] = [];
    assert!(line_to_slice(&slice_to_string(&empty)).is_empty());
}
