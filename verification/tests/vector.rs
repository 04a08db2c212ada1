use recall::vector::{decode_vector, encode_vector};

#[test]
fn embeddings_are_stored_low_byte_first() {
    let floats = [0.0_f32, -0.0, 1.5, -2.25, f32::MAX, f32::MIN_POSITIVE, f32::INFINITY];
    let bits: Vec<u32> = floats.iter().map(|f| f.to_bits()).collect();
    let bytes: Vec<u8> = floats.iter().flat_map(|f| f.to_le_bytes()).collect();
    assert_eq!(encode_vector(&bits), bytes);
    assert_eq!(encode_vector(&vec![0x0102_0304]), vec![4, 3, 2, 1]);
}

#[test]
fn embeddings_are_read_back() {
    let bits = vec![0, 1, 0xffff_ffff, 0x8000_0000, 0x3e19_999a];
    assert_eq!(decode_vector(&encode_vector(&bits)), bits);
    assert_eq!(decode_vector(&encode_vector(&vec![])), Vec::<u32>::new());
}

#[test]
fn stored_bytes_are_kept() {
    let bytes: Vec<u8> = (0..=255).collect();
    assert_eq!(encode_vector(&decode_vector(&bytes)), bytes);
}
