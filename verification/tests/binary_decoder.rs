use mmtf::binary_decoder::Interpret;

#[test]
fn it_interpret_bytes_as_char() {
    let data = [65_u8, 0, 0, 0, 66, 0, 0, 0, 67, 0, 0, 0, 68, 0, 0, 0];
    let expected = vec!['A', 'B', 'C', 'D'];
    let actual: Vec<char> = Interpret::from(&data[..]).unwrap();
    assert_eq!(expected, actual);
}

#[test]
fn it_interpret_bytes_as_string() {
    let data = [65, 0, 0, 0, 68, 65, 0, 0];
    let expected = vec!["A", "DA"];
    let actual: Vec<String> = Interpret::from(&data[..]).unwrap();
    assert_eq!(expected, actual);
}

#[test]
fn it_interpret_bytes_as_f32() {
    let data = [63, 153, 153, 154, 64, 57, 153, 154];
    let expected = vec![1.2, 2.9];
    let actual: Vec<u32> = Interpret::from(&data[..]).unwrap();
    let floats: Vec<f32> = actual.iter().map(|b| f32::from_bits(*b)).collect();
    assert_eq!(expected, floats);
}

#[test]
fn it_interpret_array_of_u8_from_array_of_i32() {
    let data = [2, 3, 3];
    let expected = vec![0_u8, 0, 0, 2, 0, 0, 0, 3, 0, 0, 0, 3];
    let actual: Vec<u8> = Interpret::from(&data[..]).unwrap();
    assert_eq!(expected, actual);
}

#[test]
fn test_interpret_bytes_as_i32() {
    let data = [0, 0, 0, 19, 0, 0, 0, 5, 0, 0, 0, 40];
    let expected = vec![19, 5, 40];
    let actual: Vec<i32> = Interpret::from(&data[..]).unwrap();
    assert_eq!(expected, actual);
}

#[test]
fn test_interpret_bytes_as_i8() {
    let data = [1, 1, 1];
    let expected = vec![1, 1, 1];
    let actual: Vec<i8> = Interpret::from(&data[..]).unwrap();
    assert_eq!(expected, actual);
}

#[test]
fn test_interpret_bytes_as_i16() {
    let data = [0, 10, 0, 20, 0, 22];
    let expected = vec![10, 20, 22];
    let actual: Vec<i16> = Interpret::from(&data[..]).unwrap();
    assert_eq!(expected, actual);
}

#[test]
fn it_interpret_multibyte_utf8_string() {
    // One 4-byte chunk holding a two-byte UTF-8 character and trailing NULs.
    let data = [0xC3, 0xA9, 0, 0];
    let actual: Vec<String> = Interpret::from(&data[..]).unwrap();
    assert_eq!(vec!["\u{e9}"], actual);
}

#[test]
fn it_reject_invalid_utf8_string() {
    let data = [0xFF, 0xFF, 0, 0];
    let actual: Result<Vec<String>, mmtf::encode::EncodeError> = Interpret::from(&data[..]);
    assert_eq!(actual.unwrap_err(), mmtf::encode::EncodeError::MalformedEncoding);
}

#[test]
fn it_reject_misaligned_f32_bytes() {
    let data = [63, 153, 153];
    let actual: Result<Vec<u32>, mmtf::encode::EncodeError> = Interpret::from(&data[..]);
    assert_eq!(actual.unwrap_err(), mmtf::encode::EncodeError::TruncatedInput);
}

#[test]
fn it_reject_invalid_scalar_char() {
    // 0xD800 is a surrogate, not a Unicode scalar value.
    let data: [u8; 4] = [0x00, 0xD8, 0, 0];
    let actual: Result<Vec<char>, mmtf::encode::EncodeError> = Interpret::from(&data[..]);
    assert_eq!(actual.unwrap_err(), mmtf::encode::EncodeError::MalformedEncoding);
}

#[test]
fn it_serialize_i16s_as_be_bytes() {
    let data = [300_i16, -2];
    let actual: Vec<u8> = Interpret::from(&data[..]).unwrap();
    assert_eq!(vec![1, 44, 255, 254], actual);
}
