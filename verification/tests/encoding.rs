use mmtf::encode::EncodeError;
use mmtf::encoding::{Delta, IntegerEncoding, RecursiveIndexing, RunLength};

#[test]
fn it_decode_run_length_encoding() {
    let encoded = [1, 4, 2, 1, 1, 4];
    let decoded = RunLength::decode(&encoded).unwrap();
    assert_eq!(vec![1, 1, 1, 1, 2, 1, 1, 1, 1], decoded);

    let decoded = RunLength::decode(&encoded).unwrap();
    assert_eq!(vec![1, 1, 1, 1, 2, 1, 1, 1, 1], decoded);
}

#[test]
fn it_encode_run_length_encoding() {
    let encoded = [1, 1, 1, 1, 2, 1, 1, 1, 1];
    let decoded = RunLength::encode(&encoded).unwrap();
    assert_eq!(vec![1, 4, 2, 1, 1, 4], decoded);
}

#[test]
fn it_decode_delta_encoding() {
    let data = [1, 1, 1, 1, 1, 1, 1, 1, 1, 1, 2, 1, 1, 1, 5];
    let expected = vec![1, 2, 3, 4, 5, 6, 7, 8, 9, 10, 12, 13, 14, 15, 20];
    let actual = Delta::decode(&data).unwrap();
    assert_eq!(expected, actual);
}

#[test]
fn it_encode_delta_encoding() {
    let data = [1, 2, 3, 4, 5, 6, 7, 8, 9, 10, 12, 13, 14, 15, 20];
    let expected = vec![1, 1, 1, 1, 1, 1, 1, 1, 1, 1, 2, 1, 1, 1, 5];
    let actual = Delta::encode(&data).unwrap();
    assert_eq!(expected, actual);
}

#[test]
fn it_decode_integer_decoding() {
    let data = [100, 100, 100, 100, 50, 50];
    let expected = vec![1.00, 1.00, 1.00, 1.00, 0.50, 0.50];
    let actual: Vec<f32> = IntegerEncoding::decode(&data, 100)
        .unwrap()
        .iter()
        .map(|b| f32::from_bits(*b))
        .collect();
    assert_eq!(expected, actual);

    let data_i16 = [100_i16, 100, 100, 100, 50, 50];
    let data_wide: Vec<i32> = data_i16.iter().map(|v| *v as i32).collect();
    let expected = vec![1.00, 1.00, 1.00, 1.00, 0.50, 0.50];
    let actual: Vec<f32> = IntegerEncoding::decode(&data_wide, 100)
        .unwrap()
        .iter()
        .map(|b| f32::from_bits(*b))
        .collect();
    assert_eq!(expected, actual);
}

#[test]
fn it_encode_integer_encoding() {
    let data = [1.00_f32, 1.00, 1.00, 1.00, 0.50, 0.50];
    let bits: Vec<u32> = data.iter().map(|v| v.to_bits()).collect();
    let expected = vec![100, 100, 100, 100, 50, 50];
    let actual = IntegerEncoding::encode(&bits, 100).unwrap();
    assert_eq!(expected, actual);
}

#[test]
fn it_decode_recursive_index_encoding() {
    let data = [1, 420, 32767, 0, 120, -32768, 0, 32767, 2];
    let expected = vec![1, 420, 32767, 120, -32768, 32769];
    let actual = RecursiveIndexing::decode(&data).unwrap();
    assert_eq!(expected, actual);
}

#[test]
fn it_encode_recursive_index_encoding() {
    let data = [1, 420, 32767, 120, -32768, 32769];
    let expected = vec![1, 420, 32767, 0, 120, -32768, 0, 32767, 2];
    let actual = RecursiveIndexing::encode(&data).unwrap();
    assert_eq!(expected, actual);
}

#[test]
fn run_length_round_trips_on_values() {
    let data = [7, 7, 7, -1, -1, 7, 0, 0, 0, 0];
    let encoded = RunLength::encode(&data).unwrap();
    let decoded = RunLength::decode(&encoded).unwrap();
    assert_eq!(data.to_vec(), decoded);
}

#[test]
fn run_length_decode_rejects_odd_length() {
    let data = [1, 4, 2];
    assert_eq!(RunLength::decode(&data).unwrap_err(), EncodeError::OddLengthInput);
}

#[test]
fn run_length_decode_rejects_negative_count() {
    let data = [1, -4];
    assert_eq!(RunLength::decode(&data).unwrap_err(), EncodeError::MalformedEncoding);
}

#[test]
fn delta_round_trips_on_values() {
    let data = [i32::MIN, i32::MAX, 0, -5, 5];
    let encoded = Delta::encode(&data).unwrap();
    let decoded = Delta::decode(&encoded).unwrap();
    assert_eq!(data.to_vec(), decoded);
}

#[test]
fn delta_decode_keeps_single_element() {
    let data = [42];
    assert_eq!(vec![42], Delta::decode(&data).unwrap());
}

#[test]
fn delta_encode_rejects_short_input() {
    let data = [42];
    assert_eq!(Delta::encode(&data).unwrap_err(), EncodeError::InsufficientLength);
}

#[test]
fn recursive_indexing_round_trips_at_extremes() {
    let data = [i32::MIN, i32::MAX, 0, 32767, -32768, 65536];
    let encoded = RecursiveIndexing::encode(&data).unwrap();
    let decoded = RecursiveIndexing::decode(&encoded).unwrap();
    assert_eq!(data.to_vec(), decoded);
}

#[test]
fn recursive_indexing_decodes_i8_with_i8_sentinels() {
    let data = [127_i8, 127, 46, -128, -3, 7];
    let expected = vec![300, -131, 7];
    let actual = RecursiveIndexing::decode_i8(&data).unwrap();
    assert_eq!(expected, actual);
}

#[test]
fn integer_decoding_rejects_zero_factor() {
    let data = [100];
    assert_eq!(IntegerEncoding::decode(&data, 0).unwrap_err(), EncodeError::InvalidParameter);
}

#[test]
fn integer_decoding_matches_float_division() {
    // The verified integer arithmetic must reproduce hardware float
    // division bit for bit.
    let cases: [(i32, i32); 8] = [
        (1, 3),
        (7, 3),
        (-100000, 7),
        (2147483647, -3),
        (1, 2147483647),
        (-2147483648, 1),
        (355, 113),
        (0, -5),
    ];
    for (v, f) in cases.iter() {
        let bits = IntegerEncoding::decode(&[*v], *f).unwrap()[0];
        let expected = (*v as f32 / *f as f32).to_bits();
        assert_eq!(expected, bits, "quantizing {} / {}", v, f);
    }
}

#[test]
fn integer_encoding_matches_float_multiplication() {
    let cases: [(f32, i32); 6] = [
        (1.0, 100),
        (0.5, 100),
        (182.03, 100),
        (-182.03, 100),
        (3.14159, -7),
        (0.0, 3),
    ];
    for (x, f) in cases.iter() {
        let got = IntegerEncoding::encode(&[x.to_bits()], *f).unwrap()[0];
        let expected = (x * *f as f32) as i32;
        assert_eq!(expected, got, "quantizing {} * {}", x, f);
    }
}

#[test]
fn integer_round_trip_stays_within_tolerance() {
    let data = [1.25_f32, -7.5, 182.03, 0.0];
    let factor = 100;
    let bits: Vec<u32> = data.iter().map(|v| v.to_bits()).collect();
    let encoded = IntegerEncoding::encode(&bits, factor).unwrap();
    let decoded = IntegerEncoding::decode(&encoded, factor).unwrap();
    for (orig, b) in data.iter().zip(decoded.iter()) {
        let back = f32::from_bits(*b);
        assert!((orig - back).abs() <= 1.0 / factor as f32, "{} became {}", orig, back);
    }
}
