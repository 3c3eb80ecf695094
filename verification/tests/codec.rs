use mmtf::codec::{DeltaRunlength, IntegerDeltaRecursive, IntegerRunLength};

#[test]
fn it_decode_delta_run_length() {
    let data = [
        0, 0, 0, 0, 0, 0, 0, 1, 0, 0, 0, 1, 0, 0, 0, 3, 0, 0, 0, 2, 0, 0, 0, 1, 0, 0, 0, 0, 0, 0,
        0, 1, 0, 0, 0, 1, 0, 0, 0, 5, 255, 255, 255, 245, 0, 0, 0, 1,
    ];
    let expected = vec![0, 1, 2, 3, 5, 5, 6, 7, 8, 9, 10, -1];
    let actual = DeltaRunlength::decode(&data).unwrap();
    assert_eq!(expected, actual);
}

#[test]
fn it_encode_delta_run_length() {
    let data = [0, 1, 2, 3, 5, 5, 6, 7, 8, 9, 10, -1];
    let expected = vec![
        0, 0, 0, 0, 0, 0, 0, 1, 0, 0, 0, 1, 0, 0, 0, 3, 0, 0, 0, 2, 0, 0, 0, 1, 0, 0, 0, 0, 0, 0,
        0, 1, 0, 0, 0, 1, 0, 0, 0, 5, 255, 255, 255, 245, 0, 0, 0, 1,
    ];
    let actual = DeltaRunlength::encode(&data).unwrap();
    assert_eq!(expected, actual);
}

#[test]
fn it_decode_integer_delta_run_length() {
    let data = [0, 0, 0, 100, 0, 0, 0, 4, 0, 0, 0, 50, 0, 0, 0, 2];
    let expected = vec![1.00, 1.00, 1.00, 1.00, 0.50, 0.50];
    let actual: Vec<f32> = IntegerRunLength::decode(&data, 100)
        .unwrap()
        .iter()
        .map(|b| f32::from_bits(*b))
        .collect();
    assert_eq!(expected, actual);
}

#[test]
fn it_encode_integer_delta_run_length() {
    let data = [1.00_f32, 1.00, 1.00, 1.00, 0.50, 0.50];
    let bits: Vec<u32> = data.iter().map(|v| v.to_bits()).collect();
    let expected = vec![0, 0, 0, 100, 0, 0, 0, 4, 0, 0, 0, 50, 0, 0, 0, 2];
    let actual = IntegerRunLength::encode(&bits, 100).unwrap();
    assert_eq!(expected, actual);
}

#[test]
fn it_decode_integer_delta_recursive() {
    let data = [71, 24, 0, 0, 0, 2, 255, 255, 0, 100, 255, 253, 0, 5];
    let expected = vec![182.00, 182.00, 182.02, 182.01, 183.01, 182.98, 183.03];
    let actual: Vec<f32> = IntegerDeltaRecursive::decode(&data, 100)
        .unwrap()
        .iter()
        .map(|b| f32::from_bits(*b))
        .collect();
    assert_eq!(expected, actual);
}

#[test]
fn it_encode_integer_delta_recursive() {
    let data = [182.00_f32, 182.00, 182.02, 182.01, 183.01, 182.98, 183.03];
    let bits: Vec<u32> = data.iter().map(|v| v.to_bits()).collect();
    let expected = vec![71, 24, 0, 0, 0, 2, 255, 255, 0, 100, 255, 253, 0, 5];
    let actual = IntegerDeltaRecursive::encode(&bits, 100).unwrap();
    assert_eq!(expected, actual);
}

#[test]
fn integer_delta_recursive_round_trips_within_tolerance() {
    let data = [182.00_f32, 182.00, 182.03];
    let factor = 100;
    let bits: Vec<u32> = data.iter().map(|v| v.to_bits()).collect();
    let encoded = IntegerDeltaRecursive::encode(&bits, factor).unwrap();
    let decoded = IntegerDeltaRecursive::decode(&encoded, factor).unwrap();
    assert_eq!(data.len(), decoded.len());
    for (orig, b) in data.iter().zip(decoded.iter()) {
        let back = f32::from_bits(*b);
        assert!(
            (orig - back).abs() <= 1.0 / factor as f32,
            "{} round-tripped to {}",
            orig,
            back
        );
    }
}
