use mmtf::decode::{decode_field, Decoder};
use mmtf::encode::{EncodeError, StrategyDataTypes};

#[test]
fn it_create_new_decoder() {
    let data = [1, 2, 3];
    let decoder = Decoder::new(&data);
    assert_eq!([1, 2, 3], decoder.reader);
}

#[test]
fn it_parse_header_success() {
    let data = vec![0, 0, 0, 4, 0, 0, 0, 52, 0, 0, 0, 0];
    let decoder = Decoder::new(&data);
    let header = decoder.header().unwrap();

    assert_eq!(4, header.codec);
    assert_eq!(52, header.length);
    assert_eq!(0, header.parameter);
}

#[test]
fn it_parse_header_fail() {
    let data = vec![0, 0, 0, 4, 0, 0, 0, 52, 0, 0, 0];
    let decoder = Decoder::new(&data);
    let header = decoder.header();

    assert_eq!(header.unwrap_err(), EncodeError::HeaderTooShort(11));
}

#[test]
fn test_parse_field() {
    let data = [0, 0, 0, 2, 0, 0, 0, 26, 0, 0, 0, 0, 1, 1, 1, 1, 1, 1, 1, 1, 1];
    let expected = vec![1, 1, 1, 1, 1, 1, 1, 1, 1];
    let decoder = Decoder::new(&data);
    decoder.header().unwrap();

    let actual = decoder.field().unwrap();
    assert_eq!(expected, actual);
}

#[test]
fn test_fail_apply_strategy() {
    let data = [0, 0, 0, 20, 0, 0, 0, 2, 0, 0, 0, 0, 63, 153, 153, 154, 64, 57, 153, 154];
    let decoder = Decoder::new(&data);
    assert_eq!(decoder.apply().unwrap_err(), EncodeError::UnknownCodec(20));
}

#[test]
fn test_apply_strategy_for_type_1() {
    let data = [0, 0, 0, 1, 0, 0, 0, 2, 0, 0, 0, 0, 63, 153, 153, 154, 64, 57, 153, 154];
    let expected = vec![1.2, 2.9];
    let decoder = Decoder::new(&data);
    if let StrategyDataTypes::VecFloat32(actual) = decoder.apply().unwrap() {
        let floats: Vec<f32> = actual.iter().map(|b| f32::from_bits(*b)).collect();
        assert_eq!(expected, floats);
    } else {
        panic!();
    };
}

#[test]
fn test_apply_strategy_for_type_2() {
    let data = [0, 0, 0, 2, 0, 0, 0, 10, 0, 0, 0, 0, 1, 1, 1, 1, 1, 1, 1, 1, 1, 1];
    let expected = vec![1, 1, 1, 1, 1, 1, 1, 1, 1, 1];
    let decoder = Decoder::new(&data);
    if let StrategyDataTypes::VecInt8(actual) = decoder.apply().unwrap() {
        assert_eq!(expected, actual);
    } else {
        panic!();
    };
}

#[test]
fn test_apply_strategy_for_type_3() {
    let data = [0, 0, 0, 3, 0, 0, 0, 3, 0, 0, 0, 0, 0, 10, 0, 20, 0, 22];
    let expected = vec![10, 20, 22];
    let decoder = Decoder::new(&data);
    if let StrategyDataTypes::VecInt16(actual) = decoder.apply().unwrap() {
        assert_eq!(expected, actual);
    } else {
        panic!();
    };
}

#[test]
fn test_apply_strategy_for_type_4() {
    let data = [
        0, 0, 0, 4, 0, 0, 0, 4, 0, 0, 0, 0, 0, 0, 0, 19, 0, 0, 0, 5, 0, 0, 0, 40, 0, 0, 0, 27,
    ];
    let expected = vec![19, 5, 40, 27];
    let decoder = Decoder::new(&data);
    if let StrategyDataTypes::VecInt32(actual) = decoder.apply().unwrap() {
        assert_eq!(expected, actual);
    } else {
        panic!();
    };
}

#[test]
fn test_apply_strategy_for_type_5() {
    let data = [
        0, 0, 0, 5, 0, 0, 0, 8, 0, 0, 0, 4, 65, 0, 0, 0, 66, 0, 0, 0, 67, 0, 0, 0, 68, 0, 0, 0,
        69, 0, 0, 0, 70, 0, 0, 0, 71, 0, 0, 0, 72, 0, 0, 0,
    ];
    let expected = vec!["A", "B", "C", "D", "E", "F", "G", "H"];
    let decoder = Decoder::new(&data);
    if let StrategyDataTypes::VecString(actual) = decoder.apply().unwrap() {
        assert_eq!(expected, actual);
    } else {
        panic!();
    };
}

#[test]
fn test_apply_strategy_for_type_6() {
    let data = [0, 0, 0, 6, 0, 0, 0, 1, 0, 0, 0, 0, 0, 0, 0, 65, 0, 0, 0, 3];
    let expected = vec!['A', 'A', 'A'];
    let decoder = Decoder::new(&data);
    if let StrategyDataTypes::VecChar(actual) = decoder.apply().unwrap() {
        assert_eq!(expected, actual);
    } else {
        panic!();
    };
}

#[test]
fn test_apply_strategy_for_type_8() {
    let data = [
        0, 0, 0, 8, 0, 0, 0, 124, 0, 0, 0, 0, 0, 0, 0, 0, 0, 0, 0, 1, 0, 0, 0, 1, 0, 0, 0, 7,
        255, 255, 255, 249, 0, 0, 0, 1, 0, 0, 0, 1, 0, 0, 0, 7, 255, 255, 255, 249, 0, 0, 0, 1,
        0, 0, 0, 1, 0, 0, 0, 5, 0, 0, 0, 0, 0, 0, 0, 1, 0, 0, 0, 1, 0, 0, 0, 5, 255, 255, 255,
        245, 0, 0, 0, 1, 0, 0, 0, 0, 0, 0, 0, 95,
    ];

    let expected = vec![
        0, 1, 2, 3, 4, 5, 6, 7, 0, 1, 2, 3, 4, 5, 6, 7, 0, 1, 2, 3, 4, 5, 5, 6, 7, 8, 9, 10, -1,
        -1, -1, -1, -1, -1, -1, -1, -1, -1, -1, -1, -1, -1, -1, -1, -1, -1, -1, -1, -1, -1, -1,
        -1, -1, -1, -1, -1, -1, -1, -1, -1, -1, -1, -1, -1, -1, -1, -1, -1, -1, -1, -1, -1, -1,
        -1, -1, -1, -1, -1, -1, -1, -1, -1, -1, -1, -1, -1, -1, -1, -1, -1, -1, -1, -1, -1, -1,
        -1, -1, -1, -1, -1, -1, -1, -1, -1, -1, -1, -1, -1, -1, -1, -1, -1, -1, -1, -1, -1, -1,
        -1, -1, -1, -1, -1, -1, -1,
    ];

    let decoder = Decoder::new(&data);
    if let StrategyDataTypes::VecInt32(actual) = decoder.apply().unwrap() {
        assert_eq!(expected, actual);
    } else {
        panic!();
    };
}

#[test]
fn test_apply_strategy_for_type_9() {
    let data = [
        0, 0, 0, 9, 0, 0, 0, 9, 0, 0, 0, 100, 0, 0, 0, 150, 0, 0, 0, 1, 0, 0, 1, 24, 0, 0, 0, 1,
        0, 0, 0, 150, 0, 0, 0, 3, 0, 0, 0, 250, 0, 0, 0, 3,
    ];

    let expected = vec![1.5, 2.8, 1.5, 1.5, 1.5, 2.5, 2.5, 2.5];

    let decoder = Decoder::new(&data);
    if let StrategyDataTypes::VecFloat32(actual) = decoder.apply().unwrap() {
        let floats: Vec<f32> = actual.iter().map(|b| f32::from_bits(*b)).collect();
        assert_eq!(expected, floats);
    } else {
        panic!();
    };
}

#[test]
fn decode_field_dispatches_like_the_decoder() {
    let data = [0, 0, 0, 4, 0, 0, 0, 1, 0, 0, 0, 0, 0, 0, 0, 19];
    if let StrategyDataTypes::VecInt32(actual) = decode_field(&data).unwrap() {
        assert_eq!(vec![19], actual);
    } else {
        panic!();
    };
}

#[test]
fn decode_field_rejects_unknown_codec_without_reading_payload() {
    // Codec 20 with a payload that would fail every interpretation: the
    // dispatcher must report the unknown codec, not a payload error.
    let data = [0, 0, 0, 20, 0, 0, 0, 1, 0, 0, 0, 0, 1];
    assert_eq!(decode_field(&data).unwrap_err(), EncodeError::UnknownCodec(20));
}

#[test]
fn decode_field_reports_short_header() {
    let data = [0, 0, 0];
    assert_eq!(decode_field(&data).unwrap_err(), EncodeError::HeaderTooShort(3));
}

#[test]
fn decode_field_reports_truncated_payload() {
    let data = [0, 0, 0, 4, 0, 0, 0, 1, 0, 0, 0, 0, 1, 2];
    assert_eq!(decode_field(&data).unwrap_err(), EncodeError::TruncatedInput);
}

#[test]
fn decode_field_reports_odd_run_length_payload() {
    let data = [0, 0, 0, 7, 0, 0, 0, 1, 0, 0, 0, 0, 0, 0, 0, 5];
    assert_eq!(decode_field(&data).unwrap_err(), EncodeError::OddLengthInput);
}

#[test]
fn decode_field_reports_zero_quantization_factor() {
    let data = [0, 0, 0, 9, 0, 0, 0, 1, 0, 0, 0, 0, 0, 0, 0, 5, 0, 0, 0, 1];
    assert_eq!(decode_field(&data).unwrap_err(), EncodeError::InvalidParameter);
}

#[test]
fn decode_field_uses_parameter_as_string_width() {
    let data = [0, 0, 0, 5, 0, 0, 0, 2, 0, 0, 0, 3, 65, 66, 0, 67, 0, 0];
    if let StrategyDataTypes::VecString(actual) = decode_field(&data).unwrap() {
        assert_eq!(vec!["AB", "C"], actual);
    } else {
        panic!();
    };
}
