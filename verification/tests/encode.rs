use mmtf::encode::StrategyDataTypes;

#[test]
fn it_convert_to_vec_i8() {
    let data = StrategyDataTypes::VecInt8(vec![0_i8]);
    let result: Vec<i8> = data.into_vec_i8().unwrap();
    assert_eq!(vec![0_i8], result);

    let data = StrategyDataTypes::VecInt8(vec![0_i8]);
    let result: Option<Vec<i8>> = data.into_vec_i8();
    assert_eq!(Some(vec![0_i8]), result);
}

#[test]
fn it_convert_to_vec_i16() {
    let data = StrategyDataTypes::VecInt16(vec![0_i16]);
    let result: Vec<i16> = data.into_vec_i16().unwrap();
    assert_eq!(vec![0_i16], result);
}

#[test]
fn it_convert_to_vec_i32() {
    let data = StrategyDataTypes::VecInt32(vec![0]);
    let result: Vec<i32> = data.into_vec_i32().unwrap();
    assert_eq!(vec![0], result);

    let data = StrategyDataTypes::VecInt32(vec![0]);
    let result: Option<Vec<i32>> = data.into_vec_i32();
    assert_eq!(Some(vec![0]), result);
}

#[test]
fn it_convert_to_vec_f32() {
    let data = StrategyDataTypes::VecFloat32(vec![0.0_f32.to_bits()]);
    let result: Vec<f32> = data
        .into_vec_f32_bits()
        .unwrap()
        .iter()
        .map(|b| f32::from_bits(*b))
        .collect();
    assert_eq!(vec![0.0], result);

    let data = StrategyDataTypes::VecFloat32(vec![0.0_f32.to_bits()]);
    let result: Option<Vec<u32>> = data.into_vec_f32_bits();
    assert_eq!(Some(vec![0.0_f32.to_bits()]), result);
}

#[test]
fn it_convert_to_vec_char() {
    let data = StrategyDataTypes::VecChar(vec!['a']);
    let result: Vec<char> = data.into_vec_char().unwrap();
    assert_eq!(vec!['a'], result);

    let data = StrategyDataTypes::VecChar(vec!['a']);
    let result: Option<Vec<char>> = data.into_vec_char();
    assert_eq!(Some(vec!['a']), result);
}

#[test]
fn it_convert_to_vec_string() {
    let data = StrategyDataTypes::VecString(vec!["A".to_string()]);
    let result: Vec<String> = data.into_vec_string().unwrap();
    assert_eq!(vec!["A".to_string()], result);
}

#[test]
fn it_reject_wrong_tag_extraction() {
    let data = StrategyDataTypes::VecInt8(vec![0_i8]);
    assert_eq!(None, data.into_vec_i32());
}
