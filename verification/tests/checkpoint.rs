use fcpe_mlxrs::checkpoint::{decode_checkpoint, CheckpointError, NamedTensor};

fn file_with(header: &str, data: &[u8]) -> Vec<u8> {
    let mut bytes = (header.len() as u64).to_le_bytes().to_vec();
    bytes.extend_from_slice(header.as_bytes());
    bytes.extend_from_slice(data);
    bytes
}

fn by_name<'a>(tensors: &'a [NamedTensor], name: &str) -> &'a NamedTensor {
    tensors.iter().find(|t| t.name == name).unwrap()
}

#[test]
fn reads_every_tensor_with_shape_and_bytes() {
    let header = r#"{"a":{"dtype":"F32","shape":[2],"data_offsets":[0,8]},"b":{"dtype":"F32","shape":[1,1],"data_offsets":[8,12]}}"#;
    let data: Vec<u8> = (1..=12).collect();
    let tensors = decode_checkpoint(&file_with(header, &data)).unwrap();
    assert_eq!(tensors.len(), 2);
    let a = by_name(&tensors, "a");
    assert_eq!(a.shape, vec![2]);
    assert_eq!(a.data, (1..=8).collect::<Vec<u8>>());
    assert_eq!(a.dims(), vec![2]);
    assert_eq!(a.element_count(), 2);
    let b = by_name(&tensors, "b");
    assert_eq!(b.shape, vec![1, 1]);
    assert_eq!(b.data, vec![9, 10, 11, 12]);
    assert_eq!(b.dims(), vec![1, 1]);
    assert_eq!(b.element_count(), 1);
}

#[test]
fn float_tensor_bytes_are_kept_as_stored() {
    let header = r#"{"w":{"dtype":"F32","shape":[1],"data_offsets":[0,4]}}"#;
    let data = 1.5f32.to_le_bytes();
    let tensors = decode_checkpoint(&file_with(header, &data)).unwrap();
    assert_eq!(tensors.len(), 1);
    assert_eq!(tensors[0].name, "w");
    assert_eq!(tensors[0].data, data.to_vec());
}

#[test]
fn empty_file_has_no_tensors() {
    let tensors = decode_checkpoint(&file_with("{}", &[])).unwrap();
    assert!(tensors.is_empty());
}

#[test]
fn garbage_is_malformed() {
    assert_eq!(decode_checkpoint(&[1, 2, 3]).err(), Some(CheckpointError::Malformed));
    assert_eq!(decode_checkpoint(&file_with("not json", &[])).err(), Some(CheckpointError::Malformed));
}

#[test]
fn offsets_must_cover_the_data() {
    let header = r#"{"a":{"dtype":"F32","shape":[2],"data_offsets":[0,8]}}"#;
    assert_eq!(decode_checkpoint(&file_with(header, &[0; 4])).err(), Some(CheckpointError::Malformed));
}

#[test]
fn dims_convert_by_truncation() {
    let t = NamedTensor { name: String::from("x"), shape: vec![3, 1 << 32], data: vec![0; 7] };
    assert_eq!(t.dims(), vec![3, 0]);
    assert_eq!(t.element_count(), 1);
}

#[test]
fn huge_offsets_are_refused_before_parsing() {
    let size: u64 = (1u64 << 61) - 1;
    let mut entries = Vec::new();
    for i in 0..8u64 {
        entries.push(format!(
            "\"t{}\":{{\"dtype\":\"U8\",\"shape\":[{}],\"data_offsets\":[{},{}]}}",
            i,
            size,
            i * size,
            (i + 1) * size
        ));
    }
    let header = format!("{{{}}}", entries.join(","));
    assert_eq!(decode_checkpoint(&file_with(&header, &[])).err(), Some(CheckpointError::NumberTooLarge));
}

#[test]
fn long_digit_runs_in_names_are_accepted() {
    let header = r#"{"99999999999999999999":{"dtype":"F32","shape":[1],"data_offsets":[0,4]}}"#;
    let tensors = decode_checkpoint(&file_with(header, &[5, 6, 7, 8])).unwrap();
    assert_eq!(tensors.len(), 1);
    assert_eq!(tensors[0].name, "99999999999999999999");
    assert_eq!(tensors[0].data, vec![5, 6, 7, 8]);
}

#[test]
fn long_digit_runs_in_metadata_are_accepted() {
    let header = r#"{"__metadata__":{"step":"123456789012345678901234567890"},"a":{"dtype":"U8","shape":[2],"data_offsets":[0,2]}}"#;
    let tensors = decode_checkpoint(&file_with(header, &[9, 8])).unwrap();
    assert_eq!(tensors.len(), 1);
    assert_eq!(tensors[0].name, "a");
    assert_eq!(tensors[0].data, vec![9, 8]);
}

#[test]
fn escaped_quotes_keep_digits_inside_the_name() {
    let header = r#"{"x\"99999999999999999999":{"dtype":"U8","shape":[1],"data_offsets":[0,1]}}"#;
    let tensors = decode_checkpoint(&file_with(header, &[3])).unwrap();
    assert_eq!(tensors.len(), 1);
    assert_eq!(tensors[0].name, "x\"99999999999999999999");
}

#[test]
fn huge_dimension_outside_strings_is_refused() {
    let header = r#"{"a":{"dtype":"U8","shape":[0,99999999999999999999],"data_offsets":[0,0]}}"#;
    assert_eq!(decode_checkpoint(&file_with(header, &[])).err(), Some(CheckpointError::NumberTooLarge));
}

#[test]
fn ordinary_numbers_are_accepted() {
    let header = r#"{"layer_12":{"dtype":"F32","shape":[1],"data_offsets":[0,4]}}"#;
    let tensors = decode_checkpoint(&file_with(header, &[1, 2, 3, 4])).unwrap();
    assert_eq!(tensors[0].name, "layer_12");
}
