use gras::tensor_file::{
    decode_tensor, dtype_tag, elem_size, encode_tensor, tag_dtype, DataError, Dtype, TensorBlob,
};

fn floats(values: &[f32]) -> Vec<u8> {
    values.iter().flat_map(|v| v.to_le_bytes()).collect()
}

fn refused(bytes: Vec<u8>) -> DataError {
    match decode_tensor(&bytes) {
        Ok(_) => panic!("must be refused"),
        Err(e) => e,
    }
}

#[test]
fn test_tensor_roundtrip() {
    let t = TensorBlob {
        dtype: Dtype::Float32,
        shape: vec![2, 2],
        bytes: floats(&[1.0, 2.0, 3.0, 4.0]),
    };
    let loaded = decode_tensor(&encode_tensor(&t).unwrap()).unwrap();
    assert_eq!(loaded.shape, t.shape);
    assert_eq!(loaded.bytes, t.bytes);
    assert_eq!(loaded.dtype, t.dtype);
}

#[test]
fn test_load_tensor_rejects_garbage() {
    assert_eq!(refused(b"not a gras tensor".to_vec()), DataError::BadMagic);
}

#[test]
fn the_file_is_laid_out_as_documented() {
    let t = TensorBlob { dtype: Dtype::Int64, shape: vec![1, 258], bytes: vec![7; 258 * 8] };
    let file = encode_tensor(&t).unwrap();
    let mut expected: Vec<u8> = b"GRA1".to_vec();
    expected.push(2);
    expected.extend_from_slice(&2u64.to_le_bytes());
    expected.extend_from_slice(&1u64.to_le_bytes());
    expected.extend_from_slice(&258u64.to_le_bytes());
    expected.extend_from_slice(&[7; 258 * 8]);
    assert_eq!(file, expected);
}

#[test]
fn every_fault_of_a_file_has_its_error() {
    assert_eq!(refused(vec![]), DataError::BadMagic);
    assert_eq!(refused(b"GRA1\0\0\0\0".to_vec()), DataError::BadMagic);
    let head = |tag: u8, ndim: u64, dims: &[u64]| {
        let mut b: Vec<u8> = b"GRA1".to_vec();
        b.push(tag);
        b.extend_from_slice(&ndim.to_le_bytes());
        for d in dims {
            b.extend_from_slice(&d.to_le_bytes());
        }
        b
    };
    assert_eq!(refused(head(3, 0, &[])), DataError::UnknownDtypeTag(3));
    assert_eq!(refused(b"GRA1\0\x01\0\0\0\0".to_vec()), DataError::Truncated);
    assert_eq!(refused(head(0, 2, &[5])), DataError::Truncated);
    assert_eq!(refused(head(0, u64::MAX, &[5])), DataError::Truncated);
    assert_eq!(
        refused(head(0, 1, &[3])),
        DataError::SizeMismatch { expected: 12, found: 0 }
    );
    assert_eq!(refused(head(1, 2, &[1 << 40, 1 << 40])), DataError::Oversized);
    assert_eq!(refused(head(1, 1, &[u64::MAX])), DataError::Oversized);
    let mut long = head(0, 1, &[1]);
    long.extend_from_slice(&[0; 5]);
    assert_eq!(refused(long), DataError::SizeMismatch { expected: 4, found: 5 });
}

#[test]
fn a_scalar_and_an_empty_tensor_are_tensors() {
    let scalar = TensorBlob { dtype: Dtype::Float64, shape: vec![], bytes: vec![1; 8] };
    let back = decode_tensor(&encode_tensor(&scalar).unwrap()).unwrap();
    assert!(back.shape.is_empty());
    assert_eq!(back.bytes, vec![1; 8]);
    let empty = TensorBlob { dtype: Dtype::Float64, shape: vec![4, 0], bytes: vec![] };
    let back = decode_tensor(&encode_tensor(&empty).unwrap()).unwrap();
    assert_eq!(back.shape, vec![4, 0]);
}

#[test]
fn only_three_element_types_are_written() {
    for (dtype, tag, size) in [
        (Dtype::Float32, 0u8, 4usize),
        (Dtype::Float64, 1, 8),
        (Dtype::Int64, 2, 8),
    ] {
        assert_eq!(dtype_tag(dtype), Ok(tag));
        assert_eq!(tag_dtype(tag), Ok(dtype));
        assert_eq!(elem_size(dtype), size);
    }
    for dtype in [Dtype::Float16, Dtype::BFloat16, Dtype::Int32] {
        let t = TensorBlob { dtype, shape: vec![], bytes: vec![] };
        assert!(matches!(encode_tensor(&t), Err(DataError::UnsupportedDtype(_))));
    }
}

#[test]
fn many_tensors_go_through_a_file_without_loss() {
    let mut rng = fastrand::Rng::with_seed(11);
    for _ in 0..50 {
        let rows = rng.usize(1..8);
        let cols = rng.usize(1..8);
        let data: Vec<f32> = (0..rows * cols).map(|_| rng.f32()).collect();
        let t = TensorBlob {
            dtype: Dtype::Float32,
            shape: vec![rows as u64, cols as u64],
            bytes: floats(&data),
        };
        let back = decode_tensor(&encode_tensor(&t).unwrap()).unwrap();
        assert_eq!(back.shape, t.shape);
        assert_eq!(back.bytes, t.bytes);
    }
}
