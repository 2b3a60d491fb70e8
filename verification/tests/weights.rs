use std::collections::HashMap;

use metal_infer::error::{GpuError, ModelError};
use metal_infer::gpu::tensor::Storage;
use metal_infer::gpu::DeviceMemory;
use metal_infer::weights::{
    sorted_unique, stored_tensors, weight_files, StoredDType, StoredTensor, Upload, WeightMap,
};
use safetensors::tensor::{serialize, TensorView};
use safetensors::Dtype;

fn file(tensors: &[(&str, Dtype, Vec<usize>, Vec<u8>)]) -> Vec<u8> {
    let views: HashMap<String, TensorView<'_>> = tensors
        .iter()
        .map(|(name, dtype, shape, data)| {
            let view = TensorView::new(*dtype, shape.clone(), data).expect("a tensor");
            ((*name).to_owned(), view)
        })
        .collect();
    serialize(views, None).expect("a file")
}

fn stored<'data>(name: &str, dtype: StoredDType, shape: &[usize], data: &'data [u8]) -> StoredTensor<'data> {
    StoredTensor { name: name.into(), dtype, shape: shape.to_vec(), data }
}

#[test]
fn a_file_yields_its_tensors() {
    let bytes = file(&[
        ("half", Dtype::F16, vec![2, 1], vec![1, 2, 3, 4]),
        ("brain", Dtype::BF16, vec![1], vec![5, 6]),
        ("single", Dtype::F32, vec![1], vec![7, 8, 9, 10]),
    ]);
    let mut tensors = stored_tensors(&bytes).expect("a file");
    tensors.sort_by(|left, right| left.name.cmp(&right.name));
    let shown: Vec<_> = tensors
        .iter()
        .map(|tensor| (tensor.name.as_str(), tensor.dtype, tensor.shape.clone(), tensor.data.to_vec()))
        .collect();
    assert_eq!(
        shown,
        vec![
            ("brain", StoredDType::BF16, vec![1], vec![5, 6]),
            ("half", StoredDType::F16, vec![2, 1], vec![1, 2, 3, 4]),
            ("single", StoredDType::Other, vec![1], vec![7, 8, 9, 10]),
        ]
    );
}

#[test]
fn bytes_that_are_no_file_are_refused() {
    assert!(matches!(stored_tensors(b"short"), Err(ModelError::Safetensors)));
    assert!(matches!(stored_tensors(&[0; 64]), Err(ModelError::Safetensors)));
    let mut truncated = file(&[("a", Dtype::F16, vec![1], vec![1, 2])]);
    truncated.pop();
    assert!(matches!(stored_tensors(&truncated), Err(ModelError::Safetensors)));
    let header = br#"{"a":{"dtype":"F16","shape":[1],"data_offsets":[0,18446744073709551615]}}"#;
    let mut huge = (header.len() as u64).to_le_bytes().to_vec();
    huge.extend_from_slice(header);
    assert!(matches!(stored_tensors(&huge), Err(ModelError::Safetensors)));
}

#[test]
fn digits_in_names_are_no_numbers() {
    let name = "layer.123456789012345678901234567890";
    let bytes = file(&[(name, Dtype::F16, vec![1], vec![1, 2])]);
    assert_eq!(stored_tensors(&bytes).expect("a file")[0].name, name);
}

#[test]
fn weights_are_taken_over_and_taken_out() {
    let bytes = file(&[
        ("a", Dtype::F16, vec![2, 3], vec![0; 12]),
        ("b", Dtype::BF16, vec![4], vec![1; 8]),
    ]);
    let mut device = DeviceMemory::new();
    let mut weights = WeightMap::new();
    let uploads = weights.add_file(&mut device, &bytes).expect("taken over");
    assert_eq!(uploads.len(), 2);
    assert_eq!(device.lens.len(), 2);
    let a = weights.take("a").expect("there");
    assert_eq!(a.shape(), &[2, 3]);
    let b = weights.take("b").expect("there");
    assert_eq!(b.shape(), &[4]);
    for upload in &uploads {
        let (tensor, source) = match upload.source {
            StoredDType::F16 => (&a, 12),
            StoredDType::BF16 => (&b, 8),
            StoredDType::Other => unreachable!(),
        };
        assert_eq!(upload.data.len(), source);
        assert!(matches!(tensor.storage(), Storage::Device { buffer } if buffer == upload.buffer));
    }
    assert!(matches!(weights.take("a"), Err(ModelError::MissingTensor)), "once");
}

#[test]
fn a_later_tensor_replaces_one_of_the_same_name() {
    let mut device = DeviceMemory::new();
    let mut weights = WeightMap::new();
    weights
        .add_tensors(&mut device, vec![stored("a", StoredDType::F16, &[1], &[0; 2])])
        .expect("taken over");
    weights
        .add_tensors(&mut device, vec![stored("a", StoredDType::F16, &[3], &[0; 6])])
        .expect("taken over");
    assert_eq!(weights.take("a").expect("there").shape(), &[3]);
    assert!(weights.take("a").is_err());
}

#[test]
fn tensors_that_do_not_fit_are_refused() {
    let mut device = DeviceMemory::new();
    let mut refused = |dtype, shape: &[usize], data: &[u8]| {
        WeightMap::new()
            .add_tensors(
                &mut device,
                vec![stored("ok", StoredDType::F16, &[1], &[0; 2]), stored("a", dtype, shape, data)],
            )
            .err()
            .expect("refused")
    };
    assert!(matches!(
        refused(StoredDType::Other, &[1], &[0; 4]),
        ModelError::UnsupportedTensorDType
    ));
    assert!(matches!(
        refused(StoredDType::F16, &[2], &[0; 2]),
        ModelError::Gpu(GpuError::DataLengthMismatch)
    ));
    assert!(matches!(
        refused(StoredDType::BF16, &[0], &[]),
        ModelError::Gpu(GpuError::EmptyShape)
    ));
}

#[test]
fn weight_files_are_listed_once_in_order() {
    let listed = vec!["b".to_owned(), "a".to_owned(), "b".to_owned(), "aa".to_owned()];
    assert_eq!(sorted_unique(&listed), vec!["a", "aa", "b"]);
    assert_eq!(weight_files(Some(&listed), true).expect("listed"), vec!["a", "aa", "b"]);
    assert_eq!(weight_files(None, true).expect("single"), vec!["model.safetensors"]);
    assert!(matches!(weight_files(None, false), Err(ModelError::MissingWeights)));
}

#[test]
fn data_fills_its_buffer() {
    let upload = |source, data| Upload { buffer: 0, source, data };
    let mut buffer = [9u8; 6];
    let data = [0x80, 0x3f, 0x00, 0xc0];
    assert_eq!(upload(StoredDType::F16, &data).fill(&mut buffer), Ok(()));
    assert_eq!(buffer, [0x80, 0x3f, 0x00, 0xc0, 9, 9]);
    assert_eq!(upload(StoredDType::BF16, &data).fill(&mut buffer), Ok(()));
    assert_eq!(buffer, [0x00, 0x3c, 0x00, 0xc0, 9, 9], "one, and minus two");
    assert_eq!(
        upload(StoredDType::F16, &[1; 7]).fill(&mut buffer),
        Err(GpuError::DataLengthMismatch)
    );
    assert_eq!(
        upload(StoredDType::BF16, &[1; 3]).fill(&mut buffer),
        Err(GpuError::DataLengthMismatch)
    );
    assert_eq!(buffer, [0x00, 0x3c, 0x00, 0xc0, 9, 9]);
}
