use tract_core::datum::DatumType;
use tract_core::dim::TDim;
use tract_core::error::Error;
use tract_core::extract_image_patches::{
    extract_image_patches, ksizes, rates, ComputedPaddedDim, ExtractImagePatches, PaddingSpec,
};
use tract_core::fact::{InferenceFact, TypedFact};
use tract_core::tensor::Tensor;

fn dims(values: &[usize]) -> Vec<TDim> {
    values.iter().map(|v| TDim { slope: 0, offset: *v as i128 }).collect()
}

fn f32_tensor(shape: &[usize], values: &[f32]) -> Tensor {
    let data: Vec<u8> = values.iter().flat_map(|v| v.to_ne_bytes()).collect();
    Tensor::new(DatumType::F32, shape.to_vec(), data).unwrap()
}

fn f32_values(t: &Tensor) -> Vec<f32> {
    t.data.chunks(4).map(|c| f32::from_ne_bytes([c[0], c[1], c[2], c[3]])).collect()
}

fn padded(output: usize, pad_before: usize, pad_after: usize) -> ComputedPaddedDim<usize> {
    ComputedPaddedDim { output, pad_before, pad_after }
}

fn two_by_two() -> ExtractImagePatches {
    extract_image_patches(PaddingSpec::Valid, vec![1, 1, 1, 1], vec![1, 1, 1, 1], vec![1, 2, 2, 1])
        .unwrap()
}

#[test]
fn image_attributes_have_four_entries() {
    assert_eq!(rates(vec![1, 2, 3, 1]), Ok(vec![1, 2, 3, 1]));
    assert_eq!(ksizes(vec![1, 2, 3, 1]), Ok(vec![1, 2, 3, 1]));
    assert_eq!(rates(vec![1, 2, 3]), Err(Error::Attribute));
    assert_eq!(ksizes(vec![2, 2, 3, 2]), Err(Error::Attribute));
    // one end that is one is enough
    assert_eq!(rates(vec![1, 2, 3, 5]), Ok(vec![1, 2, 3, 5]));
}

#[test]
fn operator_keeps_the_spatial_entries() {
    let op = extract_image_patches(
        PaddingSpec::SameUpper,
        vec![1, 2, 3, 1],
        vec![1, 4, 5, 1],
        vec![1, 6, 7, 1],
    )
    .unwrap();
    assert_eq!(op.strides, vec![2, 3]);
    assert_eq!(op.rates, vec![4, 5]);
    assert_eq!(op.ksizes, vec![6, 7]);
    assert!(matches!(op.padding, PaddingSpec::SameUpper));
    assert_eq!(op.name(), "tf.ExtractImagePatches");
    let r = extract_image_patches(PaddingSpec::Valid, vec![1, 2], vec![1, 4, 5, 1], vec![1, 6, 7, 1]);
    assert_eq!(r.unwrap_err(), Error::Attribute);
}

#[test]
fn patches_without_padding() {
    let image = f32_tensor(&[1, 2, 2, 1], &[1.0, 2.0, 3.0, 4.0]);
    let out = two_by_two().eval(vec![image], &vec![padded(1, 0, 0), padded(1, 0, 0)]).unwrap();
    assert_eq!(out[0].shape, vec![1, 1, 1, 4]);
    assert_eq!(f32_values(&out[0]), vec![1.0, 2.0, 3.0, 4.0]);
}

#[test]
fn patches_reach_into_the_padding() {
    let image = f32_tensor(&[1, 2, 2, 1], &[1.0, 2.0, 3.0, 4.0]);
    let out = two_by_two().eval(vec![image], &vec![padded(2, 0, 1), padded(2, 0, 1)]).unwrap();
    assert_eq!(out[0].shape, vec![1, 2, 2, 4]);
    assert_eq!(
        f32_values(&out[0]),
        vec![
            1.0, 2.0, 3.0, 4.0, // around (0, 0)
            2.0, 0.0, 4.0, 0.0, // around (0, 1)
            3.0, 4.0, 0.0, 0.0, // around (1, 0)
            4.0, 0.0, 0.0, 0.0, // around (1, 1)
        ]
    );
}

#[test]
fn patches_with_channels_and_strides() {
    // two channels, patches of one element, every second column
    let image = f32_tensor(&[1, 1, 4, 2], &[0.0, 1.0, 2.0, 3.0, 4.0, 5.0, 6.0, 7.0]);
    let op = extract_image_patches(
        PaddingSpec::Valid,
        vec![1, 1, 2, 1],
        vec![1, 1, 1, 1],
        vec![1, 1, 1, 1],
    )
    .unwrap();
    let out = op.eval(vec![image], &vec![padded(1, 0, 0), padded(2, 0, 0)]).unwrap();
    assert_eq!(out[0].shape, vec![1, 1, 2, 2]);
    assert_eq!(f32_values(&out[0]), vec![0.0, 1.0, 4.0, 5.0]);
}

#[test]
fn patches_errors() {
    let op = two_by_two();
    let pads = vec![padded(1, 0, 0), padded(1, 0, 0)];
    assert_eq!(op.eval(vec![], &pads).unwrap_err(), Error::Arity);
    let bytes = Tensor::new(DatumType::U8, vec![1, 2, 2, 1], vec![0; 4]).unwrap();
    assert_eq!(op.eval(vec![bytes], &pads).unwrap_err(), Error::TypeMismatch);
    let flat = f32_tensor(&[4], &[1.0, 2.0, 3.0, 4.0]);
    assert_eq!(op.eval(vec![flat], &pads).unwrap_err(), Error::RankMismatch);
    let image = f32_tensor(&[1, 2, 2, 1], &[1.0, 2.0, 3.0, 4.0]);
    assert_eq!(op.eval(vec![image.dup()], &vec![padded(1, 0, 0)]).unwrap_err(), Error::Attribute);
    // the padding before the rows is also taken off the columns: a column
    // before it cannot be read
    let uneven = vec![padded(2, 1, 0), padded(2, 0, 1)];
    assert_eq!(op.eval(vec![image], &uneven).unwrap_err(), Error::Range);
}

#[test]
fn patches_output_fact() {
    let op = two_by_two();
    let input = TypedFact::dt_shape(DatumType::F32, &dims(&[8, 5, 6, 3]));
    let computed = vec![
        ComputedPaddedDim { output: dims(&[4])[0], pad_before: dims(&[0])[0], pad_after: dims(&[0])[0] },
        ComputedPaddedDim { output: dims(&[5])[0], pad_before: dims(&[0])[0], pad_after: dims(&[0])[0] },
    ];
    let facts = op.output_facts(&vec![&input], &computed).unwrap();
    // two by two places of three channels each
    assert_eq!(facts[0].shape, dims(&[8, 4, 5, 12]));
    assert_eq!(facts[0].datum_type, DatumType::F32);
    let flat = TypedFact::dt_shape(DatumType::F32, &dims(&[8, 5]));
    assert_eq!(op.output_facts(&vec![&flat], &computed).unwrap_err(), Error::RankMismatch);
    assert_eq!(op.output_facts(&vec![], &computed).unwrap_err(), Error::Arity);
}

#[test]
fn patches_rules() {
    let op = two_by_two();
    let known = InferenceFact {
        datum_type: Some(DatumType::F32),
        shape: Some(dims(&[8, 5, 6, 3]).into_iter().map(Some).collect()),
    };
    let unknown = InferenceFact { datum_type: None, shape: None };
    let computed = vec![
        ComputedPaddedDim { output: dims(&[4])[0], pad_before: dims(&[0])[0], pad_after: dims(&[0])[0] },
        ComputedPaddedDim { output: dims(&[5])[0], pad_before: dims(&[0])[0], pad_after: dims(&[0])[0] },
    ];
    let (_, outs) = op.rules(&vec![known], &vec![unknown], Some(&computed)).unwrap();
    assert_eq!(outs[0].datum_type, Some(DatumType::F32));
    assert_eq!(outs[0].shape, Some(dims(&[8, 4, 5, 12]).into_iter().map(Some).collect()));
    // without a padding only the batch and the channels are known
    let known = InferenceFact {
        datum_type: Some(DatumType::F32),
        shape: Some(dims(&[8, 5, 6, 3]).into_iter().map(Some).collect()),
    };
    let unknown = InferenceFact { datum_type: None, shape: None };
    let (_, outs) = op.rules(&vec![known], &vec![unknown], None).unwrap();
    assert_eq!(
        outs[0].shape,
        Some(vec![Some(dims(&[8])[0]), None, None, Some(dims(&[12])[0])])
    );
    // an input with three axes is a contradiction
    let flat = InferenceFact { datum_type: None, shape: Some(vec![None, None, None]) };
    let unknown = InferenceFact { datum_type: None, shape: None };
    assert_eq!(op.rules(&vec![flat], &vec![unknown], None).unwrap_err(), Error::RankMismatch);
}
