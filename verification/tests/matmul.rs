use tract_core::axis::{AxisOp, InOut};
use tract_core::codegen::{a_pack_plan, new_mat_mul_unary_finite};
use tract_core::concat::{NormConcat, NormConcatSlice};
use tract_core::datum::DatumType;
use tract_core::dim::TDim;
use tract_core::error::Error;
use tract_core::eval::EvalPlan;
use tract_core::fact::{InferenceFact, PulsedFact, TypedFact};
use tract_core::geo::Geo;
use tract_core::matmul::{cost, Cost, MatMul, MatMulUnary, QParams};
use tract_core::model::{Model, Op, OutletId, TypedModel};
use tract_core::patch::TypedModelPatch;
use tract_core::phy::{codegen_kernel, eval_kernel, KernelKind, Packing, Storage};
use tract_core::pulse::PulsedModel;
use tract_core::shapes::infer_shapes;
use tract_core::tensor::Tensor;

fn dims(values: &[usize]) -> Vec<TDim> {
    values.iter().map(|v| TDim { slope: 0, offset: *v as i128 }).collect()
}

fn f32_tensor(shape: &[usize], values: &[f32]) -> Tensor {
    let data: Vec<u8> = values.iter().flat_map(|v| v.to_ne_bytes()).collect();
    Tensor::new(DatumType::F32, shape.to_vec(), data).unwrap()
}

fn f32_values(t: &Tensor) -> Vec<f32> {
    t.data.chunks(4).map(|c| f32::from_ne_bytes([c[0], c[1], c[2], c[3]])).collect()
}

fn fact(shape: &[usize]) -> TypedFact {
    TypedFact::dt_shape(DatumType::F32, &dims(shape))
}

fn q_params(c: DatumType) -> QParams {
    QParams {
        c_datum_type: c,
        zero_point_a: None,
        zero_point_b: None,
        zero_point_c: None,
        scale_factor_bits: None,
    }
}

/// Runs a plan with a plain triple loop in the place of the kernel.
fn run(plan: &EvalPlan, a: &Tensor, b: &Tensor) -> Vec<f32> {
    let a = f32_values(a);
    let b = f32_values(b);
    let geo = &plan.geo;
    let mut c = vec![0f32; geo.bc_c_shape.iter().product()];
    for tile in 0..plan.c_offsets.len() {
        for i in 0..geo.m {
            for j in 0..geo.n {
                let mut sum = 0f32;
                for k in 0..geo.k {
                    let x = a[plan.a_offsets[tile]
                        + i * plan.a_row_stride as usize
                        + k * plan.a_col_stride as usize];
                    let y = b[plan.b_offsets[tile]
                        + k * plan.b_row_stride as usize
                        + j * plan.b_col_stride as usize];
                    sum += x * y;
                }
                c[plan.c_offsets[tile] + i * plan.c_row_stride as usize + j * plan.c_col_stride as usize] = sum;
            }
        }
    }
    c
}

#[test]
fn bin() {
    let a = f32_tensor(&[2, 3], &[0f32, 1.0, 2.0, 3.0, 4.0, 5.0]);
    let b = f32_tensor(&[3, 1], &[0f32, 1.0, 2.0]);
    let c = vec![5f32, 14.0];
    let op = MatMul::default();
    let plan = op.eval(&vec![a.dup(), b.dup()]).unwrap();
    assert_eq!(plan.kernel, KernelKind::Smmm);
    assert_eq!(plan.geo.final_c_shape, vec![2, 1]);
    let c_found = run(&plan, &a, &b);
    assert_eq!(c_found, c);
}

#[test]
fn bin_transpose() {
    let a = f32_tensor(&[2, 3], &[0f32, 1.0, 2.0, 3.0, 4.0, 5.0]);
    let b = f32_tensor(&[3, 1], &[0f32, 1.0, 2.0]);
    let c = vec![5f32, 14.0];
    let op = MatMul::default().with_a_trans(true).with_b_trans(true).with_c_trans(true);
    let plan = op.eval(&vec![b.dup(), a.dup()]).unwrap();
    assert_eq!(plan.geo.final_c_shape, vec![2, 1]);
    let c_found = run(&plan, &b, &a);
    assert_eq!(c_found, c);
}

#[test]
fn batched_product_equals_the_products_of_the_slices() {
    // A has two slices, B has three; the prefixes [2, 1] and [1, 3] broadcast to [2, 3].
    let a_values: Vec<f32> = (0..2 * 2 * 2).map(|v| v as f32).collect();
    let b_values: Vec<f32> = (0..3 * 2 * 2).map(|v| (v as f32) - 5.0).collect();
    let a = f32_tensor(&[2, 1, 2, 2], &a_values);
    let b = f32_tensor(&[1, 3, 2, 2], &b_values);
    let plan = MatMul::default().eval(&vec![a.dup(), b.dup()]).unwrap();
    assert_eq!(plan.geo.bc_c_shape, vec![2, 3, 2, 2]);
    assert_eq!(plan.a_offsets, vec![0, 0, 0, 4, 4, 4]);
    assert_eq!(plan.b_offsets, vec![0, 4, 8, 0, 4, 8]);
    assert_eq!(plan.c_offsets, vec![0, 4, 8, 12, 16, 20]);
    let c = run(&plan, &a, &b);
    for p in 0..2 {
        for q in 0..3 {
            let a_slice = f32_tensor(&[2, 2], &a_values[p * 4..p * 4 + 4]);
            let b_slice = f32_tensor(&[2, 2], &b_values[q * 4..q * 4 + 4]);
            let single = MatMul::default().eval(&vec![a_slice.dup(), b_slice.dup()]).unwrap();
            let expected = run(&single, &a_slice, &b_slice);
            let at = (p * 3 + q) * 4;
            assert_eq!(&c[at..at + 4], &expected[..]);
        }
    }
}

#[test]
fn infer_shapes_with_implicit_axes() {
    // a vector times a matrix: the row axis of the result is squeezed
    let (a, b, c, c_final) = infer_shapes(vec![3usize], vec![3usize, 4], false, false, false).unwrap();
    assert_eq!(a, vec![1, 3]);
    assert_eq!(b, vec![3, 4]);
    assert_eq!(c, vec![1, 4]);
    assert_eq!(c_final, vec![4]);
    // a matrix times a vector, result transposed
    let (a, b, c, c_final) = infer_shapes(vec![2usize, 3], vec![3usize], false, false, true).unwrap();
    assert_eq!(a, vec![2, 3]);
    assert_eq!(b, vec![3, 1]);
    assert_eq!(c, vec![1, 2]);
    assert_eq!(c_final, vec![2]);
    // transposed operands
    let (_, _, c, _) = infer_shapes(vec![3usize, 2], vec![4usize, 3], true, true, false).unwrap();
    assert_eq!(c, vec![2, 4]);
}

#[test]
fn infer_shapes_round_trip() {
    let (a, b, c, _) = infer_shapes(vec![7usize, 2, 3], vec![3usize], false, false, false).unwrap();
    assert_eq!((a.clone(), b.clone(), c.clone()), (vec![7, 2, 3], vec![1, 3, 1], vec![7, 2, 1]));
    // inferring again from the padded operands gives them back
    let (a2, b2, c2, c_final2) = infer_shapes(a.clone(), b.clone(), false, false, false).unwrap();
    assert_eq!((a2, b2, c2.clone()), (a, b, c.clone()));
    assert_eq!(c_final2, c);
}

#[test]
fn infer_shapes_errors() {
    assert_eq!(
        infer_shapes(vec![2usize, 3], vec![4usize, 5], false, false, false).unwrap_err(),
        Error::InconsistentMatMul
    );
    assert_eq!(
        infer_shapes(vec![2usize, 2, 3], vec![3usize, 3, 5], false, false, false).unwrap_err(),
        Error::Broadcast
    );
    assert_eq!(
        infer_shapes(Vec::<usize>::new(), Vec::<usize>::new(), false, true, false).unwrap_err(),
        Error::RankMismatch
    );
    // symbolic dims are compared as they stand
    let s = TDim::stream();
    let one = TDim { slope: 0, offset: 1 };
    let r = infer_shapes(vec![s, dims(&[3])[0]], vec![dims(&[3])[0], one], false, false, false);
    assert_eq!(r.unwrap().3, vec![s, one]);
}

#[test]
fn geometry_of_a_product() {
    let geo = Geo::new(&vec![2, 1, 3, 4], &vec![1, 5, 4, 6], false, false, false).unwrap();
    assert_eq!((geo.m, geo.k, geo.n), (3, 4, 6));
    assert_eq!(geo.bc_c_shape, vec![2, 5, 3, 6]);
    assert_eq!(geo.c_shape_prefix, vec![2, 5]);
    // innermost prefix axis first
    assert_eq!(geo.a_stride_prefix, vec![12, 12]);
    assert_eq!(geo.b_stride_prefix, vec![24, 120]);
    assert_eq!(geo.c_stride_prefix, vec![18, 90]);
    let huge = usize::MAX / 2;
    assert_eq!(
        Geo::new(&vec![huge, 2, 3], &vec![3, 2], false, false, false).unwrap_err(),
        Error::Overflow
    );
}

#[test]
fn kernels_by_element_types() {
    assert_eq!(eval_kernel(DatumType::F32, DatumType::F32, None), Ok(KernelKind::Smmm));
    assert_eq!(
        eval_kernel(DatumType::F32, DatumType::F32, Some(q_params(DatumType::F32))),
        Err(Error::Unsupported)
    );
    assert_eq!(
        eval_kernel(DatumType::I8, DatumType::I8, Some(q_params(DatumType::I8))),
        Ok(KernelKind::QmmmI8I8)
    );
    assert_eq!(
        eval_kernel(DatumType::I8, DatumType::I8, Some(q_params(DatumType::I32))),
        Ok(KernelKind::QmmmI8I32)
    );
    assert_eq!(
        eval_kernel(DatumType::I8, DatumType::I8, Some(q_params(DatumType::U8))),
        Err(Error::Unsupported)
    );
    assert_eq!(
        eval_kernel(DatumType::U8, DatumType::U8, Some(q_params(DatumType::U8))),
        Ok(KernelKind::QmmmU8U8)
    );
    assert_eq!(
        eval_kernel(DatumType::U8, DatumType::U8, Some(q_params(DatumType::I32))),
        Ok(KernelKind::QmmmU8I32)
    );
    assert_eq!(eval_kernel(DatumType::I8, DatumType::I8, None), Err(Error::Unsupported));
    assert_eq!(
        codegen_kernel(DatumType::I8, DatumType::I8, Some(q_params(DatumType::I8))),
        Ok(KernelKind::QmmmI8I8)
    );
    assert_eq!(
        codegen_kernel(DatumType::I8, DatumType::I8, Some(q_params(DatumType::I32))),
        Ok(KernelKind::QmmmI8I32)
    );
    assert_eq!(
        codegen_kernel(DatumType::F32, DatumType::F32, Some(q_params(DatumType::I8))),
        Ok(KernelKind::Smmm)
    );
    assert_eq!(codegen_kernel(DatumType::U8, DatumType::U8, None), Err(Error::Unsupported));
}

#[test]
fn eval_rejects_what_it_cannot_multiply() {
    let a = Tensor::new(DatumType::I32, vec![1, 1], vec![0; 4]).unwrap();
    let b = Tensor::new(DatumType::I32, vec![1, 1], vec![0; 4]).unwrap();
    assert_eq!(MatMul::default().eval(&vec![a, b]).unwrap_err(), Error::Unsupported);
    let a = f32_tensor(&[2, 3], &[0.0; 6]);
    let b = f32_tensor(&[2, 3], &[0.0; 6]);
    assert_eq!(MatMul::default().eval(&vec![a, b]).unwrap_err(), Error::InconsistentMatMul);
    assert_eq!(MatMul::default().eval(&vec![]).unwrap_err(), Error::Arity);
}

#[test]
fn cost_counts_the_multiply_adds() {
    let c = cost(&vec![2usize, 1, 3, 4], &vec![1usize, 5, 4, 6], DatumType::F32, false, false)
        .unwrap();
    assert_eq!(c.len(), 1);
    assert!(matches!(c[0].0, Cost::FMA(DatumType::F32)));
    // prefix 2 * 5, times m * k * n = 3 * 4 * 6
    assert_eq!(c[0].1, TDim { slope: 0, offset: 720 });
    // a streaming batch axis gives a cost that grows with the stream
    let s = TDim::stream();
    let a = vec![s, dims(&[3])[0], dims(&[4])[0]];
    let c = cost(&a, &dims(&[4, 6]), DatumType::F32, false, false).unwrap();
    assert_eq!(c[0].1, TDim { slope: 72, offset: 0 });
    // two dims that grow with the stream have no product that is a dim
    let a = vec![s, s, dims(&[4])[0]];
    assert_eq!(
        cost(&a, &dims(&[4, 6]), DatumType::F32, false, false).unwrap_err(),
        Error::Overflow
    );
}

#[test]
fn matmul_output_facts_and_rules() {
    let op = MatMul::default();
    let a = fact(&[2, 1, 3, 4]);
    let b = fact(&[1, 5, 4, 6]);
    let facts = op.output_facts(&vec![&a, &b]).unwrap();
    assert_eq!(facts[0].shape, dims(&[2, 5, 3, 6]));
    assert_eq!(facts[0].datum_type, DatumType::F32);
    let q = MatMul::default().with_q_params(q_params(DatumType::I32));
    assert_eq!(q.output_facts(&vec![&a, &b]).unwrap()[0].datum_type, DatumType::I32);
    assert_eq!(op.output_facts(&vec![&a]).unwrap_err(), Error::Arity);
    let known = |shape: &[usize]| InferenceFact {
        datum_type: Some(DatumType::F32),
        shape: Some(dims(shape).into_iter().map(Some).collect()),
    };
    let unknown = InferenceFact { datum_type: None, shape: None };
    let (_, outs) = op.rules(&vec![known(&[2, 3]), known(&[3, 5])], &vec![unknown]).unwrap();
    assert_eq!(outs[0].datum_type, Some(DatumType::F32));
    assert_eq!(outs[0].shape, known(&[2, 5]).shape);
    let unknown = InferenceFact { datum_type: None, shape: None };
    assert_eq!(
        op.rules(&vec![known(&[2, 3]), known(&[4, 5])], &vec![unknown]).unwrap_err(),
        Error::InconsistentMatMul
    );
}

/// A model where a source `[2, 3]` and a constant `[3, 1]` feed a product.
fn model_with_constant_b() -> (TypedModel, Tensor) {
    let mut model: TypedModel = Model::new();
    let a = model.add_source("a".to_string(), fact(&[2, 3]));
    let b_tensor = f32_tensor(&[3, 1], &[0.0, 1.0, 2.0]);
    let b = model.add_const("b".to_string(), b_tensor.dup());
    let op = MatMul::default();
    model.wire_node("product".to_string(), Op::MatMul(op), &vec![a, b], vec![fact(&[2, 1])]).unwrap();
    (model, b_tensor)
}

#[test]
fn product_with_a_constant_becomes_unary() {
    let (model, b_tensor) = model_with_constant_b();
    let patch = MatMul::default().declutter(&model, model.node(2)).unwrap().unwrap();
    assert_eq!(patch.model.nodes.len(), 2);
    assert_eq!(patch.incoming, vec![(OutletId::new(0, 0), OutletId::new(0, 0))]);
    assert_eq!(patch.shunt_outlet_by, vec![(OutletId::new(2, 0), OutletId::new(1, 0))]);
    let node = &patch.model.nodes[1];
    assert_eq!(node.name, "product");
    assert_eq!(node.inputs, vec![OutletId::new(0, 0)]);
    // the result keeps its shape
    assert_eq!(node.outputs[0].shape, dims(&[2, 1]));
    match &node.op {
        Op::MatMulUnary(unary) => {
            assert_eq!(unary.a.shape, b_tensor.shape);
            assert_eq!(unary.a.data, b_tensor.data);
            // the constant was the right operand: operands swapped, flags flipped
            assert!(unary.a_trans && unary.b_trans && unary.c_trans);
        }
        _ => panic!("the product must become a product with a constant"),
    }
}

#[test]
fn product_of_two_wires_stays() {
    let mut model: TypedModel = Model::new();
    let a = model.add_source("a".to_string(), fact(&[2, 3]));
    let b = model.add_source("b".to_string(), fact(&[3, 1]));
    model
        .wire_node("product".to_string(), Op::MatMul(MatMul::default()), &vec![a, b], vec![fact(&[2, 1])])
        .unwrap();
    assert!(MatMul::default().declutter(&model, model.node(2)).unwrap().is_none());
}

/// A model where a source of the given shape feeds a product with the constant.
fn unary_model(a: &Tensor, input: &[usize], output: &[usize]) -> (TypedModel, MatMulUnary) {
    let mut model: TypedModel = Model::new();
    let b = model.add_source("b".to_string(), fact(input));
    let unary = MatMulUnary::new(a.dup(), false, false, false, None);
    model
        .wire_node("product".to_string(), Op::MatMulUnary(unary.dup()), &vec![b], vec![fact(output)])
        .unwrap();
    (model, unary)
}

#[test]
fn codegen_packs_the_constant_ahead() {
    let a = f32_tensor(&[2, 3], &[0.0, 1.0, 2.0, 3.0, 4.0, 5.0]);
    let (model, unary) = unary_model(&a, &[3, 4], &[2, 4]);
    let request = unary.codegen(&model, model.node(1)).unwrap().unwrap();
    assert_eq!(request.kind, KernelKind::Smmm);
    assert_eq!((request.geo.m, request.geo.k, request.geo.n), (2, 3, 4));
    assert_eq!(request.b_shape, vec![3, 4]);
    let a_pack = Packing { len: 8, alignment: 32 };
    let b_pack = Packing { len: 12, alignment: 32 };
    let packed = vec![f32_tensor(&[8], &[0.0; 8])];
    let patch = new_mat_mul_unary_finite(
        &model,
        model.node(1),
        &a,
        &request.b_shape,
        false,
        false,
        false,
        None,
        request.kind,
        a_pack,
        b_pack,
        packed,
    )
    .unwrap();
    assert_eq!(patch.model.nodes.len(), 3);
    assert_eq!(patch.model.nodes[1].name, "product-pack");
    assert_eq!(patch.model.nodes[2].name, "product-matmatmul");
    match &patch.model.nodes[1].op {
        Op::MatMatMulPackB(pack) => {
            assert_eq!(pack.output_shape, vec![12]);
            assert_eq!((pack.row_stride, pack.col_stride), (4, 1));
        }
        _ => panic!("the wire must be packed"),
    }
    assert_eq!(patch.model.nodes[1].outputs[0].shape, dims(&[12]));
    match &patch.model.nodes[2].op {
        Op::MatMatMulUnaryFinite(op) => {
            assert_eq!(op.bc_c_shape, vec![2, 4]);
            assert_eq!(op.packed_as.len(), 1);
            assert!(op.c_prefix_dim_and_stride.is_none());
            assert!(matches!(op.mmm.b_storage, Storage::Packed));
            assert!(matches!(op.mmm.c_storage, Storage::Strides { row: 4, col: 1 }));
            assert_eq!((op.mmm.m, op.mmm.k, op.mmm.n), (2, 3, 4));
        }
        _ => panic!("the product must be lowered"),
    }
    assert_eq!(patch.model.nodes[2].inputs, vec![OutletId::new(1, 0)]);
    assert_eq!(patch.shunt_outlet_by, vec![(OutletId::new(1, 0), OutletId::new(2, 0))]);
}

#[test]
fn codegen_with_one_column_uses_vector_mode() {
    let a = f32_tensor(&[2, 3], &[0.0, 1.0, 2.0, 3.0, 4.0, 5.0]);
    let (model, unary) = unary_model(&a, &[3, 1], &[2, 1]);
    let request = unary.codegen(&model, model.node(1)).unwrap().unwrap();
    assert_eq!(request.geo.n, 1);
    let patch = new_mat_mul_unary_finite(
        &model,
        model.node(1),
        &a,
        &request.b_shape,
        false,
        false,
        false,
        None,
        request.kind,
        Packing { len: 8, alignment: 32 },
        Packing { len: 4, alignment: 32 },
        vec![f32_tensor(&[8], &[0.0; 8])],
    )
    .unwrap();
    // no packing node: the kernel reads the wire as a vector
    assert_eq!(patch.model.nodes.len(), 2);
    match &patch.model.nodes[1].op {
        Op::MatMatMulUnaryFinite(op) => {
            assert!(matches!(op.mmm.b_storage, Storage::VecStride(1)));
            assert!(matches!(op.mmm.c_storage, Storage::VecStride(1)));
        }
        _ => panic!("the product must be lowered"),
    }
}

#[test]
fn codegen_with_a_prefix_keeps_its_dims_and_strides() {
    let a = f32_tensor(&[2, 2, 3], &[0.0; 12]);
    let (model, unary) = unary_model(&a, &[2, 3, 4], &[2, 2, 4]);
    let request = unary.codegen(&model, model.node(1)).unwrap().unwrap();
    let packed = vec![f32_tensor(&[8], &[0.0; 8]), f32_tensor(&[8], &[0.0; 8])];
    let patch = new_mat_mul_unary_finite(
        &model, model.node(1), &a, &request.b_shape, false, false, false, None, request.kind,
        Packing { len: 8, alignment: 32 }, Packing { len: 12, alignment: 32 }, packed,
    )
    .unwrap();
    match &patch.model.nodes[2].op {
        Op::MatMatMulUnaryFinite(op) => {
            assert_eq!(op.c_prefix_dim_and_stride, Some((vec![2], vec![8])));
            assert_eq!(op.packed_as_shape, vec![2]);
        }
        _ => panic!("the product must be lowered"),
    }
    // one packed tensor too few
    let r = new_mat_mul_unary_finite(
        &model, model.node(1), &a, &request.b_shape, false, false, false, None, request.kind,
        Packing { len: 8, alignment: 32 }, Packing { len: 12, alignment: 32 },
        vec![f32_tensor(&[8], &[0.0; 8])],
    );
    assert_eq!(r.unwrap_err(), Error::Size);
}

#[test]
fn codegen_waits_for_a_finite_shape() {
    let a = f32_tensor(&[2, 3], &[0.0; 6]);
    let mut model: TypedModel = Model::new();
    let shape = vec![TDim::stream(), dims(&[3])[0], dims(&[4])[0]];
    let b = model.add_source("b".to_string(), TypedFact::dt_shape(DatumType::F32, &shape));
    let unary = MatMulUnary::new(a.dup(), false, false, false, None);
    model
        .wire_node("product".to_string(), Op::MatMulUnary(unary.dup()), &vec![b], vec![fact(&[2, 4])])
        .unwrap();
    assert!(unary.codegen(&model, model.node(1)).unwrap().is_none());
    // no kernel multiplies 32-bit integers
    let a = Tensor::new(DatumType::I32, vec![2, 3], vec![0; 24]).unwrap();
    let (model, unary) = unary_model(&a, &[3, 4], &[2, 4]);
    assert_eq!(unary.codegen(&model, model.node(1)).unwrap_err(), Error::Unsupported);
}

#[test]
fn unary_invariants_follow_the_prefix_of_the_constant() {
    let a = f32_tensor(&[5, 2, 3], &[0.0; 30]);
    let (model, unary) = unary_model(&a, &[5, 3, 4], &[5, 2, 4]);
    let infos = unary.invariants(&model, model.node(1)).unwrap();
    // one prefix axis with the period of the constant, and the last axis
    assert_eq!(infos.len(), 2);
    assert_eq!((infos[0].inputs.clone(), infos[0].period), (vec![Some(0)], 5));
    assert_eq!((infos[1].inputs.clone(), infos[1].period), (vec![Some(2)], 1));
    // a result of another rank passes nothing through
    let a = f32_tensor(&[3], &[0.0; 3]);
    let (model, unary) = unary_model(&a, &[3, 4], &[4]);
    assert!(unary.invariants(&model, model.node(1)).unwrap().is_empty());
}

#[test]
fn unary_answers_the_removal_of_a_prefix_axis() {
    // constant and wire have one rank: the constant loses the axis too
    let a = f32_tensor(&[1, 2, 3], &[0.0; 6]);
    let (model, unary) = unary_model(&a, &[1, 3, 5], &[1, 2, 5]);
    let change = AxisOp::Rm(0);
    let c = unary.change_axes(&model, model.node(1), InOut::In(0), &change).unwrap().unwrap();
    assert_eq!(c.wire_changes, vec![(InOut::Out(0), AxisOp::Rm(0)), (InOut::In(0), AxisOp::Rm(0))]);
    match c.substitute_op {
        Some(Op::MatMulUnary(op)) => {
            assert_eq!(op.a.shape, vec![2, 3]);
            // the product of the shorter constant and the shorter wire
            let wire = fact(&[3, 5]);
            assert_eq!(op.output_facts(&vec![&wire]).unwrap()[0].shape, dims(&[2, 5]));
        }
        _ => panic!("the constant must lose the axis"),
    }
    // a matrix axis cannot be removed
    let refused = unary.change_axes(&model, model.node(1), InOut::In(0), &AxisOp::Rm(1)).unwrap();
    assert!(refused.is_none());
    // the constant loses the axis that is aligned with the axis of the wire
    let a = f32_tensor(&[1, 2, 3], &[0.0; 6]);
    let (model, unary) = unary_model(&a, &[7, 1, 3, 4], &[7, 1, 2, 4]);
    let c = unary.change_axes(&model, model.node(1), InOut::In(0), &AxisOp::Rm(1)).unwrap().unwrap();
    match c.substitute_op {
        Some(Op::MatMulUnary(op)) => assert_eq!(op.a.shape, vec![2, 3]),
        _ => panic!("the constant must lose the axis"),
    }
    // an axis in front of every axis of the constant leaves the constant as it is
    let c = unary.change_axes(&model, model.node(1), InOut::In(0), &AxisOp::Rm(0)).unwrap().unwrap();
    assert!(c.substitute_op.is_none());
    // a constant that is longer than one along the axis cannot follow
    let a = f32_tensor(&[2, 2, 3], &[0.0; 12]);
    let (model, unary) = unary_model(&a, &[1, 3, 4], &[2, 2, 4]);
    assert!(unary.change_axes(&model, model.node(1), InOut::In(0), &AxisOp::Rm(0)).unwrap().is_none());
}

#[test]
fn unary_pulsifies_unless_the_stream_is_summed_over() {
    let a = f32_tensor(&[2, 3], &[0.0; 6]);
    let (source, unary) = unary_model(&a, &[8, 3, 4], &[8, 2, 4]);
    let pulsed = |axis: usize| PulsedFact {
        datum_type: DatumType::F32,
        shape: vec![8, 3, 4],
        axis,
        dim: TDim::stream(),
        delay: 0,
    };
    let mut target: PulsedModel = Model::new();
    let input = target.add_source("b".to_string(), pulsed(0));
    let mapping = vec![(OutletId::new(0, 0), input)];
    let wires = unary.pulsify(&source, source.node(1), &mut target, &mapping, 8).unwrap();
    assert_eq!(wires, vec![OutletId::new(1, 0)]);
    assert_eq!(target.nodes[1].outputs[0].shape, vec![8, 2, 4]);
    assert_eq!(target.nodes[1].outputs[0].axis, 0);
    // the stream runs along the axis that the product sums over
    let mut target: PulsedModel = Model::new();
    let input = target.add_source("b".to_string(), pulsed(1));
    let mapping = vec![(OutletId::new(0, 0), input)];
    assert_eq!(
        unary.pulsify(&source, source.node(1), &mut target, &mapping, 8).unwrap_err(),
        Error::PulseOnReducedAxis
    );
    assert_eq!(target.nodes.len(), 1);
}

#[test]
fn unary_fed_by_a_concatenation_is_split() {
    // The wire is the concatenation, along its last axis, of an input of
    // length 2 and a constant of length 1; the product sums over that axis.
    let mut model: TypedModel = Model::new();
    let x = model.add_source("x".to_string(), fact(&[4, 2]));
    let konst = f32_tensor(&[4, 1], &[9.0, 8.0, 7.0, 6.0]);
    let concat = NormConcat {
        axis: 1,
        slices: vec![NormConcatSlice::Var, NormConcatSlice::Const(konst.dup())],
    };
    let cat = model
        .wire_node("cat".to_string(), Op::NormConcat(concat), &vec![x], vec![fact(&[4, 3])])
        .unwrap()[0];
    let a = f32_tensor(&[2, 3], &[0.0, 1.0, 2.0, 3.0, 4.0, 5.0]);
    let unary = MatMulUnary::new(a, false, true, false, None);
    model
        .wire_node("product".to_string(), Op::MatMulUnary(unary.dup()), &vec![cat], vec![fact(&[2, 4])])
        .unwrap();
    let patch = unary.declutter(&model, model.node(2)).unwrap().unwrap();
    let names: Vec<&str> = patch.model.nodes.iter().map(|n| n.name.as_str()).collect();
    assert_eq!(
        names,
        vec!["incoming-0-0", "product-k-0-2", "product-const-1", "product-k-2-3", "product-k-add-0"]
    );
    match &patch.model.nodes[1].op {
        Op::MatMulUnary(part) => {
            assert_eq!(part.a.shape, vec![2, 2]);
            assert_eq!(f32_values(&part.a), vec![0.0, 1.0, 3.0, 4.0]);
        }
        _ => panic!("the first part must be a product"),
    }
    match &patch.model.nodes[3].op {
        Op::MatMulUnary(part) => {
            assert_eq!(part.a.shape, vec![2, 1]);
            assert_eq!(f32_values(&part.a), vec![2.0, 5.0]);
        }
        _ => panic!("the second part must be a product"),
    }
    assert!(matches!(patch.model.nodes[4].op, Op::Add));
    assert_eq!(patch.model.nodes[4].inputs, vec![OutletId::new(1, 0), OutletId::new(3, 0)]);
    assert_eq!(patch.model.nodes[4].outputs[0].shape, dims(&[2, 4]));
    assert_eq!(patch.shunt_outlet_by, vec![(OutletId::new(2, 0), OutletId::new(4, 0))]);
    // a product that is not transposed does not sum over the last axis of the wire
    let other = MatMulUnary::new(f32_tensor(&[2, 4], &[0.0; 8]), false, false, false, None);
    assert!(other.declutter(&model, model.node(2)).unwrap().is_none());
}

#[test]
fn unary_fed_by_a_concatenation_of_rows_is_split() {
    // The wire is not transposed: the product sums over its axis before the
    // last, along which an input of length 2 and a constant of length 1 are
    // concatenated.
    let mut model: TypedModel = Model::new();
    let x = model.add_source("x".to_string(), fact(&[2, 4]));
    let konst = f32_tensor(&[1, 4], &[9.0, 8.0, 7.0, 6.0]);
    let concat = NormConcat {
        axis: 0,
        slices: vec![NormConcatSlice::Var, NormConcatSlice::Const(konst.dup())],
    };
    let cat = model
        .wire_node("cat".to_string(), Op::NormConcat(concat), &vec![x], vec![fact(&[3, 4])])
        .unwrap()[0];
    let a = f32_tensor(&[2, 3], &[0.0, 1.0, 2.0, 3.0, 4.0, 5.0]);
    let unary = MatMulUnary::new(a, false, false, false, None);
    model
        .wire_node("product".to_string(), Op::MatMulUnary(unary.dup()), &vec![cat], vec![fact(&[2, 4])])
        .unwrap();
    let patch = unary.declutter(&model, model.node(2)).unwrap().unwrap();
    let names: Vec<&str> = patch.model.nodes.iter().map(|n| n.name.as_str()).collect();
    assert_eq!(
        names,
        vec!["incoming-0-0", "product-k-0-2", "product-const-1", "product-k-2-3", "product-k-add-0"]
    );
    match &patch.model.nodes[3].op {
        Op::MatMulUnary(part) => assert_eq!(f32_values(&part.a), vec![2.0, 5.0]),
        _ => panic!("the second part must be a product"),
    }
    assert_eq!(patch.model.nodes[1].outputs[0].shape, dims(&[2, 4]));
    assert_eq!(patch.model.nodes[4].outputs[0].shape, dims(&[2, 4]));
    assert_eq!(patch.shunt_outlet_by, vec![(OutletId::new(2, 0), OutletId::new(4, 0))]);
}

#[test]
fn packing_of_the_constant_is_planned() {
    let plan = a_pack_plan(&vec![2, 1, 3, 4], &vec![5, 4, 6], false, false, false).unwrap();
    assert_eq!(plan.tile_len, 12);
    assert_eq!((plan.row_stride, plan.col_stride), (4, 1));
    assert_eq!(plan.offsets, vec![0, 12]);
    let plan = a_pack_plan(&vec![3, 4], &vec![3, 6], true, false, false).unwrap();
    assert_eq!((plan.row_stride, plan.col_stride), (1, 4));
    assert_eq!(plan.offsets, vec![0]);
    assert_eq!(
        a_pack_plan(&vec![3, 4], &vec![3, 6], false, false, false).unwrap_err(),
        Error::InconsistentMatMul
    );
}

#[test]
fn packed_buffers_must_fit_the_kernel() {
    let a = f32_tensor(&[2, 3], &[0.0; 6]);
    let (model, unary) = unary_model(&a, &[3, 4], &[2, 4]);
    let request = unary.codegen(&model, model.node(1)).unwrap().unwrap();
    let lower = |packed: Vec<Tensor>| {
        new_mat_mul_unary_finite(
            &model, model.node(1), &a, &request.b_shape, false, false, false, None, request.kind,
            Packing { len: 8, alignment: 32 }, Packing { len: 12, alignment: 32 }, packed,
        )
    };
    assert!(lower(vec![f32_tensor(&[8], &[0.0; 8])]).is_ok());
    assert_eq!(lower(vec![f32_tensor(&[6], &[0.0; 6])]).unwrap_err(), Error::Size);
    assert_eq!(lower(vec![f32_tensor(&[2, 4], &[0.0; 8])]).unwrap_err(), Error::Size);
    let bytes = Tensor::new(DatumType::U8, vec![8], vec![0; 8]).unwrap();
    assert_eq!(lower(vec![bytes]).unwrap_err(), Error::TypeMismatch);
}

#[test]
fn unary_slices_its_rows() {
    let a = f32_tensor(&[4, 3], &(0..12).map(|v| v as f32).collect::<Vec<_>>());
    let mut model: TypedModel = Model::new();
    let b = model.add_source("b".to_string(), fact(&[3, 5]));
    let unary = MatMulUnary::new(a, false, false, true, None);
    model
        .wire_node("product".to_string(), Op::MatMulUnary(unary.dup()), &vec![b], vec![fact(&[5, 4])])
        .unwrap();
    let mut patch = TypedModelPatch::new();
    // the result is transposed: its last axis holds the rows
    let wire = unary.slice_output(&model, model.node(1), &mut patch, 0, 1, 1, 3).unwrap();
    assert_eq!(wire, Some(OutletId::new(1, 0)));
    assert_eq!(patch.model.nodes[1].name, "product-sliced-m-1-3");
    match &patch.model.nodes[1].op {
        Op::MatMulUnary(part) => {
            assert_eq!(part.a.shape, vec![2, 3]);
            assert_eq!(f32_values(&part.a), vec![3.0, 4.0, 5.0, 6.0, 7.0, 8.0]);
        }
        _ => panic!("the slice must be a product"),
    }
    assert_eq!(patch.model.nodes[1].outputs[0].shape, dims(&[5, 2]));
    // another axis is not sliced
    let mut patch = TypedModelPatch::new();
    assert_eq!(unary.slice_output(&model, model.node(1), &mut patch, 0, 0, 1, 3).unwrap(), None);
    assert!(patch.model.nodes.is_empty());
    // rows that the constant does not have
    assert_eq!(
        unary.slice_output(&model, model.node(1), &mut patch, 0, 1, 3, 9).unwrap_err(),
        Error::Range
    );
}

#[test]
fn tensors_are_sliced_and_stripped() {
    let t = f32_tensor(&[2, 3], &[0.0, 1.0, 2.0, 3.0, 4.0, 5.0]);
    let s = t.slice(1, 1, 3).unwrap();
    assert_eq!(s.shape, vec![2, 2]);
    assert_eq!(f32_values(&s), vec![1.0, 2.0, 4.0, 5.0]);
    let s = t.slice(0, 1, 2).unwrap();
    assert_eq!(s.shape, vec![1, 3]);
    assert_eq!(f32_values(&s), vec![3.0, 4.0, 5.0]);
    assert_eq!(t.slice(2, 0, 1).unwrap_err(), Error::AxisOutOfRange);
    assert_eq!(t.slice(1, 2, 1).unwrap_err(), Error::Range);
    let mut s = s;
    s.remove_axis(0).unwrap();
    assert_eq!(s.shape, vec![3]);
    assert_eq!(s.remove_axis(0).unwrap_err(), Error::Size);
    assert_eq!(
        Tensor::new(DatumType::F32, vec![2, 3], vec![0; 23]).unwrap_err(),
        Error::Size
    );
}

#[test]
fn products_have_their_registry_names() {
    assert_eq!(MatMul::default().name(), "MatMul");
    let a = f32_tensor(&[1, 1], &[0.0]);
    assert_eq!(MatMulUnary::new(a, false, false, false, None).name(), "MatMulUnary");
}
