use tract_core::broadcast::{broadcast, pad_left};
use tract_core::concat::{NormConcat, NormConcatSlice};
use tract_core::datum::DatumType;
use tract_core::dim::{checked_product, to_dims, DimLike, TDim, ToDim};
use tract_core::error::Error;
use tract_core::fact::{unify_shape, unify_type, TypedFact};
use tract_core::indices::{all_indices_of, tile_offsets};
use tract_core::matmul::MatMulUnary;
use tract_core::model::{Model, Op, OutletId, TypedModel};
use tract_core::patch::TypedModelPatch;
use tract_core::tensor::Tensor;

fn dim(v: usize) -> TDim {
    TDim { slope: 0, offset: v as i128 }
}

#[test]
fn dims_are_linear_in_the_stream() {
    let s = TDim::stream();
    assert_eq!(s, TDim { slope: 1, offset: 0 });
    assert_eq!(TDim::one(), dim(1));
    assert_eq!(7usize.to_dim(), dim(7));
    // 3 * S + 2
    let d = s.times(&dim(3)).unwrap().plus(&dim(2)).unwrap();
    assert_eq!(d, TDim { slope: 3, offset: 2 });
    assert_eq!(d.times(&dim(4)).unwrap(), TDim { slope: 12, offset: 8 });
    assert_eq!(dim(6).times(&dim(7)).unwrap(), dim(42));
    // the product of two dims that grow with the stream is no dim
    assert_eq!(d.times(&s), None);
    let big = TDim { slope: 0, offset: i128::MAX };
    assert_eq!(big.plus(&dim(1)), None);
    assert_eq!(big.times(&dim(2)), None);
}

#[test]
fn dims_as_integers() {
    assert_eq!(dim(5).to_integer(), Ok(5));
    assert_eq!(dim(5).to_usize(), Ok(5));
    assert_eq!(TDim::stream().to_integer(), Err(Error::Symbolic));
    assert_eq!(TDim::stream().to_usize(), Err(Error::Symbolic));
    assert_eq!(TDim { slope: 0, offset: -1 }.to_usize(), Err(Error::Overflow));
    assert!(dim(5).same(&dim(5)));
    assert!(!dim(5).same(&TDim { slope: 1, offset: 5 }));
    assert_eq!(to_dims(&vec![1usize, 2]), vec![dim(1), dim(2)]);
}

#[test]
fn shapes_broadcast_right_aligned() {
    assert_eq!(broadcast(&vec![2usize, 1, 3], &vec![5usize, 1]), Some(vec![2, 5, 3]));
    assert_eq!(broadcast(&vec![3usize], &vec![4usize, 3]), Some(vec![4, 3]));
    assert_eq!(broadcast(&vec![2usize, 3], &vec![4usize, 3]), None);
    assert_eq!(broadcast(&Vec::<usize>::new(), &vec![4usize]), Some(vec![4]));
    let s = TDim::stream();
    assert_eq!(broadcast(&vec![s, dim(1)], &vec![dim(1), dim(3)]), Some(vec![s, dim(3)]));
    assert_eq!(pad_left(&vec![2usize, 3], 4), vec![1, 1, 2, 3]);
    assert_eq!(pad_left(&vec![2usize, 3], 1), vec![2, 3]);
}

#[test]
fn products_of_shapes() {
    assert_eq!(checked_product(&vec![2, 3, 4]), Some(24));
    assert_eq!(checked_product(&vec![]), Some(1));
    assert_eq!(checked_product(&vec![2, usize::MAX]), None);
}

#[test]
fn indices_come_in_row_major_order() {
    let indices = all_indices_of(&vec![2, 3]).unwrap();
    assert_eq!(
        indices,
        vec![vec![0, 0], vec![0, 1], vec![0, 2], vec![1, 0], vec![1, 1], vec![1, 2]]
    );
    // a shape without axes has one index, a shape with an empty axis none
    assert_eq!(all_indices_of(&vec![]).unwrap(), vec![Vec::<usize>::new()]);
    assert!(all_indices_of(&vec![2, 0, 3]).unwrap().is_empty());
    assert!(all_indices_of(&vec![usize::MAX, 2]).is_none());
}

#[test]
fn tiles_of_a_result_are_stacked() {
    // a result of shape [2, 3, 4, 5]: each tile has twenty elements
    let offsets = tile_offsets(&vec![2, 3, 4, 5], &vec![2, 3]).unwrap();
    assert_eq!(offsets, vec![0, 20, 40, 60, 80, 100]);
    assert_eq!(tile_offsets(&vec![1, 1], &vec![usize::MAX]).unwrap_err(), Error::Overflow);
    assert_eq!(tile_offsets(&vec![2], &vec![2, 3]).unwrap_err(), Error::RankMismatch);
}

#[test]
fn statements_are_merged() {
    assert_eq!(unify_type(None, Some(DatumType::I8)), Ok(Some(DatumType::I8)));
    assert_eq!(unify_type(Some(DatumType::I8), Some(DatumType::U8)), Err(Error::TypeMismatch));
    let a = Some(vec![Some(dim(2)), None]);
    let b = Some(vec![None, Some(dim(3))]);
    assert_eq!(unify_shape(&a, &b), Ok(Some(vec![Some(dim(2)), Some(dim(3))])));
    assert_eq!(unify_shape(&a, &None), Ok(a.clone()));
    assert_eq!(unify_shape(&a, &Some(vec![None])), Err(Error::RankMismatch));
    assert_eq!(unify_shape(&a, &Some(vec![Some(dim(4)), None])), Err(Error::DimMismatch));
}

#[test]
fn concatenation_offsets_add_up() {
    let konst = Tensor::new(DatumType::U8, vec![2, 3], vec![0; 6]).unwrap();
    let concat = NormConcat {
        axis: 1,
        slices: vec![NormConcatSlice::Var, NormConcatSlice::Const(konst), NormConcatSlice::Var],
    };
    let x = TypedFact::dt_shape(DatumType::U8, &vec![dim(2), dim(4)]);
    let y = TypedFact::dt_shape(DatumType::U8, &vec![dim(2), TDim::stream()]);
    let offsets = concat.offsets(&vec![&x, &y]).unwrap();
    assert_eq!(offsets, vec![dim(0), dim(4), dim(7), TDim { slope: 1, offset: 7 }]);
    assert_eq!(concat.offsets(&vec![&x]).unwrap_err(), Error::Arity);
    let flat = TypedFact::dt_shape(DatumType::U8, &vec![dim(2)]);
    assert_eq!(concat.offsets(&vec![&flat, &y]).unwrap_err(), Error::AxisOutOfRange);
}

#[test]
fn a_split_needs_parts_of_known_length() {
    // the concatenation has a part whose length grows with the stream
    let mut model: TypedModel = Model::new();
    let fact = TypedFact::dt_shape(DatumType::F32, &vec![dim(4), TDim::stream()]);
    let x = model.add_source("x".to_string(), fact);
    let concat = NormConcat { axis: 1, slices: vec![NormConcatSlice::Var] };
    let out = TypedFact::dt_shape(DatumType::F32, &vec![dim(4), TDim::stream()]);
    let cat = model.wire_node("cat".to_string(), Op::NormConcat(concat), &vec![x], vec![out]).unwrap()[0];
    let a = Tensor::new(DatumType::F32, vec![2, 3], vec![0; 24]).unwrap();
    let unary = MatMulUnary::new(a, false, true, false, None);
    let out = TypedFact::dt_shape(DatumType::F32, &vec![dim(2), dim(4)]);
    model.wire_node("product".to_string(), Op::MatMulUnary(unary.dup()), &vec![cat], vec![out]).unwrap();
    assert_eq!(unary.declutter(&model, model.node(2)).unwrap_err(), Error::Symbolic);
}

#[test]
fn graphs_grow_node_by_node() {
    let mut model: TypedModel = Model::new();
    let fact = TypedFact::dt_shape(DatumType::F32, &vec![dim(4)]);
    let x = model.add_source("x".to_string(), fact.dup());
    assert_eq!(x, OutletId::new(0, 0));
    assert_eq!(model.inputs, vec![x]);
    assert!(model.has_outlet(x));
    assert!(!model.has_outlet(OutletId::new(0, 1)));
    assert!(!model.has_outlet(OutletId::new(1, 0)));
    assert_eq!(model.outlet_fact(x).unwrap().shape, vec![dim(4)]);
    assert_eq!(model.outlet_fact(OutletId::new(3, 0)).unwrap_err(), Error::Outlet);
    // a node cannot read an outlet that the graph lacks
    let r = model.wire_node("y".to_string(), Op::Add, &vec![x, OutletId::new(9, 0)], vec![fact.dup()]);
    assert_eq!(r.unwrap_err(), Error::Outlet);
    assert_eq!(model.nodes.len(), 1);
    let y = model.wire_node("y".to_string(), Op::Add, &vec![x, x], vec![fact.dup()]).unwrap();
    assert_eq!(y, vec![OutletId::new(1, 0)]);
    assert_eq!(model.nodes[1].id, 1);
    model.set_output_outlets(&y).unwrap();
    assert_eq!(model.outputs, y);
    assert_eq!(model.set_output_outlets(&vec![OutletId::new(5, 0)]).unwrap_err(), Error::Outlet);
    assert_eq!(model.outputs, y);
}

#[test]
fn patches_tap_and_shunt() {
    let mut model: TypedModel = Model::new();
    let fact = TypedFact::dt_shape(DatumType::F32, &vec![dim(4)]);
    let x = model.add_source("x".to_string(), fact.dup());
    let mut patch = TypedModelPatch::new();
    let tap = patch.tap_model(&model, x).unwrap();
    assert_eq!(tap, OutletId::new(0, 0));
    assert_eq!(patch.model.nodes[0].name, "incoming-0-0");
    assert_eq!(patch.model.nodes[0].outputs[0].shape, vec![dim(4)]);
    assert_eq!(patch.tap_model(&model, OutletId::new(12, 3)).unwrap_err(), Error::Outlet);
    let konst = Tensor::new(DatumType::F32, vec![1], vec![0; 4]).unwrap();
    let c = patch.add_const("c".to_string(), konst);
    assert_eq!(c, OutletId::new(1, 0));
    assert!(patch.model.nodes[1].outputs[0].konst.is_some());
    patch.shunt_outside(x, c);
    assert_eq!(patch.shunt_outlet_by, vec![(x, c)]);
    // a name with a number of more than one digit
    let many = OutletId::new(0, 0);
    assert_eq!(many, tap);
    let mut wide: TypedModel = Model::new();
    for i in 0..12 {
        wide.add_source(format!("s{}", i), fact.dup());
    }
    let mut patch = TypedModelPatch::new();
    patch.tap_model(&wide, OutletId::new(11, 0)).unwrap();
    assert_eq!(patch.model.nodes[0].name, "incoming-11-0");
}
