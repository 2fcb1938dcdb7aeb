use tract_core::add_dims::AddDims;
use tract_core::axis::{AxisOp, InOut};
use tract_core::datum::DatumType;
use tract_core::dim::TDim;
use tract_core::error::Error;
use tract_core::fact::{InferenceFact, PulsedFact, TypedFact};
use tract_core::model::{Model, Op, OutletId, TypedModel};
use tract_core::pulse::PulsedModel;
use tract_core::rm_dims::RmDims;
use tract_core::tensor::Tensor;

fn dims(values: &[usize]) -> Vec<TDim> {
    values.iter().map(|v| TDim { slope: 0, offset: *v as i128 }).collect()
}

fn known(values: &[usize]) -> InferenceFact {
    InferenceFact {
        datum_type: Some(DatumType::F32),
        shape: Some(dims(values).into_iter().map(Some).collect()),
    }
}

fn unknown() -> InferenceFact {
    InferenceFact { datum_type: None, shape: None }
}

fn f32_tensor(shape: &[usize], values: &[f32]) -> Tensor {
    let data: Vec<u8> = values.iter().flat_map(|v| v.to_ne_bytes()).collect();
    Tensor::new(DatumType::F32, shape.to_vec(), data).unwrap()
}

/// A model with one source of the given shape and one node with `op` behind it.
fn model_with(op: Op, input: &[usize], output: &[usize]) -> TypedModel {
    let mut model: TypedModel = Model::new();
    let source = model.add_source(
        "input".to_string(),
        TypedFact::dt_shape(DatumType::F32, &dims(input)),
    );
    model
        .wire_node(
            "op".to_string(),
            op,
            &vec![source],
            vec![TypedFact::dt_shape(DatumType::F32, &dims(output))],
        )
        .unwrap();
    model
}

#[test]
fn add_dims_puts_unit_axes_in() {
    let op = AddDims::new(vec![0, 2]);
    assert_eq!(op.compute_shape(&vec![4usize, 5]), vec![1, 4, 1, 5]);
    assert_eq!(op.compute_shape(&dims(&[4, 5])), dims(&[1, 4, 1, 5]));
}

#[test]
fn add_dims_output_fact_has_the_output_shape() {
    let op = AddDims::new(vec![0, 2]);
    let input = TypedFact::dt_shape(DatumType::I32, &dims(&[4, 5]));
    let facts = op.output_facts(&vec![&input]).unwrap();
    assert_eq!(facts.len(), 1);
    assert_eq!(facts[0].datum_type, DatumType::I32);
    assert_eq!(facts[0].shape, dims(&[1, 4, 1, 5]));
    assert!(facts[0].konst.is_none());
}

#[test]
fn add_dims_rejects_an_axis_beyond_the_shape() {
    let op = AddDims::new(vec![4]);
    assert!(!op.admits_rank(2));
    let input = TypedFact::dt_shape(DatumType::F32, &dims(&[4, 5]));
    assert_eq!(op.output_facts(&vec![&input]).unwrap_err(), Error::AxisOutOfRange);
    let t = f32_tensor(&[2], &[1.0, 2.0]);
    assert_eq!(op.eval(vec![t]).unwrap_err(), Error::AxisOutOfRange);
}

#[test]
fn add_dims_without_axes_is_elided() {
    let model = model_with(Op::AddDims(AddDims::new(vec![])), &[4, 5], &[4, 5]);
    let node = model.node(1);
    let patch = AddDims::new(vec![]).declutter(&model, node).unwrap().unwrap();
    // The input is tapped and takes the place of the output of the node.
    assert_eq!(patch.model.nodes.len(), 1);
    assert_eq!(patch.model.nodes[0].name, "incoming-0-0");
    assert_eq!(patch.incoming, vec![(OutletId::new(0, 0), OutletId::new(0, 0))]);
    assert_eq!(patch.shunt_outlet_by, vec![(OutletId::new(1, 0), OutletId::new(0, 0))]);
}

#[test]
fn add_dims_with_axes_stays() {
    let model = model_with(Op::AddDims(AddDims::new(vec![0])), &[4, 5], &[1, 4, 5]);
    let node = model.node(1);
    assert!(AddDims::new(vec![0]).declutter(&model, node).unwrap().is_none());
}

#[test]
fn add_dims_eval_keeps_the_elements() {
    let op = AddDims::new(vec![0, 2]);
    let t = f32_tensor(&[2, 3], &[0.0, 1.0, 2.0, 3.0, 4.0, 5.0]);
    let expected = t.data.clone();
    let out = op.eval(vec![t]).unwrap();
    assert_eq!(out.len(), 1);
    assert_eq!(out[0].shape, vec![1, 2, 1, 3]);
    assert_eq!(out[0].data, expected);
    assert_eq!(op.eval(vec![]).unwrap_err(), Error::Arity);
}

#[test]
fn add_dims_invariants_skip_the_added_axes() {
    let model = model_with(Op::AddDims(AddDims::new(vec![0, 2])), &[4, 5], &[1, 4, 1, 5]);
    let infos = AddDims::new(vec![0, 2]).invariants(&model, model.node(1)).unwrap();
    assert_eq!(infos.len(), 2);
    assert_eq!(infos[0].inputs, vec![Some(0)]);
    assert_eq!(infos[0].outputs, vec![Some(1)]);
    assert_eq!(infos[1].inputs, vec![Some(1)]);
    assert_eq!(infos[1].outputs, vec![Some(3)]);
    assert!(infos.iter().all(|i| i.period == 1 && i.disposable));
}

#[test]
fn add_dims_suggests_to_remove_what_it_adds() {
    let changes = AddDims::new(vec![0, 2]).suggested_axis_changes().unwrap();
    assert_eq!(changes, vec![(InOut::Out(0), AxisOp::Rm(0)), (InOut::Out(1), AxisOp::Rm(2))]);
}

#[test]
fn add_dims_absorbs_the_removal_of_an_added_axis() {
    let model = model_with(Op::AddDims(AddDims::new(vec![0, 2])), &[4, 5], &[1, 4, 1, 5]);
    let op = AddDims::new(vec![0, 2]);
    let c = op.change_axes(&model, model.node(1), InOut::Out(0), &AxisOp::Rm(0)).unwrap().unwrap();
    assert!(c.wire_changes.is_empty());
    match c.substitute_op {
        Some(Op::AddDims(new_op)) => {
            assert_eq!(new_op.axes, vec![1]);
            // the new operator gives the old output without the axis
            assert_eq!(new_op.compute_shape(&vec![4usize, 5]), vec![4, 1, 5]);
        }
        _ => panic!("the operator must be replaced by an AddDims"),
    }
}

#[test]
fn add_dims_hands_the_removal_of_an_input_axis_on() {
    let model = model_with(Op::AddDims(AddDims::new(vec![0, 2])), &[4, 5], &[1, 4, 1, 5]);
    let op = AddDims::new(vec![0, 2]);
    // output axis 3 is input axis 1
    let c = op.change_axes(&model, model.node(1), InOut::Out(0), &AxisOp::Rm(3)).unwrap().unwrap();
    assert_eq!(c.wire_changes, vec![(InOut::In(0), AxisOp::Rm(1))]);
    match c.substitute_op {
        Some(Op::AddDims(new_op)) => {
            assert_eq!(new_op.axes, vec![0, 2]);
            assert_eq!(new_op.compute_shape(&vec![4usize]), vec![1, 4, 1]);
        }
        _ => panic!("the operator must be replaced by an AddDims"),
    }
    // an input that loses an axis: the output loses the axis at its place there
    let c = op.change_axes(&model, model.node(1), InOut::In(0), &AxisOp::Rm(1)).unwrap().unwrap();
    assert_eq!(c.wire_changes, vec![(InOut::Out(0), AxisOp::Rm(3))]);
    match c.substitute_op {
        Some(Op::AddDims(new_op)) => {
            assert_eq!(new_op.axes, vec![0, 2]);
            assert_eq!(new_op.compute_shape(&vec![4usize]), vec![1, 4, 1]);
        }
        _ => panic!("the operator must be replaced by an AddDims"),
    }
}

#[test]
fn add_dims_follows_an_input_axis_behind_an_added_one() {
    let op = AddDims::new(vec![0]);
    let model = model_with(Op::AddDims(AddDims::new(vec![0])), &[1, 5], &[1, 1, 5]);
    let c = op.change_axes(&model, model.node(1), InOut::In(0), &AxisOp::Rm(0)).unwrap().unwrap();
    // input axis 0 is output axis 1; the added axis stays
    assert_eq!(c.wire_changes, vec![(InOut::Out(0), AxisOp::Rm(1))]);
    match c.substitute_op {
        Some(Op::AddDims(new_op)) => {
            assert_eq!(new_op.axes, vec![0]);
            assert_eq!(new_op.compute_shape(&vec![5usize]), vec![1, 5]);
        }
        _ => panic!("the operator must be replaced by an AddDims"),
    }
    // axes that do not rise: the second axis goes in before the first
    let op = AddDims::new(vec![1, 0]);
    assert_eq!(op.compute_shape(&vec![7usize, 8]), vec![1, 7, 1, 8]);
    let c = op.change_axes(&model, model.node(1), InOut::In(0), &AxisOp::Rm(0)).unwrap().unwrap();
    assert_eq!(c.wire_changes, vec![(InOut::Out(0), AxisOp::Rm(1))]);
    match c.substitute_op {
        Some(Op::AddDims(new_op)) => {
            assert_eq!(new_op.axes, vec![0, 0]);
            assert_eq!(new_op.compute_shape(&vec![8usize]), vec![1, 1, 8]);
        }
        _ => panic!("the operator must be replaced by an AddDims"),
    }
}

#[test]
fn add_dims_moves_the_streaming_axis_up() {
    let op = AddDims::new(vec![0, 2]);
    let input = PulsedFact {
        datum_type: DatumType::F32,
        shape: vec![4, 5],
        axis: 1,
        dim: TDim { slope: 1, offset: 0 },
        delay: 3,
    };
    let facts = op.pulsed_output_facts(&vec![&input]).unwrap();
    assert_eq!(facts[0].shape, vec![1, 4, 1, 5]);
    // one axis is added at or before axis 1
    assert_eq!(facts[0].axis, 2);
    assert_eq!(facts[0].delay, 3);
    assert_eq!(facts[0].dim, TDim { slope: 1, offset: 0 });
}

#[test]
fn add_dims_pulsifies_behind_the_mapped_input() {
    let source = model_with(Op::AddDims(AddDims::new(vec![0])), &[4, 5], &[1, 4, 5]);
    let mut target: PulsedModel = Model::new();
    let input = target.add_source(
        "input".to_string(),
        PulsedFact {
            datum_type: DatumType::F32,
            shape: vec![4, 5],
            axis: 0,
            dim: TDim { slope: 1, offset: 0 },
            delay: 0,
        },
    );
    let mapping = vec![(OutletId::new(0, 0), input)];
    let op = AddDims::new(vec![0]);
    let wires = op.pulsify(&source, source.node(1), &mut target, &mapping, 4).unwrap();
    assert_eq!(wires, vec![OutletId::new(1, 0)]);
    assert_eq!(target.nodes.len(), 2);
    assert_eq!(target.nodes[1].name, "op");
    assert_eq!(target.nodes[1].inputs, vec![input]);
    assert_eq!(target.nodes[1].outputs[0].shape, vec![1, 4, 5]);
    assert_eq!(target.nodes[1].outputs[0].axis, 1);
    // a mapping that leads nowhere leaves the target as it was
    let nowhere = vec![(OutletId::new(0, 0), OutletId::new(7, 0))];
    assert_eq!(
        op.pulsify(&source, source.node(1), &mut target, &nowhere, 4).unwrap_err(),
        Error::Outlet
    );
    assert_eq!(target.nodes.len(), 2);
}

#[test]
fn add_dims_rules_infer_the_output_shape() {
    let op = AddDims::new(vec![0, 2]);
    let (ins, outs) = op.rules(&vec![known(&[4, 5])], &vec![unknown()]).unwrap();
    assert_eq!(ins[0].shape, known(&[4, 5]).shape);
    assert_eq!(outs[0].datum_type, Some(DatumType::F32));
    assert_eq!(outs[0].shape, known(&[1, 4, 1, 5]).shape);
}

#[test]
fn add_dims_rules_infer_the_input_rank() {
    let op = AddDims::new(vec![0, 2]);
    let output = InferenceFact { datum_type: None, shape: Some(vec![None, None, None]) };
    let (ins, outs) = op.rules(&vec![unknown()], &vec![output]).unwrap();
    assert_eq!(ins[0].shape, Some(vec![None]));
    assert_eq!(outs[0].shape, Some(vec![None, None, None]));
    // an output with fewer axes than are added is a contradiction
    let short = InferenceFact { datum_type: None, shape: Some(vec![None]) };
    assert_eq!(op.rules(&vec![unknown()], &vec![short]).unwrap_err(), Error::RankMismatch);
}

#[test]
fn add_dims_rules_find_contradictions() {
    let op = AddDims::new(vec![0]);
    let other_type = InferenceFact { datum_type: Some(DatumType::I8), shape: None };
    assert_eq!(
        op.rules(&vec![known(&[4])], &vec![other_type]).unwrap_err(),
        Error::TypeMismatch
    );
    assert_eq!(
        op.rules(&vec![known(&[4])], &vec![known(&[1, 5])]).unwrap_err(),
        Error::DimMismatch
    );
    assert_eq!(op.rules(&vec![known(&[4])], &vec![]).unwrap_err(), Error::Arity);
}

#[test]
fn rm_dims_takes_axes_out() {
    let op = RmDims::new(vec![1]);
    assert_eq!(op.compute_shape(&vec![3usize, 1, 2]), vec![3, 2]);
    let input = TypedFact::dt_shape(DatumType::F32, &dims(&[3, 1, 2]));
    let facts = op.output_facts(&vec![&input]).unwrap();
    assert_eq!(facts[0].shape, dims(&[3, 2]));
}

#[test]
fn rm_dims_inference_fails_on_an_axis_longer_than_one() {
    let op = RmDims::new(vec![1]);
    let (_, outs) = op.rules(&vec![known(&[3, 1, 2])], &vec![unknown()]).unwrap();
    assert_eq!(outs[0].shape, known(&[3, 2]).shape);
    assert_eq!(
        op.rules(&vec![known(&[3, 4, 2])], &vec![unknown()]).unwrap_err(),
        Error::DimMismatch
    );
}

#[test]
fn rm_dims_rules_make_the_removed_axes_one() {
    let op = RmDims::new(vec![1]);
    let input = InferenceFact { datum_type: None, shape: Some(vec![None, None, None]) };
    let (ins, outs) = op.rules(&vec![input], &vec![unknown()]).unwrap();
    assert_eq!(ins[0].shape, Some(vec![None, Some(TDim { slope: 0, offset: 1 }), None]));
    assert_eq!(outs[0].shape, Some(vec![None, None]));
    let short = InferenceFact { datum_type: None, shape: Some(vec![None]) };
    assert_eq!(op.rules(&vec![short], &vec![unknown()]).unwrap_err(), Error::AxisOutOfRange);
}

#[test]
fn rm_dims_eval_needs_axes_of_length_one() {
    let op = RmDims::new(vec![1]);
    let t = f32_tensor(&[3, 1, 2], &[0.0, 1.0, 2.0, 3.0, 4.0, 5.0]);
    let expected = t.data.clone();
    let out = op.eval(vec![t]).unwrap();
    assert_eq!(out[0].shape, vec![3, 2]);
    assert_eq!(out[0].data, expected);
    let t = f32_tensor(&[3, 2, 1], &[0.0, 1.0, 2.0, 3.0, 4.0, 5.0]);
    assert_eq!(op.eval_t(t).unwrap_err(), Error::Size);
}

#[test]
fn rm_dims_invariants_follow_the_kept_input_axes() {
    let model = model_with(Op::RmDims(RmDims::new(vec![1])), &[3, 1, 2], &[3, 2]);
    let infos = RmDims::new(vec![1]).invariants(&model, model.node(1)).unwrap();
    assert_eq!(infos.len(), 2);
    assert_eq!((infos[0].inputs.clone(), infos[0].outputs.clone()), (vec![Some(0)], vec![Some(0)]));
    assert_eq!((infos[1].inputs.clone(), infos[1].outputs.clone()), (vec![Some(2)], vec![Some(1)]));
}

#[test]
fn rm_dims_answers_axis_changes() {
    let model = model_with(Op::RmDims(RmDims::new(vec![1])), &[3, 1, 2], &[3, 2]);
    let op = RmDims::new(vec![1]);
    // the input loses the axis that the operator takes out: absorbed
    let c = op.change_axes(&model, model.node(1), InOut::In(0), &AxisOp::Rm(1)).unwrap().unwrap();
    assert!(c.wire_changes.is_empty());
    match c.substitute_op {
        Some(Op::RmDims(new_op)) => assert!(new_op.axes.is_empty()),
        _ => panic!("the operator must be replaced by a RmDims"),
    }
    // the input loses axis 2, which is output axis 1
    let c = op.change_axes(&model, model.node(1), InOut::In(0), &AxisOp::Rm(2)).unwrap().unwrap();
    assert_eq!(c.wire_changes, vec![(InOut::Out(0), AxisOp::Rm(1))]);
    match c.substitute_op {
        Some(Op::RmDims(new_op)) => {
            assert_eq!(new_op.axes, vec![1]);
            assert_eq!(new_op.compute_shape(&vec![3usize, 1]), vec![3]);
        }
        _ => panic!("the operator must be replaced by a RmDims"),
    }
}

#[test]
fn rm_dims_follows_an_output_axis_back() {
    let model = model_with(Op::RmDims(RmDims::new(vec![0])), &[1, 1, 5], &[1, 5]);
    let op = RmDims::new(vec![0]);
    // output axis 0 is input axis 1; the axis that is taken out stays
    let c = op.change_axes(&model, model.node(1), InOut::Out(0), &AxisOp::Rm(0)).unwrap().unwrap();
    assert_eq!(c.wire_changes, vec![(InOut::In(0), AxisOp::Rm(1))]);
    match c.substitute_op {
        Some(Op::RmDims(new_op)) => {
            assert_eq!(new_op.axes, vec![0]);
            assert_eq!(new_op.compute_shape(&vec![1usize, 5]), vec![5]);
        }
        _ => panic!("the operator must be replaced by a RmDims"),
    }
    // an axis that is named twice is taken out once
    let op = RmDims::new(vec![0, 0]);
    let c = op.change_axes(&model, model.node(1), InOut::In(0), &AxisOp::Rm(2)).unwrap().unwrap();
    assert_eq!(c.wire_changes, vec![(InOut::Out(0), AxisOp::Rm(1))]);
    let c = op.change_axes(&model, model.node(1), InOut::Out(0), &AxisOp::Rm(1)).unwrap().unwrap();
    assert_eq!(c.wire_changes, vec![(InOut::In(0), AxisOp::Rm(2))]);
    assert_eq!(
        op.change_axes(&model, model.node(1), InOut::Out(0), &AxisOp::Rm(usize::MAX)).unwrap_err(),
        Error::Overflow
    );
}

#[test]
fn rm_dims_without_axes_is_elided() {
    let model = model_with(Op::RmDims(RmDims::new(vec![])), &[4, 5], &[4, 5]);
    let patch = RmDims::new(vec![]).declutter(&model, model.node(1)).unwrap().unwrap();
    assert_eq!(patch.shunt_outlet_by, vec![(OutletId::new(1, 0), OutletId::new(0, 0))]);
    assert!(RmDims::new(vec![0]).declutter(&model, model.node(1)).unwrap().is_none());
}

#[test]
fn rm_dims_moves_the_streaming_axis_down() {
    let op = RmDims::new(vec![0]);
    let input = PulsedFact {
        datum_type: DatumType::F32,
        shape: vec![1, 4, 5],
        axis: 1,
        dim: TDim { slope: 1, offset: 0 },
        delay: 0,
    };
    let facts = op.pulsed_output_facts(&vec![&input]).unwrap();
    assert_eq!(facts[0].shape, vec![4, 5]);
    assert_eq!(facts[0].axis, 0);
    // more axes taken out at or before the streaming axis than lie before it
    let op = RmDims::new(vec![0, 0, 0]);
    assert_eq!(op.pulsed_output_facts(&vec![&input]).unwrap_err(), Error::Overflow);
}

#[test]
fn adding_back_what_was_removed_gives_the_tensor_back() {
    let t = f32_tensor(&[1, 3, 1, 2], &[0.0, 1.0, 2.0, 3.0, 4.0, 5.0]);
    let shape = t.shape.clone();
    let data = t.data.clone();
    let removed = RmDims::new(vec![0, 2]).eval(vec![t]).unwrap();
    assert_eq!(removed[0].shape, vec![3, 2]);
    let restored = AddDims::new(vec![0, 2]).eval(removed).unwrap();
    assert_eq!(restored[0].shape, shape);
    assert_eq!(restored[0].data, data);
}

#[test]
fn operators_have_their_registry_names() {
    assert_eq!(AddDims::new(vec![]).name(), "AddDims");
    assert_eq!(RmDims::new(vec![]).name(), "RmDims");
}
