use grad_accum::{GradientTensor, GradientsAccumulator, GradientsParams, Module, ParamId};

fn id(v: u64) -> ParamId {
    ParamId::new(v)
}

fn scalar(x: i64) -> GradientTensor {
    GradientTensor::new(vec![1], vec![x])
}

fn data_of(set: &mut GradientsParams, v: u64) -> Vec<i64> {
    let t = set.remove(&id(v)).expect("gradient expected for this id");
    t.data().clone()
}

#[test]
fn test_accumulate_gradients_one_step() {
    let mut accumulator = GradientsAccumulator::new();
    let layer = Module::new(vec![id(1), id(2)]);
    let mut grads = GradientsParams::new();
    grads.register(id(1), scalar(5));
    grads.register(id(2), scalar(-3));

    accumulator.accumulate(&layer, grads);

    let grads = accumulator.grads();
    assert!(!grads.is_empty())
}

#[test]
fn test_accumulate_gradients_two_steps() {
    let mut accumulator = GradientsAccumulator::new();
    let layer = Module::new(vec![id(1), id(2)]);
    let mut grads_1 = GradientsParams::new();
    grads_1.register(id(1), scalar(4));
    grads_1.register(id(2), scalar(7));
    let mut grads_2 = GradientsParams::new();
    grads_2.register(id(1), scalar(-1));
    grads_2.register(id(2), scalar(2));

    accumulator.accumulate(&layer, grads_1);
    accumulator.accumulate(&layer, grads_2);

    let grads = accumulator.grads();
    assert_eq!(grads.len(), 2)
}

#[test]
fn drain_of_fresh_accumulator_is_empty() {
    let mut accumulator = GradientsAccumulator::new();
    let drained = accumulator.grads();
    assert!(drained.is_empty());
}

#[test]
fn single_step_accumulation_is_pass_through() {
    let mut accumulator = GradientsAccumulator::new();
    let module = Module::new(vec![id(10), id(20), id(30)]);
    let mut grads = GradientsParams::new();
    grads.register(id(10), scalar(1));
    grads.register(id(20), scalar(-2));
    grads.register(id(30), scalar(3));

    accumulator.accumulate(&module, grads);

    let mut drained = accumulator.grads();
    assert_eq!(drained.len(), 3);
    assert_eq!(data_of(&mut drained, 10), vec![1]);
    assert_eq!(data_of(&mut drained, 20), vec![-2]);
    assert_eq!(data_of(&mut drained, 30), vec![3]);
}

#[test]
fn two_step_accumulation_adds_elementwise() {
    let mut accumulator = GradientsAccumulator::new();
    let module = Module::new(vec![id(1), id(2), id(3)]);

    // id 1 in both steps, id 2 only in the first, id 3 only in the second.
    let mut a = GradientsParams::new();
    a.register(id(1), scalar(10));
    a.register(id(2), scalar(20));
    let mut b = GradientsParams::new();
    b.register(id(1), scalar(-4));
    b.register(id(3), scalar(8));

    accumulator.accumulate(&module, a);
    accumulator.accumulate(&module, b);

    let mut drained = accumulator.grads();
    assert_eq!(drained.len(), 3);
    assert_eq!(data_of(&mut drained, 1), vec![6]);
    assert_eq!(data_of(&mut drained, 2), vec![20]);
    assert_eq!(data_of(&mut drained, 3), vec![8]);
}

#[test]
fn drain_resets_state() {
    let mut accumulator = GradientsAccumulator::new();
    let module = Module::new(vec![id(1)]);
    let mut grads = GradientsParams::new();
    grads.register(id(1), scalar(9));
    accumulator.accumulate(&module, grads);

    let first = accumulator.grads();
    assert_eq!(first.len(), 1);

    let second = accumulator.grads();
    assert!(second.is_empty());
    assert_eq!(second.len(), 0);
}

#[test]
fn accumulation_order_does_not_matter() {
    let module = Module::new(vec![id(1), id(2), id(3)]);

    let make_a = || {
        let mut a = GradientsParams::new();
        a.register(id(1), scalar(5));
        a.register(id(2), scalar(7));
        a
    };
    let make_b = || {
        let mut b = GradientsParams::new();
        b.register(id(1), scalar(-2));
        b.register(id(3), scalar(4));
        b
    };

    let mut forward = GradientsAccumulator::new();
    forward.accumulate(&module, make_a());
    forward.accumulate(&module, make_b());
    let mut left = forward.grads();

    let mut backward = GradientsAccumulator::new();
    backward.accumulate(&module, make_b());
    backward.accumulate(&module, make_a());
    let mut right = backward.grads();

    assert_eq!(left.len(), right.len());
    for v in [1u64, 2, 3] {
        assert_eq!(data_of(&mut left, v), data_of(&mut right, v));
    }
}

#[test]
fn drained_count_never_exceeds_distinct_ids_accumulated() {
    let mut accumulator = GradientsAccumulator::new();
    let module = Module::new(vec![id(1), id(2), id(3), id(4)]);

    let mut a = GradientsParams::new();
    a.register(id(1), scalar(1));
    a.register(id(2), scalar(2));
    let mut b = GradientsParams::new();
    b.register(id(2), scalar(3));
    b.register(id(3), scalar(4));

    accumulator.accumulate(&module, a);
    accumulator.accumulate(&module, b);

    // Three distinct ids appeared across the two accumulated sets.
    let drained = accumulator.grads();
    assert!(drained.len() <= 3);
}

#[test]
fn two_parameters_then_partial_second_step() {
    // Two parameters; the second step supplies a gradient only for the first.
    let p1 = id(1);
    let p2 = id(2);
    let module = Module::new(vec![p1, p2]);
    let mut accumulator = GradientsAccumulator::new();

    let mut step_1 = GradientsParams::new();
    step_1.register(p1, scalar(1));
    step_1.register(p2, scalar(2));
    accumulator.accumulate(&module, step_1);

    let mut step_2 = GradientsParams::new();
    step_2.register(p1, scalar(3));
    accumulator.accumulate(&module, step_2);

    let mut drained = accumulator.grads();
    assert_eq!(drained.len(), 2);
    assert_eq!(data_of(&mut drained, 1), vec![4]);
    assert_eq!(data_of(&mut drained, 2), vec![2]);
}

#[test]
fn accumulate_nothing_then_drain_yields_empty() {
    let mut accumulator = GradientsAccumulator::new();
    let drained = accumulator.grads();
    assert!(drained.is_empty());
    assert_eq!(drained.len(), 0);
}

#[test]
fn gradients_for_ids_the_module_never_visits_are_dropped() {
    let mut accumulator = GradientsAccumulator::new();
    let module = Module::new(vec![id(1)]);

    let mut grads = GradientsParams::new();
    grads.register(id(1), scalar(6));
    grads.register(id(99), scalar(123));
    accumulator.accumulate(&module, grads);

    let mut drained = accumulator.grads();
    assert_eq!(drained.len(), 1);
    assert_eq!(data_of(&mut drained, 1), vec![6]);
    assert!(drained.remove(&id(99)).is_none());
}

#[test]
fn multi_element_tensors_sum_pointwise_and_keep_their_shape() {
    let mut accumulator = GradientsAccumulator::new();
    let module = Module::new(vec![id(7)]);

    let mut a = GradientsParams::new();
    a.register(id(7), GradientTensor::new(vec![2, 2], vec![1, 2, 3, 4]));
    let mut b = GradientsParams::new();
    b.register(id(7), GradientTensor::new(vec![2, 2], vec![10, -20, 30, -40]));

    accumulator.accumulate(&module, a);
    accumulator.accumulate(&module, b);

    let mut drained = accumulator.grads();
    let merged = drained.remove(&id(7)).expect("gradient expected");
    assert_eq!(merged.shape().clone(), vec![2, 2]);
    assert_eq!(merged.data().clone(), vec![11, -18, 33, -36]);
}

#[test]
fn default_accumulator_is_empty() {
    let mut accumulator = GradientsAccumulator::default();
    assert!(accumulator.grads().is_empty());
}

#[test]
fn register_replaces_the_previous_gradient_for_an_id() {
    let mut grads = GradientsParams::new();
    grads.register(id(5), scalar(1));
    grads.register(id(5), scalar(2));
    assert_eq!(grads.len(), 1);
    assert_eq!(data_of(&mut grads, 5), vec![2]);
}

#[test]
fn remove_takes_the_entry_out_and_misses_absent_ids() {
    let mut grads = GradientsParams::new();
    assert!(grads.remove(&id(3)).is_none());

    grads.register(id(3), scalar(11));
    let taken = grads.remove(&id(3)).expect("gradient expected");
    assert_eq!(taken.data().clone(), vec![11]);
    assert!(grads.remove(&id(3)).is_none());
    assert!(grads.is_empty());
}

#[test]
fn tensor_add_sums_scalars_exactly() {
    let sum = scalar(2).add(scalar(2));
    assert_eq!(sum.data().clone(), vec![4]);
    assert_eq!(sum.shape().clone(), vec![1]);
}
