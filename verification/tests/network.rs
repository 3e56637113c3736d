use mlp::{cumulative_sum, Batch, NetProperties, Signals, SwapBuffer, Training};

#[test]
fn test_cumulative_sum() {
    let plain = vec![1usize, 2, 3, 4, 5];
    let sum = cumulative_sum(&plain, 0);
    assert_eq!(sum, vec![0, 1, 3, 6, 10, 15]);
}

#[test]
fn test_cumulative_sum_with_start_value() {
    let sum = cumulative_sum(&[4usize, 0, 6], 10);
    assert_eq!(sum, vec![10, 14, 14, 20]);
    assert_eq!(cumulative_sum(&[], 7), vec![7]);
}

#[test]
fn test_properties() {
    let layout = vec![2, 3, 2];
    let properties = NetProperties::new(layout, true);
    assert_eq!(properties.layout(), &[2, 3, 2]);
    assert_eq!(properties.transition_offsets(), &[0, 9]);
    assert_eq!(properties.number_of_parameters(), 17);
    assert_eq!(properties.capacity(), 4);
    assert_eq!(properties.max_layer(), 2);
    assert!(properties.is_classifier());
}

#[test]
fn test_properties_single_layer() {
    let properties = NetProperties::new(vec![5], false);
    assert_eq!(properties.transition_offsets(), &[] as &[usize]);
    assert_eq!(properties.number_of_parameters(), 0);
    assert_eq!(properties.capacity(), 6);
    assert_eq!(properties.max_layer(), 0);
    assert!(!properties.is_classifier());
}

#[test]
fn test_properties_clone_keeps_layout() {
    let properties = NetProperties::new(vec![2, 24, 24, 24, 2], true);
    let copy = properties.clone();
    assert_eq!(copy.layout(), properties.layout());
    assert_eq!(copy.transition_offsets(), &[0, 72, 672, 1272]);
    assert_eq!(copy.number_of_parameters(), 1322);
}

#[test]
fn test_weight_index_layout() {
    // layout [2, 3, 2]: the first transition has 3 weights (2 inputs + bias)
    // per target neuron, the second 4 per target neuron, starting at 9.
    let properties = NetProperties::new(vec![2, 3, 2], false);
    assert_eq!(properties.weight_index(0, 0, 0), 0);
    assert_eq!(properties.weight_index(0, 2, 0), 2);
    assert_eq!(properties.weight_index(0, 0, 1), 3);
    assert_eq!(properties.weight_index(0, 2, 2), 8);
    assert_eq!(properties.weight_index(1, 0, 0), 9);
    assert_eq!(properties.weight_index(1, 3, 1), 16);
}

#[test]
fn test_weight_index_is_one_to_one() {
    let properties = NetProperties::new(vec![3, 4, 2], false);
    let layout = properties.layout().to_vec();
    let mut seen = vec![false; properties.number_of_parameters()];
    for t in 0..layout.len() - 1 {
        for source in 0..=layout[t] {
            for target in 0..layout[t + 1] {
                let index = properties.weight_index(t, source, target);
                assert!(!seen[index]);
                seen[index] = true;
            }
        }
    }
    assert!(seen.iter().all(|&s| s));
}

#[test]
fn test_signals() {
    let layout = [2, 3, 2];
    let signals = Signals::new(&layout, 0.0f32);
    assert_eq!(signals.activations(0), &[0.0, 0.0, 0.0]);
    assert_eq!(signals.activations(1), &[0.0, 0.0, 0.0, 0.0]);
    assert_eq!(signals.activations(2), &[0.0, 0.0]);
}

#[test]
fn test_signals_write_then_read() {
    let mut signals = Signals::new(&[2, 3, 2], 0i32);
    signals.set_activations(1, &[1, 2, 3, 4, 99]);
    signals.set_activations(0, &[7, 8, 9]);
    assert_eq!(signals.activations(1), &[1, 2, 3, 4]);
    assert_eq!(signals.activations(0), &[7, 8, 9]);
    assert_eq!(signals.activations(2), &[0, 0]);
    let copy = signals.clone();
    assert_eq!(copy.activations(1), &[1, 2, 3, 4]);
}

#[test]
fn test_swap_buffer() {
    let mut buffers = SwapBuffer::new(3, 0u8);
    {
        let (first, second) = buffers.get_pair();
        first[0] = 1;
        second[2] = 5;
    }
    buffers.swap();
    let (first, second) = buffers.get_pair();
    assert_eq!(first, &vec![0, 0, 5]);
    assert_eq!(second, &vec![1, 0, 0]);
}

fn create_test_batch() -> Batch<f32, Training> {
    let data = vec![
        1.0, 1.0, 2.0, 2.0, 3.0, 3.0, 11.0, 11.0, 11.0, 22.0, 22.0, 22.0, 33.0, 33.0, 33.0,
    ];
    Batch::new(3, 2, 3, &data)
}

#[test]
fn test_creation() {
    let batch = create_test_batch();
    assert_eq!(batch.number_of_samples(), 3);
    assert_eq!(batch.input(0), &[1.0, 1.0]);
    assert_eq!(batch.input(1), &[2.0, 2.0]);
    assert_eq!(batch.input(2), &[3.0, 3.0]);
    assert_eq!(
        batch.output(),
        vec![11.0, 11.0, 11.0, 22.0, 22.0, 22.0, 33.0, 33.0, 33.0]
    );
}

#[test]
fn test_slicing() {
    let batch = create_test_batch();
    let second_sample_input = batch.input(1);
    let second_sample_output = batch.output_sample(1);
    let result = vec![
        Vec::from(second_sample_input),
        Vec::from(second_sample_output),
    ];
    assert_eq!(result, vec![vec![2.0, 2.0], vec![22.0, 22.0, 22.0]]);
}

#[test]
fn test_inference_batch_round_trip() {
    let batch = create_test_batch();
    let mut inference = batch.to_inference_batch(0.0);
    assert_eq!(inference.output(), vec![0.0; 9]);
    assert_eq!(inference.input(2), &[3.0, 3.0]);
    inference.set_output(1, &[5.0, 6.0, 7.0]);
    assert_eq!(
        inference.output(),
        vec![0.0, 0.0, 0.0, 5.0, 6.0, 7.0, 0.0, 0.0, 0.0]
    );
}

#[test]
fn test_batch_from_data() {
    let batch = Batch::from_data(&[1, 2], &[3, 4], &[1, 5, 1]);
    assert_eq!(batch.number_of_samples(), 2);
    assert_eq!(batch.input(0), &[1]);
    assert_eq!(batch.input(1), &[2]);
    assert_eq!(batch.output(), vec![3, 4]);
    assert_eq!(batch.output_sample(1), &[4]);
}
