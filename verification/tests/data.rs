use mlp::{
    assert_dimension_validity, csv_table, de_interleave, Batch, BatchMode, BatchProvider,
    OwnedData, OwnedDataset, OwnedEvaluation, Training,
};

#[test]
fn test_unflatten() {
    let data = vec![1., 2., 3., 4., 5., 6.];
    let result = de_interleave(data, 2);
    assert_eq!(result, vec![vec![1., 3., 5.], vec![2., 4., 6.]]);
}

#[test]
fn test_unflatten_uneven_columns() {
    let result = de_interleave(vec![1, 2, 3, 4, 5, 6, 7], 3);
    assert_eq!(result, vec![vec![1, 4, 7], vec![2, 5], vec![3, 6]]);
    let empty: Vec<Vec<i32>> = de_interleave(Vec::new(), 0);
    assert!(empty.is_empty());
}

#[test]
fn test_dimension_validity() {
    assert!(assert_dimension_validity(6, 4, 3, 2));
    assert!(!assert_dimension_validity(6, 4, 0, 2));
    assert!(!assert_dimension_validity(6, 4, 3, 0));
    assert!(!assert_dimension_validity(6, 5, 3, 2));
    assert!(!assert_dimension_validity(7, 4, 3, 2));
    assert!(!assert_dimension_validity(9, 4, 3, 2));
}

fn generate_siso_dataset() -> OwnedDataset<f32> {
    let (inp, out) = (0..10)
        .map(|idx| ((idx + 1) as f32, ((idx + 1) * 10) as f32))
        .collect::<(Vec<f32>, Vec<f32>)>();

    OwnedDataset::new(OwnedData::new(inp, out), 3, 1, 1, BatchMode::Sequential)
}

fn generate_mimo_dataset(number_of_observations: usize) -> OwnedDataset<f32> {
    let inp = (0..number_of_observations)
        .map(|elem| vec![elem as f32, (2 * elem) as f32])
        .flatten()
        .collect::<Vec<f32>>();

    let out = (0..number_of_observations)
        .map(|elem| vec![(10 * elem) as f32, (20 * elem) as f32, (30 * elem) as f32])
        .flatten()
        .collect::<Vec<f32>>();

    OwnedDataset::new(OwnedData::new(inp, out), 3, 2, 3, BatchMode::Sequential)
}

fn inputs_and_outputs(batch: &Batch<f32, Training>) -> (Vec<Vec<f32>>, Vec<f32>) {
    let inputs = (0..batch.number_of_samples())
        .map(|i| batch.input(i).to_vec())
        .collect();
    (inputs, batch.output())
}

#[test]
fn test_siso_dataset() {
    let mut dataset = generate_siso_dataset();
    let mut lala = Vec::new();
    while let Some(batch) = dataset.provide_batch() {
        lala.push(batch)
    }

    let sizes: Vec<usize> = lala.iter().map(|b| b.number_of_samples()).collect();
    assert_eq!(sizes, vec![3, 3, 3, 1]);
    let contents: Vec<(Vec<Vec<f32>>, Vec<f32>)> = lala.iter().map(inputs_and_outputs).collect();
    assert_eq!(
        contents,
        vec![
            (vec![vec![1.0], vec![2.0], vec![3.0]], vec![10.0, 20.0, 30.0]),
            (vec![vec![4.0], vec![5.0], vec![6.0]], vec![40.0, 50.0, 60.0]),
            (vec![vec![7.0], vec![8.0], vec![9.0]], vec![70.0, 80.0, 90.0]),
            (vec![vec![10.0]], vec![100.0]),
        ]
    );
}

#[test]
fn test_mimo_dataset() {
    let mut dataset = generate_mimo_dataset(10);
    let mut lala = Vec::new();
    while let Some(batch) = dataset.provide_batch() {
        println!("{:#?}", batch);
        lala.push(batch)
    }

    assert_eq!(lala.len(), 4);
    for (k, batch) in lala.iter().enumerate() {
        let first = 3 * k;
        let count = if k < 3 { 3 } else { 1 };
        assert_eq!(batch.number_of_samples(), count);
        let mut expected_output = Vec::new();
        for i in 0..count {
            let e = (first + i) as f32;
            assert_eq!(batch.input(i), &[e, 2.0 * e]);
            assert_eq!(batch.output_sample(i), &[10.0 * e, 20.0 * e, 30.0 * e]);
            expected_output.extend([10.0 * e, 20.0 * e, 30.0 * e]);
        }
        assert_eq!(batch.output(), expected_output);
    }
}

#[test]
fn test_sequential_reset_restarts_epoch() {
    let mut dataset = generate_siso_dataset();
    while dataset.provide_batch().is_some() {}
    assert!(dataset.provide_batch().is_none());
    dataset.reset();
    let first = dataset.provide_batch().unwrap();
    assert_eq!(first.input(0), &[1.0]);
    assert_eq!(first.output(), vec![10.0, 20.0, 30.0]);
}

#[test]
fn test_random_epoch_draws_each_observation_once() {
    let inputs: Vec<i64> = (0..10).collect();
    let outputs: Vec<i64> = (0..10).map(|i| 100 + i).collect();
    let mut dataset = OwnedDataset::new(OwnedData::new(inputs, outputs), 4, 1, 1, BatchMode::Random);
    // a random dataset hands out nothing before its first epoch starts
    assert!(dataset.provide_batch().is_none());
    for _epoch in 0..3 {
        dataset.reset();
        let mut seen = Vec::new();
        let mut sizes = Vec::new();
        while let Some(batch) = dataset.provide_batch() {
            sizes.push(batch.number_of_samples());
            let output = batch.output();
            // each observation contributes its input followed by its output
            let mut pairs = Vec::new();
            let all: Vec<i64> = (0..batch.number_of_samples())
                .flat_map(|i| batch.input(i).to_vec())
                .chain(output)
                .collect();
            for pair in all.chunks(2) {
                assert_eq!(pair[1], pair[0] + 100);
                pairs.push(pair[0]);
            }
            seen.extend(pairs);
        }
        assert_eq!(sizes, vec![4, 4, 2]);
        seen.sort();
        assert_eq!(seen, (0..10).collect::<Vec<i64>>());
    }
}

#[test]
fn test_dataset_inference_batch() {
    let dataset = generate_siso_dataset();
    let batch = dataset.create_inference_batch(0.0);
    assert_eq!(batch.number_of_samples(), 10);
    assert_eq!(batch.input(4), &[5.0]);
    assert_eq!(batch.output(), vec![0.0; 10]);
}

#[test]
fn test_owned_data_from_rows() {
    let rows = vec![vec![1, 2, 3], vec![4, 5, 6]];
    let data = OwnedData::from_rows(&rows, 2, 1);
    assert_eq!(data.input(), &[1, 2, 4, 5]);
    assert_eq!(data.output(), &[3, 6]);
    let zeros = OwnedData::from_input_slice(&[7, 8], 0);
    assert_eq!(zeros.input(), &[7, 8]);
    assert_eq!(zeros.output(), &[0, 0]);
}

#[test]
fn test_owned_data_mutable_views() {
    let mut data = OwnedData::new(vec![1, 2], vec![3]);
    data.input_mut()[0] = 9;
    data.output_mut()[0] = 8;
    {
        let (input, output) = data.borrow_mut();
        input[1] = 7;
        output[0] += 1;
    }
    assert_eq!(data.input(), &[9, 7]);
    assert_eq!(data.output(), &[9]);
}

#[test]
fn test_csv_table() {
    let content = "1, 2,3.5\n\n  \r\n4,5 ,\t6\r\n";
    let rows = csv_table(content);
    let text: Vec<Vec<String>> = rows
        .iter()
        .map(|row| row.iter().map(|cell| cell.iter().collect()).collect())
        .collect();
    assert_eq!(
        text,
        vec![
            vec!["1".to_string(), "2".to_string(), "3.5".to_string()],
            vec!["4".to_string(), "5".to_string(), "6".to_string()],
        ]
    );
    assert!(csv_table("").is_empty());
    let blank_field = csv_table("a,,b");
    assert_eq!(blank_field[0].len(), 3);
    assert!(blank_field[0][1].is_empty());
}

#[test]
fn test_evaluation_prediction_and_error() {
    let mut evaluation = OwnedEvaluation::new(vec![1.0f32, 2.0], vec![10.0, 20.0], 1, 1);
    let batch = evaluation.create_inference_batch(0.0);
    assert_eq!(batch.number_of_samples(), 2);
    assert_eq!(batch.input(1), &[2.0]);
    let mut batch = batch;
    batch.set_output(0, &[11.0]);
    batch.set_output(1, &[17.0]);
    evaluation.set_prediction(batch, |observed, predicted| predicted - observed);
    assert_eq!(evaluation.prediction(), Some(&[11.0f32, 17.0][..]));
    assert_eq!(evaluation.error(), Some(&[1.0f32, -3.0][..]));
}

#[test]
fn test_evaluation_from_dataset() {
    let dataset = generate_siso_dataset();
    let evaluation = OwnedEvaluation::from(&dataset);
    assert_eq!(evaluation.input(), dataset.input());
    assert_eq!(evaluation.output(), dataset.output());
    assert_eq!(evaluation.input_dim(), 1);
    assert_eq!(evaluation.output_dim(), 1);
    assert!(evaluation.prediction().is_none());
    assert!(evaluation.error().is_none());
}

#[test]
fn test_batch_mode_default_and_debug() {
    assert_eq!(format!("{:?}", BatchMode::default()), "Sequential");
    assert_eq!(format!("{:?}", BatchMode::Random), "Random");
}
