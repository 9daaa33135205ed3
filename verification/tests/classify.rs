use digit_infer::classify::ForwardOutcome;
use digit_infer::classify::ImageClassifier;
use digit_infer::classify::MLBackend;
use digit_infer::classify::NORM_DENOM;
use digit_infer::classify::NORM_OFFSET;
use digit_infer::classify::normalize;
use digit_infer::classify::rank_output;
use digit_infer::classify::top_5_classes;
use digit_infer::error::PipelineError;
use digit_infer::gray::GRAY_MAX;
use digit_infer::gray::GrayscaleTensor;
use digit_infer::pipeline::preprocess;
use digit_infer::raster::RasterImage;

fn digit_labels() -> Vec<String> {
    (0..10).map(|d: u32| d.to_string()).collect()
}

#[test]
fn normalization_constants_are_exact() {
    assert_eq!(NORM_DENOM, 255 * 3081);
    assert_eq!(NORM_OFFSET, 255 * 1307);
}

#[test]
fn normalize_full_and_zero_values() {
    let mut values = vec![128_000u32; 784];
    values[0] = 255_000;
    values[1] = 0;
    let t = GrayscaleTensor { values };
    let n = normalize(&t);
    assert_eq!(n.values.len(), 784);
    // intensity 255: ((255/255) - 0.1307) / 0.3081, about 2.822
    assert_eq!(n.values[0], 10 * 255_000 - NORM_OFFSET);
    let full = n.values[0] as f64 / NORM_DENOM as f64;
    let expected_full = ((255.0f64 / 255.0) - 0.1307) / 0.3081;
    assert!((full - expected_full).abs() < 1e-9);
    assert!((full - 2.822).abs() < 1e-3);
    // intensity 0: (0 - 0.1307) / 0.3081, about -0.4243
    assert_eq!(n.values[1], -NORM_OFFSET);
    let zero = n.values[1] as f64 / NORM_DENOM as f64;
    let expected_zero = (0.0f64 - 0.1307) / 0.3081;
    assert!((zero - expected_zero).abs() < 1e-9);
    assert!((zero - -0.4243).abs() < 1e-3);
}

#[test]
fn normalize_stays_in_range() {
    let t = GrayscaleTensor { values: vec![GRAY_MAX; 784] };
    let n = normalize(&t);
    assert!(n.values.iter().all(|&v| -NORM_OFFSET <= v && v <= 10 * GRAY_MAX as i64 - NORM_OFFSET));
}

#[test]
fn top5_ranks_descending_with_index_tiebreak() {
    // the probability vector [0.1, 0.05, 0.6, 0.05, 0.05, 0.05, 0.02,
    // 0.03, 0.025, 0.025], scaled to fixed point by 10000
    let probabilities = vec![1000i64, 500, 6000, 500, 500, 500, 200, 300, 250, 250];
    let labels = digit_labels();
    let res = top_5_classes(&probabilities, &labels);
    assert_eq!(res.len(), 5);
    let got: Vec<(usize, i64, &str)> =
        res.iter().map(|e| (e.index, e.probability, e.label.as_str())).collect();
    assert_eq!(
        got,
        vec![(2, 6000, "2"), (0, 1000, "0"), (1, 500, "1"), (3, 500, "3"), (4, 500, "4")]
    );
    for w in res.windows(2) {
        assert!(
            w[0].probability > w[1].probability
                || (w[0].probability == w[1].probability && w[0].index < w[1].index)
        );
    }
}

#[test]
fn top5_all_equal_keeps_lowest_indices() {
    let probabilities = vec![7i64; 10];
    let labels = digit_labels();
    let res = top_5_classes(&probabilities, &labels);
    let got: Vec<usize> = res.iter().map(|e| e.index).collect();
    assert_eq!(got, vec![0, 1, 2, 3, 4]);
}

#[test]
fn rank_output_unavailable_backend() {
    let labels = digit_labels();
    match rank_output(&ForwardOutcome::Unavailable, &labels) {
        Err(e) => assert_eq!(e, PipelineError::BackendUnavailable),
        Ok(_) => panic!("an unavailable backend must fail"),
    }
}

#[test]
fn rank_output_non_finite_output() {
    let labels = digit_labels();
    match rank_output(&ForwardOutcome::NonFinite, &labels) {
        Err(e) => assert_eq!(e, PipelineError::NumericAnomaly),
        Ok(_) => panic!("a non-finite output must fail"),
    }
}

#[test]
fn rank_output_wrong_length_output() {
    let labels = digit_labels();
    let outcome = ForwardOutcome::Probabilities(vec![1i64; 9]);
    match rank_output(&outcome, &labels) {
        Err(e) => assert_eq!(e, PipelineError::NumericAnomaly),
        Ok(_) => panic!("a nine-value output must fail"),
    }
}

#[test]
fn rank_output_good_vector() {
    let labels = digit_labels();
    let outcome =
        ForwardOutcome::Probabilities(vec![1000i64, 500, 6000, 500, 500, 500, 200, 300, 250, 250]);
    let res = rank_output(&outcome, &labels).expect("well-formed output");
    assert_eq!(res.len(), 5);
    assert_eq!(res[0].index, 2);
    assert_eq!(res[0].probability, 6000);
    assert_eq!(res[0].label, "2");
}

#[test]
fn classifier_keeps_backend_selection() {
    let classifier = ImageClassifier { model: MLBackend::NdArray };
    assert_eq!(classifier.model, MLBackend::NdArray);
    assert_ne!(classifier.model, MLBackend::Wgpu);
}

#[test]
fn pipeline_end_to_end() {
    // a small canvas with an opaque white stroke in the middle
    let width = 12u32;
    let height = 10u32;
    let mut pixels = vec![0u8; (width * height * 4) as usize];
    for x in 3..9u32 {
        let idx = 4 * (5 * width + x) as usize;
        pixels[idx..idx + 4].copy_from_slice(&[255, 255, 255, 255]);
    }
    let r = RasterImage { width, height, pixels };
    let tensor = preprocess(&r).expect("stroke present");
    let normalized = normalize(&tensor);
    assert_eq!(normalized.values.len(), 784);
    // the host runs the forward pass; feed its ranked reduction a vector
    let outcome = ForwardOutcome::Probabilities(vec![10i64, 20, 30, 900, 40, 50, 60, 70, 80, 90]);
    let res = rank_output(&outcome, &digit_labels()).expect("ten values");
    assert_eq!(res.len(), 5);
    assert_eq!(res[0].index, 3);
}
