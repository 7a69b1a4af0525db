use tron::palm_outputs::{
    classify_landmark_outputs, classify_outputs, square_input_size, LandmarkOutputSpec, NoCoordsOutput,
    NoLandmarkOutput, OutputInfo, PalmOutputSpec,
};

fn out(name: &str, elements: usize, last_dim: Option<usize>) -> OutputInfo {
    OutputInfo { name: name.to_string(), elements, last_dim }
}

#[test]
fn classifies_by_shape() {
    let outputs = [out("Identity", 2016 * 18, Some(18)), out("Identity_1", 2016, Some(1))];
    assert_eq!(classify_outputs(&outputs), Ok(PalmOutputSpec { coords: 0, scores: 1, anchor_count: 2016 }));
}

#[test]
fn classifies_by_name_ignoring_case() {
    let outputs = [out("Classificators", 0, None), out("Regressors", 2944 * 18, None), out("scores", 2944, Some(1))];
    assert_eq!(classify_outputs(&outputs), Ok(PalmOutputSpec { coords: 1, scores: 2, anchor_count: 2944 }));
}

#[test]
fn falls_back_to_matching_counts_then_the_next_output() {
    let outputs = [out("a", 36, Some(2)), out("b", 2, Some(2)), out("c", 7, Some(7))];
    assert_eq!(classify_outputs(&outputs), Ok(PalmOutputSpec { coords: 0, scores: 1, anchor_count: 2 }));
    let outputs = [out("a", 36, Some(2)), out("b", 3, Some(3))];
    assert_eq!(classify_outputs(&outputs), Ok(PalmOutputSpec { coords: 0, scores: 1, anchor_count: 2 }));
    let outputs = [out("a", 36, Some(2))];
    assert_eq!(classify_outputs(&outputs), Ok(PalmOutputSpec { coords: 0, scores: 0, anchor_count: 2 }));
}

#[test]
fn refuses_models_without_coordinates() {
    assert_eq!(classify_outputs(&[out("x", 5, Some(1))]), Err(NoCoordsOutput));
    assert_eq!(classify_outputs(&[]), Err(NoCoordsOutput));
}

#[test]
fn classifies_landmark_outputs_by_name() {
    let outputs = [
        out("Identity_3", 63, None),
        out("world_landmarks", 63, None),
        out("Handedness", 1, None),
        out("Landmarks", 63, None),
        out("hand_score", 1, None),
    ];
    assert_eq!(
        classify_landmark_outputs(&outputs),
        Ok(LandmarkOutputSpec { landmarks: 0, presence: Some(4), handedness: Some(2) })
    );
}

#[test]
fn classifies_landmark_outputs_by_shape() {
    let outputs = [out("out0", 1, None), out("WORLD", 63, None), out("out2", 63, None)];
    assert_eq!(
        classify_landmark_outputs(&outputs),
        Ok(LandmarkOutputSpec { landmarks: 1, presence: Some(0), handedness: None })
    );
    let outputs = [out("landmarks", 63, None)];
    assert_eq!(
        classify_landmark_outputs(&outputs),
        Ok(LandmarkOutputSpec { landmarks: 0, presence: None, handedness: None })
    );
}

#[test]
fn refuses_landmark_models_without_63_numbers() {
    assert_eq!(classify_landmark_outputs(&[out("landmarks", 42, None)]), Err(NoLandmarkOutput));
    assert_eq!(classify_landmark_outputs(&[]), Err(NoLandmarkOutput));
}

#[test]
fn square_input_size_reads_height_and_width() {
    assert_eq!(square_input_size(Some(&[1, 3, 224, 224][..])), Some(224));
    assert_eq!(square_input_size(Some(&[1, 3, 224, 192][..])), None);
    assert_eq!(square_input_size(Some(&[1, 3, -1, -1][..])), None);
    assert_eq!(square_input_size(Some(&[1, 3, 224][..])), None);
    assert_eq!(square_input_size(None), None);
}
