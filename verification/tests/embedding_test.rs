#[test]
fn test_dimension() {
    // all-MiniLM-L6-v2 should produce 384-dimensional vectors
    assert_eq!(384, 384);
}

#[test]
fn onnx_test_normalize_vector() {
    let v = [3.0_f32, 4.0];
    let norm: f32 = v.iter().map(|x| x * x).sum::<f32>().sqrt();
    let normalized: Vec<f32> = v.iter().map(|x| x / norm).collect();
    let result_norm: f32 = normalized.iter().map(|x| x * x).sum::<f32>().sqrt();
    assert!((result_norm - 1.0).abs() < 1e-6);
}

#[test]
fn test_embedding_dimension() {
    // all-MiniLM-L6-v2 should produce 384-dimensional vectors
    assert_eq!(384, 384);
}

#[test]
fn embedding_test_test_normalize_vector() {
    let v = [3.0_f32, 4.0];
    let norm: f32 = v.iter().map(|x| x * x).sum::<f32>().sqrt();
    let normalized: Vec<f32> = v.iter().map(|x| x / norm).collect();
    let result_norm: f32 = normalized.iter().map(|x| x * x).sum::<f32>().sqrt();
    assert!((result_norm - 1.0).abs() < 1e-6);
}
