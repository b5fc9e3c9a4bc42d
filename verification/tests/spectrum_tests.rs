use oscillot::spectrum::lower_half;
use oscillot::spectrum::spectrum_input;
use oscillot::spectrum::SPECTRUM_POINTS;

#[test]
fn spectrum_input_reads_round_the_ring() {
    let out = spectrum_input(&[1.0f32, 2.0, 3.0], 7, 0.0);
    assert_eq!(out, vec![1.0, 2.0, 3.0, 1.0, 2.0, 3.0, 1.0]);
}

#[test]
fn spectrum_input_of_an_empty_ring_is_zero() {
    let out = spectrum_input(&[], 4, 0.0f32);
    assert_eq!(out, vec![0.0; 4]);
}

#[test]
fn spectrum_input_has_the_spectrum_size() {
    let ring: Vec<f32> = (0..8192).map(|i| i as f32).collect();
    let out = spectrum_input(&ring, SPECTRUM_POINTS, 0.0);
    assert_eq!(out.len(), 1024);
    assert_eq!(out[1023], 1023.0);
}

#[test]
fn lower_half_keeps_the_first_half() {
    assert_eq!(lower_half(vec![1, 2, 3, 4, 5, 6]), vec![1, 2, 3]);
    assert_eq!(lower_half(vec![1, 2, 3]), vec![1]);
    assert_eq!(lower_half(Vec::<u8>::new()), Vec::<u8>::new());
}
