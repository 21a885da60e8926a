use climsim::error::EngineError;
use climsim::raster::RasterView;

fn patterns(values: &[f32]) -> Vec<u32> {
    values.iter().map(|v| v.to_bits()).collect()
}

#[test]
fn build_rejects_a_single_band() {
    let r = RasterView::build(patterns(&[1.0, 2.0, 3.0]), 3, 1, 1);
    assert!(matches!(r, Err(EngineError::Shape)));
}

#[test]
fn build_rejects_no_band() {
    let r = RasterView::build(Vec::new(), 3, 1, 0);
    assert!(matches!(r, Err(EngineError::Shape)));
}

#[test]
fn build_rejects_a_buffer_of_the_wrong_length() {
    let r = RasterView::build(patterns(&[1.0, 2.0, 3.0, 4.0, 5.0]), 3, 1, 2);
    assert!(matches!(r, Err(EngineError::Layout)));
    let r = RasterView::build(patterns(&[1.0, 2.0, 3.0, 4.0]), 1, 1, 2);
    assert!(matches!(r, Err(EngineError::Layout)));
}

#[test]
fn build_rejects_extents_that_no_buffer_can_have() {
    let r = RasterView::build(patterns(&[1.0, 2.0]), usize::MAX, 2, 2);
    assert!(matches!(r, Err(EngineError::Layout)));
    let r = RasterView::build(patterns(&[1.0, 2.0]), usize::MAX, 1, 2);
    assert!(matches!(r, Err(EngineError::Layout)));
}

#[test]
fn build_prefers_the_shape_error() {
    let r = RasterView::build(patterns(&[1.0, 2.0]), 5, 5, 1);
    assert!(matches!(r, Err(EngineError::Shape)));
}

#[test]
fn build_accepts_an_empty_raster() {
    let view = RasterView::build(Vec::new(), 0, 4, 2).unwrap();
    assert_eq!(view.total_cells(), 0);
    assert_eq!(view.band_count(), 2);
    assert_eq!(view.valid_indices(), Vec::<usize>::new());
}

#[test]
fn build_keeps_extents() {
    let view = RasterView::build(patterns(&[0.0; 24]), 2, 4, 3).unwrap();
    assert_eq!(view.total_cells(), 8);
    assert_eq!(view.band_count(), 3);
}

#[test]
fn row_is_the_band_vector_of_the_cell() {
    let view = RasterView::build(patterns(&[1.0, 2.0, 1.5, 2.5, 10.0, 20.0]), 3, 1, 2).unwrap();
    assert_eq!(view.row(0), &patterns(&[1.0, 2.0])[..]);
    assert_eq!(view.row(1), &patterns(&[1.5, 2.5])[..]);
    assert_eq!(view.row(2), &patterns(&[10.0, 20.0])[..]);
}

#[test]
fn a_cell_with_a_non_finite_band_is_invalid() {
    let data = patterns(&[
        1.0,
        2.0,
        f32::NAN,
        2.5,
        3.0,
        f32::INFINITY,
        f32::NEG_INFINITY,
        f32::NAN,
        5.0,
        6.0,
        -0.0,
        f32::MAX,
    ]);
    let view = RasterView::build(data, 2, 3, 2).unwrap();
    assert!(view.is_valid(0));
    assert!(!view.is_valid(1));
    assert!(!view.is_valid(2));
    assert!(!view.is_valid(3));
    assert!(view.is_valid(4));
    assert!(view.is_valid(5));
    assert_eq!(view.valid_indices(), vec![0, 4, 5]);
}

#[test]
fn a_cell_outside_the_raster_is_invalid() {
    let view = RasterView::build(patterns(&[1.0, 2.0]), 1, 1, 2).unwrap();
    assert!(view.is_valid(0));
    assert!(!view.is_valid(1));
    assert!(!view.is_valid(usize::MAX));
}

#[test]
fn valid_indices_ascend() {
    let mut values = vec![1.0f32; 40];
    values[6] = f32::NAN;
    values[21] = f32::INFINITY;
    let view = RasterView::build(patterns(&values), 4, 5, 2).unwrap();
    let valid = view.valid_indices();
    assert_eq!(valid.len(), 18);
    assert!(valid.windows(2).all(|w| w[0] < w[1]));
    assert!(!valid.contains(&3));
    assert!(!valid.contains(&10));
}
