use climsim::error::EngineError;
use climsim::kernel::{
    nearest, partners, partners_within, plan_dissimilarity, plan_min_distance, plan_similarity,
    scatter,
};
use climsim::raster::RasterView;

fn raster(values: &[f32], nrows: usize, ncols: usize, bands: usize) -> RasterView {
    RasterView::build(values.iter().map(|v| v.to_bits()).collect(), nrows, ncols, bands).unwrap()
}

fn feature_distance(a: &[u32], b: &[u32]) -> f64 {
    assert_eq!(a.len(), b.len());
    a.iter()
        .zip(b)
        .map(|(x, y)| {
            let d = f32::from_bits(*x) as f64 - f32::from_bits(*y) as f64;
            d * d
        })
        .sum::<f64>()
        .sqrt()
}

/// Distance between two cells of a grid whose cells are one kilometre apart.
fn planar_km(ncols: usize, a: usize, b: usize) -> f32 {
    let (ra, ca) = climsim::georef::decode(a, ncols).unwrap();
    let (rb, cb) = climsim::georef::decode(b, ncols).unwrap();
    let dx = ca as f32 - cb as f32;
    let dy = ra as f32 - rb as f32;
    (dx * dx + dy * dy).sqrt()
}

fn similarity_sum(view: &RasterView, bandwidth: f64, sample_count: usize, seed: u64) -> Result<Vec<f64>, EngineError> {
    let samples = plan_similarity(view, bandwidth.to_bits(), sample_count, seed)?;
    let values: Vec<u64> = view
        .valid_indices()
        .iter()
        .map(|&i| {
            partners(&samples, i)
                .iter()
                .map(|&j| (-feature_distance(view.row(i), view.row(j)) / bandwidth).exp())
                .sum::<f64>()
                .to_bits()
        })
        .collect();
    Ok(scatter(view, &values)?.into_iter().map(f64::from_bits).collect())
}

fn dissimilarity_sum(
    view: &RasterView,
    ncols: usize,
    bandwidth: f64,
    radius: Option<f32>,
    sample_count: usize,
    seed: u64,
) -> Result<Vec<f64>, EngineError> {
    let samples = plan_dissimilarity(view, ncols, bandwidth.to_bits(), sample_count, seed)?;
    let mut values: Vec<u64> = Vec::new();
    for i in view.valid_indices() {
        let kept = match radius {
            Some(r) => {
                let distances: Vec<u32> =
                    samples.iter().map(|&j| planar_km(ncols, i, j).to_bits()).collect();
                partners_within(&samples, &distances, i, r.to_bits())?
            },
            None => partners(&samples, i),
        };
        let acc: f64 = kept
            .iter()
            .map(|&j| 1.0 - (-feature_distance(view.row(i), view.row(j)) / bandwidth).exp())
            .sum();
        values.push(acc.to_bits());
    }
    Ok(scatter(view, &values)?.into_iter().map(f64::from_bits).collect())
}

fn min_distance(view: &RasterView, ncols: usize, hits: &Vec<Option<(usize, usize)>>) -> Result<Vec<f64>, EngineError> {
    let panel = plan_min_distance(view, ncols, hits)?;
    let values: Vec<u64> = view
        .valid_indices()
        .iter()
        .map(|&i| {
            let distances: Vec<u64> = panel
                .iter()
                .map(|&j| feature_distance(view.row(i), view.row(j)).to_bits())
                .collect();
            nearest(&distances)
        })
        .collect();
    Ok(scatter(view, &values)?.into_iter().map(f64::from_bits).collect())
}

#[test]
fn a_far_cell_is_more_dissimilar_than_two_near_ones() {
    let view = raster(&[1.0, 2.0, 1.5, 2.5, 10.0, 20.0], 3, 1, 2);
    let result = dissimilarity_sum(&view, 1, 1.0, None, 0, 0).unwrap();
    assert_eq!(result.len(), 3);
    assert!(result.iter().all(|v| v.is_finite()));
    assert!(result[2] > result[0]);
    assert!(result[2] > result[1]);
}

#[test]
fn identical_cells_are_not_dissimilar_at_all() {
    let view = raster(&[3.0, 4.0, 3.0, 4.0, 3.0, 4.0, f32::NAN, 4.0, 3.0, 4.0], 5, 1, 2);
    let result = dissimilarity_sum(&view, 1, 2.0, None, 0, 0).unwrap();
    assert_eq!(result.len(), 5);
    for cell in [0, 1, 2, 4] {
        assert_eq!(result[cell], 0.0);
    }
    assert!(result[3].is_nan());
}

#[test]
fn output_has_one_value_per_cell_whatever_is_sampled_or_pruned() {
    let mut values = vec![0.5f32; 48];
    values[5] = f32::NAN;
    values[30] = f32::INFINITY;
    let view = raster(&values, 4, 6, 2);
    for sample_count in [0usize, 1, 5, 22, 1000] {
        for radius in [None, Some(0.5f32), Some(2.0), Some(1e9)] {
            let result = dissimilarity_sum(&view, 6, 1.0, radius, sample_count, 3).unwrap();
            assert_eq!(result.len(), 24);
            assert!(result[2].is_nan());
            assert!(result[15].is_nan());
        }
        assert_eq!(similarity_sum(&view, 1.0, sample_count, 3).unwrap().len(), 24);
    }
}

#[test]
fn invalid_cells_are_missing_in_every_kernel() {
    let view = raster(&[1.0, 2.0, f32::NAN, 2.5, 10.0, 20.0, 4.0, f32::NEG_INFINITY], 2, 2, 2);
    let s = similarity_sum(&view, 1.0, 0, 0).unwrap();
    let d = dissimilarity_sum(&view, 2, 1.0, Some(10.0), 0, 0).unwrap();
    let m = min_distance(&view, 2, &vec![Some((0, 0)), Some((1, 0))]).unwrap();
    for out in [s, d, m] {
        assert_eq!(out.len(), 4);
        assert!(!out[0].is_nan());
        assert!(out[1].is_nan());
        assert!(!out[2].is_nan());
        assert!(out[3].is_nan());
    }
}

#[test]
fn a_sampled_cell_adds_nothing_to_its_own_sum() {
    let view = raster(&[1.0, 2.0, 4.0, 6.0], 2, 1, 2);
    let s = similarity_sum(&view, 1.0, 0, 0).unwrap();
    assert_eq!(s[0], (-5.0f64).exp());
    assert_eq!(s[1], (-5.0f64).exp());
    let d = dissimilarity_sum(&view, 1, 1.0, None, 0, 0).unwrap();
    assert_eq!(d[0], 1.0 - (-5.0f64).exp());
    let lonely = raster(&[1.0, 2.0], 1, 1, 2);
    assert_eq!(similarity_sum(&lonely, 1.0, 0, 0).unwrap(), vec![0.0]);
    assert_eq!(dissimilarity_sum(&lonely, 1, 1.0, None, 0, 0).unwrap(), vec![0.0]);
}

#[test]
fn a_radius_below_every_spacing_collapses_the_sum_to_zero() {
    let view = raster(&[1.0, 2.0, 5.0, 9.0, 10.0, 20.0, 7.0, 7.0], 2, 2, 2);
    let result = dissimilarity_sum(&view, 2, 1.0, Some(0.5), 0, 0).unwrap();
    assert_eq!(result, vec![0.0, 0.0, 0.0, 0.0]);
    let wide = dissimilarity_sum(&view, 2, 1.0, Some(5.0), 0, 0).unwrap();
    assert!(wide.iter().all(|v| *v > 0.0));
}

#[test]
fn same_seed_same_output() {
    let values: Vec<f32> = (0..120).map(|i| ((i * 37) % 17) as f32).collect();
    let view = raster(&values, 6, 10, 2);
    let a = dissimilarity_sum(&view, 10, 1.5, Some(3.0), 12, 99).unwrap();
    let b = dissimilarity_sum(&view, 10, 1.5, Some(3.0), 12, 99).unwrap();
    assert_eq!(a, b);
    let c = similarity_sum(&view, 1.5, 12, 99).unwrap();
    let d = similarity_sum(&view, 1.5, 12, 99).unwrap();
    assert_eq!(c, d);
}

#[test]
fn min_distance_is_zero_on_a_sample_cell() {
    let view = raster(&[1.0, 2.0, 4.0, 6.0, 1.0, 3.0], 3, 1, 2);
    let m = min_distance(&view, 1, &vec![Some((1, 0))]).unwrap();
    assert_eq!(m, vec![5.0, 0.0, (9.0f64 + 9.0).sqrt()]);
    let two = min_distance(&view, 1, &vec![Some((1, 0)), Some((0, 0))]).unwrap();
    assert_eq!(two, vec![0.0, 0.0, 1.0]);
}

#[test]
fn min_distance_fails_without_a_panel() {
    let view = raster(&[1.0, 2.0, f32::NAN, 6.0], 2, 1, 2);
    assert_eq!(min_distance(&view, 1, &vec![None, Some((1, 0)), Some((2, 0))]), Err(EngineError::EmptyReference));
}

#[test]
fn kernels_fail_before_any_work_on_a_bad_bandwidth() {
    let view = raster(&[1.0, 2.0, 4.0, 6.0], 2, 1, 2);
    assert_eq!(dissimilarity_sum(&view, 1, 0.0, None, 0, 0), Err(EngineError::NumericParameter));
    assert_eq!(dissimilarity_sum(&view, 1, -1.0, Some(3.0), 5, 9), Err(EngineError::NumericParameter));
    assert_eq!(similarity_sum(&view, f64::NAN, 0, 0), Err(EngineError::NumericParameter));
}
