use map_dump::cooccurrence::{isqrt, matrix_vec, normalize_correlation, reduce_samples,
    sample_counts, sample_matrix, second_moment_mean, Matrix, CORR_SCALE};
use map_dump::geo_coord::{VecGeoCoord, VEC_SCALE};

fn matrix(rows: &[&[u64]]) -> Matrix {
    Matrix { data: rows.iter().map(|r| r.to_vec()).collect() }
}

fn rows(m: Matrix) -> Vec<Vec<u64>> {
    matrix_vec(m)
}

#[test]
fn zeros_and_add() {
    let z = Matrix::zeros(2);
    assert_eq!(rows(z), vec![vec![0, 0], vec![0, 0]]);
    let a = matrix(&[&[1, 2], &[3, 4]]);
    let b = matrix(&[&[10, 20], &[30, 40]]);
    assert_eq!(rows(a.add(&b)), vec![vec![11, 22], vec![33, 44]]);
}

#[test]
fn accumulation_order_does_not_matter() {
    let a = matrix(&[&[1, 2], &[3, 4]]);
    let b = matrix(&[&[5, 0], &[7, 1]]);
    let c = matrix(&[&[2, 2], &[2, 2]]);
    let forward = reduce_samples(
        vec![
            matrix(&[&[1, 2], &[3, 4]]),
            matrix(&[&[5, 0], &[7, 1]]),
            matrix(&[&[2, 2], &[2, 2]]),
        ],
        2,
    );
    let backward = reduce_samples(
        vec![
            matrix(&[&[2, 2], &[2, 2]]),
            matrix(&[&[5, 0], &[7, 1]]),
            matrix(&[&[1, 2], &[3, 4]]),
        ],
        2,
    );
    assert_eq!(rows(forward), rows(backward));
    let stepwise = a.add(&b).add(&c);
    let grouped = a.add(&b.add(&c));
    assert_eq!(rows(stepwise), rows(grouped));
}

#[test]
fn isqrt_values() {
    for (x, r) in [(0u64, 0u64), (1, 1), (2, 1), (3, 1), (4, 2), (15, 3), (16, 4), (17, 4)] {
        assert_eq!(isqrt(x), r);
    }
    assert_eq!(isqrt(u64::MAX), 0xFFFF_FFFF);
    assert_eq!(isqrt(1_000_000 * 1_000_000), 1_000_000);
}

#[test]
fn correlation_diagonal_is_unit() {
    // raw cooccurrence counts of three entities, each sampled at least once
    let cooc = matrix(&[&[4, 2, 0], &[2, 9, 3], &[0, 3, 1]]);
    let corr = normalize_correlation(&cooc);
    let r = rows(corr);
    assert_eq!(r[0][0], CORR_SCALE);
    assert_eq!(r[1][1], CORR_SCALE);
    assert_eq!(r[2][2], CORR_SCALE);
    // off-diagonal: 2 / sqrt(4 * 9) = 1/3, at scale
    assert_eq!(r[0][1], 2 * CORR_SCALE / 6);
    // an unsampled pairing stays zero
    assert_eq!(r[0][2], 0);
}

#[test]
fn correlation_floors_empty_diagonal() {
    let cooc = matrix(&[&[0, 0], &[0, 5]]);
    let corr = normalize_correlation(&cooc);
    let r = rows(corr);
    // the unsampled entity divides by the floor of one, not by zero
    assert_eq!(r[0][0], 0);
    assert_eq!(r[1][1], CORR_SCALE);
}

#[test]
fn second_moment_divides_by_sample_count() {
    let m = matrix(&[&[10, 5], &[7, 3]]);
    let mean = second_moment_mean(&m, 2);
    assert_eq!(rows(mean), vec![vec![5, 2], vec![3, 1]]);
}

#[test]
fn sampling_counts_nearby_locations() {
    // entity 0 sits at the sample point, entity 1 on the opposite side
    let here = VecGeoCoord(VEC_SCALE, 0, 0);
    let nearby = VecGeoCoord(VEC_SCALE - 5, 5, 0);
    let far = VecGeoCoord(-VEC_SCALE, 0, 0);
    let pairs = vec![(0usize, here), (0usize, nearby), (1usize, far)];
    // cosine threshold just below one: only points essentially at the
    // sample point count
    let cos_radius = VEC_SCALE * VEC_SCALE - 100_000_000_000;
    let counts = sample_counts(&pairs, 2, &here, cos_radius);
    assert_eq!(counts, vec![2, 0]);
    let m = sample_matrix(&pairs, 2, &here, cos_radius);
    assert_eq!(rows(m), vec![vec![4, 0], vec![0, 0]]);
}

#[test]
fn sample_matrix_is_symmetric() {
    let a = VecGeoCoord(VEC_SCALE, 0, 0);
    let b = VecGeoCoord(0, VEC_SCALE, 0);
    let pairs = vec![(0usize, a), (1usize, a), (1usize, a), (2usize, b)];
    let m = sample_matrix(&pairs, 3, &a, 0);
    let r = rows(m);
    for i in 0..3 {
        for j in 0..3 {
            assert_eq!(r[i][j], r[j][i]);
        }
    }
    assert_eq!(r[0][1], 2);
    assert_eq!(r[1][1], 4);
}
