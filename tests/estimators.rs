use info_theory::binning::{bin_counts, calc_bins, which_bin};
use info_theory::density::{entropy_source, kde_grid, pair_source, Mode, PairSource, Source};
use info_theory::error::InfoError;
use info_theory::estimate::{entropy_masses, nonzero_counts, sample_edges};
use info_theory::joint::joint_pmf;
use info_theory::mutual::{mutual_information_table, MiTable};
use info_theory::stats::{max, mean, min};
use info_theory::width::calc_bin_width_fd;

fn sample() -> Vec<i64> {
    vec![9800, 7400, 1500, 3000, 9200, 6000, 7500, 10100, 9000, 10500]
}

fn bits(masses: &[u64]) -> f64 {
    let n: u64 = masses.iter().sum();
    -masses
        .iter()
        .map(|&c| {
            let p = c as f64 / n as f64;
            p * p.log2()
        })
        .sum::<f64>()
}

fn mi_bits(t: &MiTable) -> f64 {
    let n = t.total as f64;
    let mut mi = 0.0;
    for (a, row) in t.joint.iter().enumerate() {
        for (b, &c) in row.iter().enumerate() {
            let pxy = c as f64 / n;
            let px = t.x_counts[a] as f64 / n;
            let py = t.y_counts[b] as f64 / n;
            if pxy > 0.0 && px > 0.0 && py > 0.0 {
                mi += pxy * (pxy / (px * py)).log2();
            }
        }
    }
    mi
}

#[test]
fn it_works() {
    let data = sample();
    let max_test = max(&vec![0, 1000]);
    assert_eq!(max_test, 1000);
    let min_test = min(&vec![0, 1000]);
    assert_eq!(min_test, 0);
    let mean_test = mean(&vec![1000, 2000, 3000]);
    assert_eq!(mean_test, Some(2000));
    let bins_test = calc_bins(1500, 10500, 1500).unwrap();
    assert_eq!(bins_test, vec![1499, 3000, 4500, 6000, 7500, 9000, 10500]);
    let result2 = bin_counts(&data, &bins_test);
    assert_eq!(result2, vec![2, 0, 1, 2, 1, 4]);
}

#[test]
fn mean_rounds_down_and_rejects_empty() {
    assert_eq!(mean(&vec![1, 2]), Some(1));
    assert_eq!(mean(&vec![-1, -2]), Some(-2));
    assert_eq!(mean(&vec![]), None);
}

#[test]
fn min_max_of_sample() {
    assert_eq!(min(&sample()), 1500);
    assert_eq!(max(&sample()), 10500);
    assert_eq!(min(&vec![-5]), -5);
}

#[test]
fn entropy_with_width_one_and_a_half() {
    let m = entropy_masses(&sample(), Some(1500)).unwrap();
    assert_eq!(m, vec![2, 1, 2, 1, 4]);
    assert!((bits(&m) - 2.1219280948873624).abs() < 1e-12);
}

#[test]
fn entropy_with_width_two_and_a_half() {
    let m = entropy_masses(&sample(), Some(2500)).unwrap();
    assert_eq!(m, vec![2, 1, 3, 4]);
    assert!((bits(&m) - 1.8464393446710154).abs() < 1e-12);
}

#[test]
fn entropy_is_never_negative() {
    let samples = vec![sample(), vec![0, 0, 0, 5000], vec![-3000, 2000, 2000, 2000, 9000]];
    for s in samples {
        let m = entropy_masses(&s, Some(700)).unwrap();
        assert!(bits(&m) >= 0.0);
    }
}

#[test]
fn single_value_has_zero_entropy() {
    for w in [None, Some(1500), Some(1)] {
        let m = entropy_masses(&vec![4200], w).unwrap();
        assert_eq!(m, vec![1]);
        assert_eq!(bits(&m), 0.0);
    }
    assert!(matches!(entropy_source(&vec![4200], Mode::Kde), Ok(Source::Raw)));
}

#[test]
fn masses_sum_to_sample_size() {
    let s = sample();
    let m = entropy_masses(&s, None).unwrap();
    assert_eq!(m.iter().sum::<u64>(), s.len() as u64);
    assert!(m.iter().all(|&c| c > 0));
    let total: f64 = m.iter().map(|&c| c as f64 / s.len() as f64).sum();
    assert!((total - 1.0).abs() < 1e-9);
}

#[test]
fn default_width_is_freedman_diaconis() {
    assert_eq!(calc_bin_width_fd(&sample()), Ok(3527));
    let m = entropy_masses(&sample(), None).unwrap();
    assert_eq!(m, vec![2, 3, 5]);
}

#[test]
fn fd_width_of_constant_sample_is_zero() {
    assert_eq!(calc_bin_width_fd(&vec![700, 700, 700]), Ok(0));
    assert_eq!(calc_bin_width_fd(&vec![700]), Ok(0));
}

#[test]
fn entropy_errors() {
    assert_eq!(entropy_masses(&vec![], None), Err(InfoError::EmptySample));
    assert_eq!(entropy_masses(&sample(), Some(0)), Err(InfoError::InvalidWidth));
    assert_eq!(entropy_masses(&sample(), Some(-10)), Err(InfoError::InvalidWidth));
    assert_eq!(entropy_masses(&vec![5, 5, 5], None), Err(InfoError::DegenerateSample));
}

#[test]
fn bins_strictly_increase_and_cover_range() {
    let e = calc_bins(-2300, 4100, 700).unwrap();
    assert_eq!(e[0], -2301);
    assert!(e.windows(2).all(|w| w[0] < w[1]));
    assert!(*e.last().unwrap() >= 4100);
    assert_eq!(e.len(), 11);
}

#[test]
fn bins_of_equal_bounds_hold_one_bin() {
    assert_eq!(calc_bins(3000, 3000, 500), Ok(vec![2999, 3500]));
}

#[test]
fn bin_counts_add_up_to_values_in_range() {
    let e = vec![0, 10, 20, 30];
    let data = vec![0, 5, 10, 11, 30, 31, -4, 25];
    let c = bin_counts(&data, &e);
    assert_eq!(c, vec![2, 1, 2]);
    assert_eq!(c.iter().sum::<u64>(), 5);
}

#[test]
fn which_bin_uses_closed_right_bins() {
    let e = vec![0, 10, 20];
    assert_eq!(which_bin(&vec![1, 10, 11, 20], &e), Ok(vec![0, 0, 1, 1]));
    assert_eq!(which_bin(&vec![1, 21], &e), Err(InfoError::OutOfRange));
    assert_eq!(which_bin(&vec![0], &e), Err(InfoError::OutOfRange));
}

#[test]
fn joint_counts_pairs() {
    let t = joint_pmf(&vec![0, 1, 1, 2], &vec![1, 0, 0, 1]);
    assert_eq!(t, vec![vec![0, 1], vec![2, 0], vec![0, 1]]);
}

#[test]
fn nonzero_counts_drop_empty_bins() {
    assert_eq!(nonzero_counts(&vec![0, 3, 0, 0, 2, 0]), vec![3, 2]);
    assert_eq!(nonzero_counts(&vec![0, 0]), Vec::<u64>::new());
}

#[test]
fn sample_edges_enclose_sample() {
    let e = sample_edges(&sample(), 1500).unwrap();
    assert_eq!(e, vec![1499, 3000, 4500, 6000, 7500, 9000, 10500]);
}

#[test]
fn information_of_sample_with_itself_is_its_entropy() {
    let x = sample();
    let t = mutual_information_table(&x, &x).unwrap();
    let h = bits(&entropy_masses(&x, None).unwrap());
    assert!((mi_bits(&t) - h).abs() < 1e-9);
    assert_eq!(t.x_counts, t.y_counts);
    assert_eq!(t.total, 10);
}

#[test]
fn information_is_bounded_by_each_entropy() {
    let x = sample();
    let y = vec![1800, 1400, 2500, 3000, 1200, 2000, 2500, 100, 1900, 2300];
    let t = mutual_information_table(&x, &y).unwrap();
    let hx = bits(&entropy_masses(&x, None).unwrap());
    let hy = bits(&entropy_masses(&y, None).unwrap());
    let mi = mi_bits(&t);
    assert!(mi >= -1e-12);
    assert!(mi <= hx.min(hy) + 1e-9);
    for (a, row) in t.joint.iter().enumerate() {
        for (b, &c) in row.iter().enumerate() {
            assert!(c <= t.x_counts[a] && c <= t.y_counts[b]);
        }
    }
}

#[test]
fn mismatched_lengths_fail() {
    let x = sample();
    let y = vec![1000, 2000];
    assert!(matches!(mutual_information_table(&x, &y), Err(InfoError::LengthMismatch)));
    assert!(matches!(pair_source(&x, &y, Mode::Data), Err(InfoError::LengthMismatch)));
    assert!(matches!(pair_source(&x, &y, Mode::Kde), Err(InfoError::LengthMismatch)));
}

#[test]
fn mutual_information_errors() {
    assert!(matches!(mutual_information_table(&vec![], &vec![]), Err(InfoError::EmptySample)));
    assert!(matches!(
        mutual_information_table(&vec![1, 1, 1], &vec![1, 2, 3]),
        Err(InfoError::DegenerateSample)
    ));
}

#[test]
fn kde_grid_spans_sample_in_tenths() {
    let g = kde_grid(&vec![1500, 10500]).unwrap();
    assert_eq!(g.len(), 91);
    assert_eq!(g[0], 1500);
    assert_eq!(*g.last().unwrap(), 10500);
    assert_eq!(kde_grid(&vec![-150]).unwrap(), vec![-200, -100]);
    assert_eq!(kde_grid(&vec![1234, 1250]).unwrap(), vec![1200, 1300]);
    assert_eq!(kde_grid(&vec![]), Err(InfoError::EmptySample));
}

#[test]
fn sources_by_mode() {
    assert!(matches!(entropy_source(&sample(), Mode::Data), Ok(Source::Raw)));
    match entropy_source(&sample(), Mode::Kde) {
        Ok(Source::Resample(g)) => assert_eq!(g, kde_grid(&sample()).unwrap()),
        other => panic!("unexpected {:?}", other),
    }
    assert!(matches!(entropy_source(&vec![2000, 2000], Mode::Kde), Ok(Source::Raw)));
    assert!(matches!(pair_source(&sample(), &sample(), Mode::Data), Ok(PairSource::Raw)));
    assert!(matches!(
        pair_source(&sample(), &sample(), Mode::Kde),
        Ok(PairSource::Resample(_, _))
    ));
}

#[test]
fn joint_rows_and_columns_match_marginals() {
    let x = sample();
    let y = vec![1800, 1400, 2500, 3000, 1200, 2000, 2500, 100, 1900, 2300];
    let t = mutual_information_table(&x, &y).unwrap();
    for (a, row) in t.joint.iter().enumerate() {
        assert_eq!(row.iter().sum::<u64>(), t.x_counts[a]);
    }
    for b in 0..t.joint[0].len() {
        let col: u64 = t.joint.iter().map(|row| row[b]).sum();
        assert_eq!(col, t.y_counts[b]);
    }
    assert_eq!(t.x_counts.iter().sum::<u64>(), 10);
    assert_eq!(t.y_counts.iter().sum::<u64>(), 10);
}

#[test]
fn fd_width_stays_positive_for_small_positive_spread() {
    let s = vec![0, 0, 0, 1, 1, 1, 1, 1, 1];
    assert_eq!(calc_bin_width_fd(&s), Ok(1));
    let m = entropy_masses(&s, None).unwrap();
    assert_eq!(m, vec![9]);
    let t = mutual_information_table(&s, &s).unwrap();
    assert_eq!(t.x_counts, vec![9]);
    let wide = vec![0, 0, 0, 0, 0, 0, 0, 0, 2, 2, 2];
    assert_eq!(calc_bin_width_fd(&wide), Ok(1));
    assert_eq!(entropy_masses(&wide, None).unwrap(), vec![8, 3]);
}

#[test]
fn fd_width_of_empty_sample_fails() {
    assert_eq!(calc_bin_width_fd(&vec![]), Err(InfoError::EmptySample));
}

#[test]
fn calc_bins_rejects_bad_widths() {
    assert_eq!(calc_bins(0, 1000, 0), Err(InfoError::InvalidWidth));
    assert_eq!(calc_bins(0, 1000, -5), Err(InfoError::InvalidWidth));
    assert_eq!(calc_bins(0, 1000, i64::MAX), Err(InfoError::InvalidWidth));
}

#[test]
fn calc_bins_wider_than_span_gives_one_bin() {
    let w = 1_000_000_000_000_000;
    assert_eq!(calc_bins(-2000, 5000, w), Ok(vec![-2001, -2000 + w]));
    let m = entropy_masses(&vec![-2000, 100, 5000], Some(w)).unwrap();
    assert_eq!(m, vec![3]);
}

#[test]
fn joint_table_totals_pair_count() {
    let x = sample();
    let y = vec![1800, 1400, 2500, 3000, 1200, 2000, 2500, 100, 1900, 2300];
    let t = mutual_information_table(&x, &y).unwrap();
    let all: u64 = t.joint.iter().map(|row| row.iter().sum::<u64>()).sum();
    assert_eq!(all, t.total);
    let p: f64 = t.joint.iter().flatten().map(|&c| c as f64 / t.total as f64).sum();
    assert!((p - 1.0).abs() < 1e-9);
}
