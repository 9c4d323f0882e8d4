use core_sim::arith::Operation;
use core_sim::bits::{is_finite, is_nan, is_positive, magnitude, order_key};
use core_sim::fault::Fault;
use core_sim::order::sort_ascending;
use core_sim::return_stats::{add_up, check_positive, log_returns, mean_std};
use core_sim::summary::{check_finite, nearest_rank, percentile, summary};

fn ieee(op: Operation, a: u64, b: u64) -> u64 {
    let x = f64::from_bits(a);
    let y = f64::from_bits(b);
    let r = match op {
        Operation::Add => x + y,
        Operation::Subtract => x - y,
        Operation::Multiply => x * y,
        Operation::Divide => x / y,
        Operation::SquareRoot => x.sqrt(),
        Operation::Exponential => x.exp(),
        Operation::Logarithm => x.ln(),
        Operation::FromCount => a as f64,
        Operation::ToCount => return x as u64,
    };
    r.to_bits()
}

fn bits(xs: &[f64]) -> Vec<u64> {
    xs.iter().map(|x| x.to_bits()).collect()
}

fn reals(xs: &[u64]) -> Vec<f64> {
    xs.iter().map(|x| f64::from_bits(*x)).collect()
}

fn close(a: f64, b: f64, tolerance: f64) -> bool {
    (a - b).abs() <= tolerance
}

/// A small linear congruential generator, so that the samples below are
/// the same on every run.
fn scrambled(count: usize, seed: u64) -> Vec<f64> {
    let mut state = seed;
    let mut out = Vec::new();
    for _ in 0..count {
        state = state.wrapping_mul(6364136223846793005).wrapping_add(1442695040888963407);
        let unit = (state >> 11) as f64 / (1u64 << 53) as f64;
        out.push((unit - 0.5) * 200.0);
    }
    out
}

#[test]
fn log_returns_of_three_prices() {
    let prices = bits(&[100.0, 105.0, 100.5]);
    let r = reals(&log_returns(&prices, &ieee).unwrap());
    assert_eq!(r.len(), 2);
    assert!(close(r[0], 0.04879, 1e-5));
    assert!(close(r[1], -0.04444, 1e-3));
    assert_eq!(r[0].to_bits(), (105.0f64 / 100.0).ln().to_bits());
    assert_eq!(r[1].to_bits(), (100.5f64 / 105.0).ln().to_bits());
}

#[test]
fn mean_std_of_the_returns_of_three_prices() {
    let prices = bits(&[100.0, 105.0, 100.5]);
    let r = log_returns(&prices, &ieee).unwrap();
    let (mean, std) = mean_std(&r, &ieee).unwrap();
    let (a, b) = (f64::from_bits(r[0]), f64::from_bits(r[1]));
    let expected_mean = (a + b) / 2.0;
    let expected_std =
        (((a - expected_mean) * (a - expected_mean) + (b - expected_mean) * (b - expected_mean))
            / 1.0)
            .sqrt();
    assert_eq!(mean, expected_mean.to_bits());
    assert_eq!(std, expected_std.to_bits());
    assert!(close(f64::from_bits(mean), (1.005f64).ln() / 2.0, 1e-12));
    assert!(close(f64::from_bits(mean), -0.00017, 3e-3));
}

#[test]
fn mean_std_of_a_single_return_is_insufficient_data() {
    let one = bits(&[0.01]);
    assert_eq!(mean_std(&one, &ieee), Err(Fault::InsufficientData));
    let none: Vec<u64> = Vec::new();
    assert_eq!(mean_std(&none, &ieee), Err(Fault::InsufficientData));
}

#[test]
fn mean_std_uses_the_unbiased_divisor() {
    let xs = bits(&[2.0, 4.0, 4.0, 4.0, 5.0, 5.0, 7.0, 9.0]);
    let (mean, std) = mean_std(&xs, &ieee).unwrap();
    assert_eq!(f64::from_bits(mean), 5.0);
    assert_eq!(f64::from_bits(std), (32.0f64 / 7.0).sqrt());
}

#[test]
fn add_up_adds_from_the_left() {
    let xs = bits(&[1e16, 1.0, -1e16, 1.0]);
    let expected = ((1e16f64 + 1.0) + -1e16) + 1.0;
    assert_eq!(add_up(&xs, &ieee), expected.to_bits());
    let single = bits(&[-0.0]);
    assert_eq!(add_up(&single, &ieee), (-0.0f64).to_bits());
    assert_eq!(add_up(&bits(&[0.0]), &ieee), 0.0f64.to_bits());
    assert_eq!(add_up(&Vec::new(), &ieee), (-0.0f64).to_bits());
    let xs = [0.1f64, 0.2, 0.3, 0.4];
    assert_eq!(add_up(&bits(&xs), &ieee), xs.iter().sum::<f64>().to_bits());
}

#[test]
fn log_returns_need_two_prices() {
    assert_eq!(log_returns(&Vec::new(), &ieee), Err(Fault::InsufficientData));
    assert_eq!(log_returns(&bits(&[100.0]), &ieee), Err(Fault::InsufficientData));
    assert_eq!(log_returns(&bits(&[-1.0]), &ieee), Err(Fault::InsufficientData));
}

#[test]
fn log_returns_refuse_prices_that_are_not_positive() {
    assert_eq!(log_returns(&bits(&[100.0, 0.0, 101.0]), &ieee), Err(Fault::Domain));
    assert_eq!(log_returns(&bits(&[100.0, -0.0]), &ieee), Err(Fault::Domain));
    assert_eq!(log_returns(&bits(&[-3.0, 100.0]), &ieee), Err(Fault::Domain));
    assert_eq!(log_returns(&bits(&[100.0, f64::NAN]), &ieee), Err(Fault::Domain));
    assert_eq!(log_returns(&bits(&[100.0, f64::NEG_INFINITY]), &ieee), Err(Fault::Domain));
    assert!(check_positive(&bits(&[1.0, f64::MIN_POSITIVE, 5e-324, f64::MAX])));
    assert!(!check_positive(&bits(&[1.0, 0.0])));
    assert!(!check_positive(&bits(&[1.0, f64::INFINITY])));
    assert_eq!(log_returns(&bits(&[100.0, f64::INFINITY]), &ieee), Err(Fault::Domain));
}

#[test]
fn prices_rebuilt_from_log_returns_match() {
    let prices = [100.0f64, 105.0, 100.5, 98.25, 110.0, 109.5, 120.75];
    let r = reals(&log_returns(&bits(&prices), &ieee).unwrap());
    assert_eq!(r.len(), prices.len() - 1);
    let mut price = prices[0];
    for i in 0..r.len() {
        price *= r[i].exp();
        assert!(close(price, prices[i + 1], 1e-9 * prices[i + 1]));
    }
}

#[test]
fn summary_of_one_to_five() {
    let s = summary(&bits(&[1.0, 2.0, 3.0, 4.0, 5.0]), &ieee).unwrap();
    assert_eq!(f64::from_bits(s.mean), 3.0);
    assert!(close(f64::from_bits(s.std), 1.5811, 1e-4));
    assert_eq!(f64::from_bits(s.std), 2.5f64.sqrt());
    assert_eq!(f64::from_bits(s.median), 3.0);
    assert_eq!(f64::from_bits(s.p5), 1.0);
    assert_eq!(f64::from_bits(s.p25), 2.0);
    assert_eq!(f64::from_bits(s.p75), 4.0);
    assert_eq!(f64::from_bits(s.p95), 5.0);
}

#[test]
fn summary_sorts_before_it_picks() {
    let s = summary(&bits(&[5.0, 1.0, 4.0, 2.0, 3.0]), &ieee).unwrap();
    assert_eq!(f64::from_bits(s.median), 3.0);
    assert_eq!(f64::from_bits(s.p5), 1.0);
    assert_eq!(f64::from_bits(s.p95), 5.0);
    assert_eq!(f64::from_bits(s.mean), 3.0);
}

#[test]
fn summary_takes_the_mean_over_the_sorted_copy() {
    let sample = [1e16f64, 1.0, -1e16, 1.0, 3.0];
    let mut sorted = sample.to_vec();
    sorted.sort_by(|a, b| a.partial_cmp(b).unwrap());
    let n = sorted.len() as f64;
    let mean = sorted.iter().sum::<f64>() / n;
    let std = (sorted.iter().map(|x| (x - mean) * (x - mean)).sum::<f64>() / (n - 1.0)).sqrt();
    let s = summary(&bits(&sample), &ieee).unwrap();
    assert_eq!(s.mean, mean.to_bits());
    assert_eq!(s.std, std.to_bits());
}

#[test]
fn summary_refuses_small_samples() {
    assert_eq!(summary(&Vec::new(), &ieee), Err(Fault::InsufficientData));
    assert_eq!(summary(&bits(&[1.0]), &ieee), Err(Fault::InsufficientData));
    assert_eq!(summary(&bits(&[f64::NAN]), &ieee), Err(Fault::InsufficientData));
}

#[test]
fn summary_refuses_samples_that_are_not_finite() {
    assert_eq!(summary(&bits(&[1.0, f64::NAN, 2.0]), &ieee), Err(Fault::Domain));
    assert_eq!(summary(&bits(&[1.0, f64::INFINITY]), &ieee), Err(Fault::Domain));
    assert_eq!(summary(&bits(&[f64::NEG_INFINITY, 1.0]), &ieee), Err(Fault::Domain));
    assert!(check_finite(&bits(&[0.0, -0.0, f64::MAX, f64::MIN, 5e-324])));
    assert!(!check_finite(&bits(&[0.0, -f64::NAN])));
}

#[test]
fn percentiles_are_ordered_and_are_sample_elements() {
    for seed in 0..20u64 {
        let sample = scrambled(2 + (seed as usize) * 7, seed);
        let s = summary(&bits(&sample), &ieee).unwrap();
        let p: Vec<f64> = reals(&[s.p5, s.p25, s.median, s.p75, s.p95]);
        assert!(p[0] <= p[1] && p[1] <= p[2] && p[2] <= p[3] && p[3] <= p[4]);
        for value in [s.p5, s.p25, s.median, s.p75, s.p95] {
            assert!(sample.iter().any(|x| x.to_bits() == value));
        }
    }
}

#[test]
fn summary_agrees_with_a_direct_computation() {
    let sample = scrambled(1000, 7);
    let mut v = sample.clone();
    v.sort_by(|a, b| a.partial_cmp(b).unwrap());
    let mean = v.iter().sum::<f64>() / v.len() as f64;
    let std =
        (v.iter().map(|x| (x - mean) * (x - mean)).sum::<f64>() / (v.len() - 1) as f64).sqrt();
    let pick = |p: f64| v[((p / 100.0) * (v.len() as f64 - 1.0)).round() as usize];
    let s = summary(&bits(&sample), &ieee).unwrap();
    assert_eq!(s.mean, mean.to_bits());
    assert_eq!(s.std, std.to_bits());
    assert_eq!(s.median, pick(50.0).to_bits());
    assert_eq!(s.p5, pick(5.0).to_bits());
    assert_eq!(s.p25, pick(25.0).to_bits());
    assert_eq!(s.p75, pick(75.0).to_bits());
    assert_eq!(s.p95, pick(95.0).to_bits());
}

#[test]
fn nearest_rank_rounds_halves_up() {
    assert_eq!(nearest_rank(5, 5), Some(0));
    assert_eq!(nearest_rank(95, 5), Some(4));
    assert_eq!(nearest_rank(50, 5), Some(2));
    assert_eq!(nearest_rank(50, 4), Some(2));
    assert_eq!(nearest_rank(5, 11), Some(1));
    assert_eq!(nearest_rank(95, 11), Some(10));
    assert_eq!(nearest_rank(25, 11), Some(3));
    assert_eq!(nearest_rank(5, 10), Some(0));
    assert_eq!(nearest_rank(0, 10), Some(0));
    assert_eq!(nearest_rank(100, 10), Some(9));
    assert_eq!(nearest_rank(200, 10), Some(9));
    assert_eq!(nearest_rank(50, 1), Some(0));
    assert_eq!(nearest_rank(50, 0), None);
    assert_eq!(nearest_rank(255, usize::MAX), Some(usize::MAX - 1));
}

#[test]
fn nearest_rank_agrees_with_rounding_in_doubles() {
    for n in 1..3000usize {
        for p in [5u8, 25, 50, 75, 95] {
            let expected = ((p as f64 / 100.0) * (n as f64 - 1.0)).round() as usize;
            assert_eq!(nearest_rank(p, n), Some(expected));
        }
    }
}

#[test]
fn percentile_picks_the_element_at_the_rank() {
    let sorted = bits(&[10.0, 20.0, 30.0, 40.0]);
    assert_eq!(percentile(&sorted, 0), Ok(10.0f64.to_bits()));
    assert_eq!(percentile(&sorted, 50), Ok(30.0f64.to_bits()));
    assert_eq!(percentile(&sorted, 16), Ok(10.0f64.to_bits()));
    assert_eq!(percentile(&sorted, 17), Ok(20.0f64.to_bits()));
    assert_eq!(percentile(&sorted, 100), Ok(40.0f64.to_bits()));
    assert_eq!(percentile(&Vec::new(), 50), Err(Fault::InsufficientData));
}

#[test]
fn sort_agrees_with_the_standard_stable_sort() {
    for seed in 0..30u64 {
        let sample = scrambled((seed as usize) * 13, seed + 100);
        let mut expected = sample.clone();
        expected.sort_by(|a, b| a.partial_cmp(b).unwrap());
        assert_eq!(sort_ascending(&bits(&sample)), bits(&expected));
    }
}

#[test]
fn sort_keeps_the_two_zeros_in_their_order() {
    let sample = [0.0f64, 3.0, -0.0, -2.0, -0.0, 0.0, 1.0];
    let mut expected = sample.to_vec();
    expected.sort_by(|a, b| a.partial_cmp(b).unwrap());
    let sorted = sort_ascending(&bits(&sample));
    assert_eq!(sorted, bits(&expected));
    assert_eq!(sorted, bits(&[-2.0, 0.0, -0.0, -0.0, 0.0, 1.0, 3.0]));
}

#[test]
fn sort_of_nothing_and_of_one() {
    assert_eq!(sort_ascending(&Vec::new()), Vec::<u64>::new());
    assert_eq!(sort_ascending(&bits(&[4.5])), bits(&[4.5]));
    assert_eq!(sort_ascending(&bits(&[2.0, 1.0])), bits(&[1.0, 2.0]));
}

#[test]
fn classes_agree_with_the_standard_library() {
    let samples = [
        0.0f64,
        -0.0,
        1.0,
        -1.0,
        0.5,
        5e-324,
        -5e-324,
        f64::MIN_POSITIVE,
        f64::MAX,
        f64::MIN,
        f64::INFINITY,
        f64::NEG_INFINITY,
        f64::NAN,
        -f64::NAN,
        f64::from_bits(0x7FF0_0000_0000_0001),
        f64::from_bits(0xFFFF_FFFF_FFFF_FFFF),
    ];
    for x in samples {
        let b = x.to_bits();
        assert_eq!(is_nan(b), x.is_nan());
        assert_eq!(is_finite(b), x.is_finite());
        assert_eq!(is_positive(b), x > 0.0 && x.is_finite());
        assert_eq!(magnitude(b), x.abs().to_bits());
    }
    assert_eq!(core_sim::bits::HALF, 0.5f64.to_bits());
    assert_eq!(core_sim::bits::INFINITY, f64::INFINITY.to_bits());
    assert_eq!(core_sim::bits::SIGN_BIT, (-0.0f64).to_bits());
    assert_eq!(core_sim::bits::ZERO, 0.0f64.to_bits());
}

#[test]
fn order_key_orders_as_the_numbers_do() {
    let samples = [
        f64::NEG_INFINITY,
        f64::MIN,
        -2.5,
        -1.0,
        -5e-324,
        -0.0,
        0.0,
        5e-324,
        1.0,
        2.5,
        f64::MAX,
        f64::INFINITY,
    ];
    for a in samples {
        for b in samples {
            let (ka, kb) = (order_key(a.to_bits()), order_key(b.to_bits()));
            assert_eq!(ka < kb, a < b);
            assert_eq!(ka == kb, a == b);
        }
    }
    assert_eq!(order_key(0.0f64.to_bits()), 0);
    assert_eq!(order_key((-0.0f64).to_bits()), 0);
}
