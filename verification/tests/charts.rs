use core_sim::arith::Operation;
use core_sim::chart::{
    greater, highest, histogram, lesser, lowest, price_range, GREATEST_FINITE, HISTOGRAM_BINS,
    LEAST_FINITE,
};

fn unit(op: Operation, a: u64, b: u64) -> u64 {
    let x = f64::from_bits(a);
    let y = f64::from_bits(b);
    let r = match op {
        Operation::Add => x + y,
        Operation::Subtract => x - y,
        Operation::Multiply => x * y,
        Operation::Divide => x / y,
        Operation::SquareRoot => x.sqrt(),
        Operation::Exponential => x.exp(),
        Operation::Logarithm => x.ln(),
        Operation::FromCount => a as f64,
        Operation::ToCount => return x as u64,
    };
    r.to_bits()
}

fn patterns(xs: &[f64]) -> Vec<u64> {
    xs.iter().map(|x| x.to_bits()).collect()
}

fn spread(count: usize, seed: u64) -> Vec<f64> {
    let mut state = seed;
    let mut out = Vec::new();
    for _ in 0..count {
        state = state.wrapping_mul(6364136223846793005).wrapping_add(1442695040888963407);
        let u = (state >> 11) as f64 / (1u64 << 53) as f64;
        out.push(50.0 + u * u * 150.0);
    }
    out
}

/// The bins as the drawing code would count them in doubles.
fn direct_bins(data: &[f64]) -> (f64, f64, f64, Vec<usize>) {
    let max = data.iter().cloned().fold(f64::MIN, f64::max);
    let min = data.iter().cloned().fold(f64::MAX, f64::min);
    let bins = 30;
    let step = (max - min) / bins as f64;
    let mut freq = vec![0usize; bins];
    for &v in data {
        let mut idx = ((v - min) / step) as usize;
        if idx >= bins {
            idx = bins - 1;
        }
        freq[idx] += 1;
    }
    (min, max, step, freq)
}

#[test]
fn histogram_agrees_with_counting_in_doubles() {
    for seed in 1..10u64 {
        let data = spread(500 + seed as usize, seed);
        let (min, max, step, freq) = direct_bins(&data);
        let h = histogram(&patterns(&data), &unit);
        assert_eq!(h.low, min.to_bits());
        assert_eq!(h.high, max.to_bits());
        assert_eq!(h.width, step.to_bits());
        assert_eq!(h.counts, freq);
        assert_eq!(h.tallest, *freq.iter().max().unwrap());
        assert_eq!(h.counts.iter().sum::<usize>(), data.len());
    }
}

#[test]
fn histogram_has_thirty_bins() {
    assert_eq!(HISTOGRAM_BINS, 30);
    let h = histogram(&patterns(&[1.0, 2.0]), &unit);
    assert_eq!(h.counts.len(), 30);
    assert_eq!(h.counts[0], 1);
    assert_eq!(h.counts[29], 1);
    assert_eq!(h.tallest, 1);
}

#[test]
fn histogram_of_nothing_is_empty() {
    let h = histogram(&Vec::new(), &unit);
    assert_eq!(h.low, f64::MAX.to_bits());
    assert_eq!(h.high, f64::MIN.to_bits());
    assert_eq!(h.counts, vec![0usize; 30]);
    assert_eq!(h.tallest, 0);
}

#[test]
fn histogram_of_equal_values_fills_the_first_bin() {
    let h = histogram(&patterns(&[7.5; 12]), &unit);
    assert_eq!(f64::from_bits(h.width), 0.0);
    assert_eq!(h.counts[0], 12);
    assert_eq!(h.tallest, 12);
    assert_eq!(h.counts.iter().sum::<usize>(), 12);
}

#[test]
fn bin_edges_step_by_the_width() {
    let data = spread(100, 3);
    let (min, _, step, _) = direct_bins(&data);
    let h = histogram(&patterns(&data), &unit);
    for i in 0..30usize {
        let x0 = min + i as f64 * step;
        let x1 = x0 + step;
        assert_eq!(h.bin_edges(i, &unit), (x0.to_bits(), x1.to_bits()));
    }
}

#[test]
fn price_range_spans_all_paths() {
    let paths = vec![vec![3.0f64, 9.5, 2.0], vec![], vec![-4.0, 11.0], vec![0.5]];
    let as_bits: Vec<Vec<u64>> = paths.iter().map(|p| patterns(p)).collect();
    let max = paths.iter().flatten().cloned().fold(f64::MIN, f64::max);
    let min = paths.iter().flatten().cloned().fold(f64::MAX, f64::min);
    assert_eq!(price_range(&as_bits), (min.to_bits(), max.to_bits()));
    assert_eq!(price_range(&as_bits), ((-4.0f64).to_bits(), 11.0f64.to_bits()));
    assert_eq!(price_range(&Vec::new()), (GREATEST_FINITE, LEAST_FINITE));
    assert_eq!(GREATEST_FINITE, f64::MAX.to_bits());
    assert_eq!(LEAST_FINITE, f64::MIN.to_bits());
}

#[test]
fn extremes_pass_over_what_is_not_a_number() {
    let data = patterns(&[f64::NAN, 2.0, f64::NAN, -1.0, 5.0, f64::NAN]);
    assert_eq!(highest(LEAST_FINITE, &data), 5.0f64.to_bits());
    assert_eq!(lowest(GREATEST_FINITE, &data), (-1.0f64).to_bits());
    let infinite = patterns(&[f64::NEG_INFINITY, f64::INFINITY]);
    assert_eq!(highest(LEAST_FINITE, &infinite), f64::INFINITY.to_bits());
    assert_eq!(lowest(GREATEST_FINITE, &infinite), f64::NEG_INFINITY.to_bits());
    assert_eq!(highest(LEAST_FINITE, &patterns(&[f64::NEG_INFINITY])), f64::MIN.to_bits());
}

#[test]
fn greater_and_lesser_agree_with_the_standard_library() {
    let samples =
        [f64::NEG_INFINITY, -3.0, -5e-324, 0.0, 5e-324, 1.0, 2.5, f64::MAX, f64::INFINITY, f64::NAN];
    for a in samples {
        for b in samples {
            if a == b {
                continue;
            }
            let g = f64::from_bits(greater(a.to_bits(), b.to_bits()));
            let l = f64::from_bits(lesser(a.to_bits(), b.to_bits()));
            if a.is_nan() && b.is_nan() {
                assert!(g.is_nan() && l.is_nan());
            } else {
                assert_eq!(g.to_bits(), a.max(b).to_bits());
                assert_eq!(l.to_bits(), a.min(b).to_bits());
            }
        }
    }
    assert_eq!(greater(0.0f64.to_bits(), (-0.0f64).to_bits()), 0.0f64.to_bits());
    assert_eq!(greater((-0.0f64).to_bits(), 0.0f64.to_bits()), (-0.0f64).to_bits());
    assert_eq!(lesser(0.0f64.to_bits(), (-0.0f64).to_bits()), 0.0f64.to_bits());
}
