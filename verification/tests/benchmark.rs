use membw::items::split_work_items;
use membw::params::{Params, BYTES_PER_VALUE};
use membw::worker::{accumulate_sum, accumulate_sum_paired};

use rand::rngs::StdRng;
use rand::{Rng, SeedableRng};

use std::time::Instant;

/// Draws `count` values in [0, 1) from the seeded generator, as bit patterns.
fn draw_unit_bits(seed: u64, count: usize) -> Vec<u64> {
    let mut rng = StdRng::seed_from_u64(seed);
    (0..count)
        .map(|_| rng.gen_range(0.0f64..1.0f64).to_bits())
        .collect()
}

/// The benchmark's combining function: 64-bit addition on bit patterns.
fn f64_add_bits(a: u64, b: u64) -> u64 {
    (f64::from_bits(a) + f64::from_bits(b)).to_bits()
}

#[test]
fn generation_deterministic_for_fixed_seed() {
    let a = draw_unit_bits(42, 64);
    let b = draw_unit_bits(42, 64);
    assert_eq!(a, b);
    let c = draw_unit_bits(43, 64);
    assert_ne!(a, c);
}

#[test]
fn drawn_values_lie_in_unit_interval() {
    let bits = draw_unit_bits(42, 256);
    for &w in bits.iter() {
        let v = f64::from_bits(w);
        assert!(0.0 <= v && v < 1.0);
    }
}

#[test]
fn default_params_match_build_constants() {
    let p = Params::default();
    assert_eq!(p.threads, 8);
    assert_eq!(p.buffer_size, 32 * 1024 * 1024 / 8);
    assert_eq!(p.iterations, 1000);
    assert_eq!(p.seed, 42);
    assert!(p.check_wf());
}

#[test]
fn generator_reports_total_bytes() {
    let p = Params::default();
    assert_eq!(p.total_generated_bytes(), 8 * 4194304 * 8);
    let q = Params {
        threads: 3,
        buffer_size: 5,
        iterations: 2,
        seed: 0,
    };
    assert!(q.check_wf());
    assert_eq!(q.total_generated_bytes(), 3 * 5 * BYTES_PER_VALUE);
}

#[test]
fn moved_bytes_formula() {
    let p = Params::default();
    assert_eq!(p.total_moved_bytes(), 8 * 4194304 * 1000 * 8);
    let q = Params {
        threads: 2,
        buffer_size: 4,
        iterations: 1,
        seed: 42,
    };
    assert_eq!(q.total_moved_bytes(), 64);
    let z = Params {
        threads: 2,
        buffer_size: 4,
        iterations: 0,
        seed: 42,
    };
    assert_eq!(z.total_moved_bytes(), 0);
}

#[test]
fn check_wf_rejects_overflowing_totals() {
    let p = Params {
        threads: usize::MAX,
        buffer_size: 2,
        iterations: 1,
        seed: 0,
    };
    assert!(!p.check_wf());
    let q = Params {
        threads: 1 << 31,
        buffer_size: 1 << 31,
        iterations: 1 << 31,
        seed: 0,
    };
    assert!(!q.check_wf());
}

#[test]
fn bandwidth_times_elapsed_equals_bytes() {
    for buffer_size in [1usize, 4, 64, 4096, 1 << 20] {
        let p = Params {
            threads: 8,
            buffer_size,
            iterations: 1000,
            seed: 42,
        };
        let bytes = p.total_moved_bytes() as f64;
        for elapsed in [0.003f64, 0.37, 1.0, 12.5] {
            let bandwidth = bytes / elapsed;
            assert!((bandwidth * elapsed - bytes).abs() <= bytes * 1e-12);
        }
    }
}

#[test]
fn worker_ids_unique_and_in_range() {
    let p = Params {
        threads: 4,
        buffer_size: 3,
        iterations: 1,
        seed: 9,
    };
    let values = draw_unit_bits(p.seed, p.total_values());
    let items = split_work_items(values, &p);
    assert_eq!(items.len(), 4);
    let mut seen = vec![false; 4];
    for item in items.iter() {
        assert!(item.id < p.threads);
        assert!(!seen[item.id]);
        seen[item.id] = true;
    }
}

#[test]
fn split_hands_out_exact_chunks() {
    let p = Params {
        threads: 3,
        buffer_size: 2,
        iterations: 1,
        seed: 0,
    };
    let values: Vec<u64> = vec![1, 2, 3, 4, 5, 6];
    let items = split_work_items(values, &p);
    assert_eq!(items[0].buffer, vec![1, 2]);
    assert_eq!(items[1].buffer, vec![3, 4]);
    assert_eq!(items[2].buffer, vec![5, 6]);
    assert_eq!(items[0].id, 0);
    assert_eq!(items[1].id, 1);
    assert_eq!(items[2].id, 2);
}

#[test]
fn scenario_two_workers_small_buffers() {
    let p = Params {
        threads: 2,
        buffer_size: 4,
        iterations: 1,
        seed: 42,
    };
    assert!(p.check_wf());
    let values = draw_unit_bits(p.seed, p.total_values());
    assert_eq!(values.len(), 8);
    let again = draw_unit_bits(p.seed, p.total_values());
    assert_eq!(values, again);
    for &w in values.iter() {
        let v = f64::from_bits(w);
        assert!(0.0 <= v && v < 1.0);
    }
    let items = split_work_items(values.clone(), &p);

    let start = Instant::now();
    let mut sums = Vec::new();
    for item in items.iter() {
        sums.push(accumulate_sum(f64_add_bits, &item.buffer, p.iterations));
    }
    let mut elapsed = start.elapsed().as_secs_f64();
    while elapsed <= 0.0 {
        elapsed = start.elapsed().as_secs_f64();
    }

    // Each worker sums exactly its own four values, once, front to back.
    for (t, sum) in sums.iter().enumerate() {
        let mut acc = 0.0f64;
        for &w in values[t * 4..(t + 1) * 4].iter() {
            acc += f64::from_bits(w);
        }
        assert_eq!(*sum, acc.to_bits());
    }

    assert_eq!(p.total_moved_bytes(), 2 * 4 * 1 * 8);
    assert!(elapsed > 0.0);
    let bytes = p.total_moved_bytes() as f64;
    let bandwidth = bytes / elapsed;
    assert!((bandwidth * elapsed - bytes).abs() <= bytes * 1e-12);
}

#[test]
fn zero_iterations_sum_is_zero() {
    let buf: Vec<u64> = vec![1.0f64.to_bits(), 2.5f64.to_bits(), 0.125f64.to_bits()];
    let scalar = accumulate_sum(f64_add_bits, &buf, 0);
    assert_eq!(scalar, 0);
    assert_eq!(f64::from_bits(scalar), 0.0);
    let paired = accumulate_sum_paired(f64_add_bits, &buf, 0);
    assert_eq!(paired, 0);
    assert_eq!(f64::from_bits(paired), 0.0);
}

#[test]
fn empty_buffer_sums_to_zero() {
    let buf: Vec<u64> = Vec::new();
    assert_eq!(accumulate_sum(f64_add_bits, &buf, 5), 0);
    assert_eq!(accumulate_sum_paired(f64_add_bits, &buf, 5), 0);
}

#[test]
fn accumulate_reads_every_element_every_pass() {
    // Powers of two sum exactly, so the expected values are not rounded.
    let buf: Vec<u64> = vec![1.0f64.to_bits(), 2.0f64.to_bits(), 4.0f64.to_bits()];
    let one_pass = accumulate_sum(f64_add_bits, &buf, 1);
    assert_eq!(f64::from_bits(one_pass), 7.0);
    let two_passes = accumulate_sum(f64_add_bits, &buf, 2);
    assert_eq!(f64::from_bits(two_passes), 14.0);
}

#[test]
fn paired_strategy_reads_every_element_every_pass() {
    // Odd length: the first lane takes values 1.0 and 4.0, the second 2.0.
    let buf: Vec<u64> = vec![1.0f64.to_bits(), 2.0f64.to_bits(), 4.0f64.to_bits()];
    let one_pass = accumulate_sum_paired(f64_add_bits, &buf, 1);
    assert_eq!(f64::from_bits(one_pass), 7.0);
    let two_passes = accumulate_sum_paired(f64_add_bits, &buf, 2);
    assert_eq!(f64::from_bits(two_passes), 14.0);
    // Even length.
    let buf2: Vec<u64> = vec![1.0f64.to_bits(), 2.0f64.to_bits(), 4.0f64.to_bits(), 8.0f64.to_bits()];
    let r = accumulate_sum_paired(f64_add_bits, &buf2, 1);
    assert_eq!(f64::from_bits(r), 15.0);
}

#[test]
fn combiner_is_a_parameter() {
    let buf: Vec<u64> = vec![3, 5];
    let r = accumulate_sum(u64::wrapping_add, &buf, 2);
    assert_eq!(r, 16);
}

#[test]
fn run_idempotent_for_identical_constants() {
    let p = Params {
        threads: 2,
        buffer_size: 8,
        iterations: 3,
        seed: 7,
    };
    let run = |params: &Params| -> (Vec<u64>, Vec<u64>) {
        let values = draw_unit_bits(params.seed, params.total_values());
        let items = split_work_items(values.clone(), params);
        let sums = items
            .iter()
            .map(|item| accumulate_sum(f64_add_bits, &item.buffer, params.iterations))
            .collect();
        (values, sums)
    };
    let (values_a, sums_a) = run(&p);
    let (values_b, sums_b) = run(&p);
    assert_eq!(values_a, values_b);
    assert_eq!(sums_a, sums_b);
}
