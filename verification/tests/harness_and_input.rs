use syncbench::harness::{
    clamp_nanos, is_warmup, mean_of_measured, measure_runs, sum_of_measured, MIN_RUNS, RUNS,
};
use syncbench::input::{parse_decimal, parse_size, size_from_line, InputError};
use syncbench::prng::{sampling_seed, XorShift64};

#[test]
fn mean_excludes_the_warmup_run() {
    assert_eq!(mean_of_measured(&vec![1_000_000_000, 10, 20, 30, 40]), 25);
    assert_eq!(mean_of_measured(&vec![0, 10, 20, 30, 40]), 25);
    assert_eq!(mean_of_measured(&vec![u64::MAX, 10, 20, 30, 40]), 25);
}

#[test]
fn mean_rounds_down_to_whole_nanoseconds() {
    assert_eq!(mean_of_measured(&vec![5, 1, 2]), 1);
    assert_eq!(mean_of_measured(&vec![5, 7]), 7);
    assert_eq!(mean_of_measured(&vec![5, 3, 3, 4]), 3);
}

#[test]
fn mean_of_the_largest_durations_does_not_overflow() {
    assert_eq!(mean_of_measured(&vec![0, u64::MAX, u64::MAX, u64::MAX]), u64::MAX);
}

#[test]
fn durations_beyond_64_bits_are_clamped() {
    assert_eq!(clamp_nanos(0), 0);
    assert_eq!(clamp_nanos(1_234_567), 1_234_567);
    assert_eq!(clamp_nanos(u64::MAX as u128), u64::MAX);
    assert_eq!(clamp_nanos(u64::MAX as u128 + 1), u64::MAX);
    assert_eq!(clamp_nanos(u128::MAX), u64::MAX);
}

#[test]
fn harness_runs_the_workload_once_per_index_in_order() {
    assert_eq!(RUNS, 5);
    assert_eq!(MIN_RUNS, 3);
    let (mean, durations, outputs) = measure_runs(RUNS, |run| run * 10 + 1);
    assert_eq!(outputs, vec![1, 11, 21, 31, 41]);
    assert_eq!(durations.len(), 5);
    assert_eq!(mean, mean_of_measured(&durations));
}

#[test]
fn slow_warmup_does_not_enter_the_mean() {
    let (mean, durations, outputs) = measure_runs(5, |run| {
        if run == 0 {
            let begin = std::time::Instant::now();
            while begin.elapsed() < std::time::Duration::from_millis(300) {}
        }
        run
    });
    assert_eq!(outputs, vec![0, 1, 2, 3, 4]);
    assert!(durations[0] >= 300_000_000);
    let measured: u128 = durations[1..].iter().map(|&d| d as u128).sum();
    assert_eq!(mean as u128, measured / 4);
    assert!(mean < 100_000_000);
}

#[test]
fn harness_keeps_the_warmup_output() {
    let (_, durations, outputs) = measure_runs(3, |run| run == 0);
    assert_eq!(outputs, vec![true, false, false]);
    assert_eq!(durations.len(), 3);
}

#[test]
fn letters_are_not_a_size() {
    assert_eq!(parse_size("abc"), Err(InputError::Malformed));
}

#[test]
fn sizes_are_positive_decimal_numbers() {
    assert_eq!(parse_size("1"), Ok(1));
    assert_eq!(parse_size("200"), Ok(200));
    assert_eq!(parse_size("+12"), Ok(12));
    assert_eq!(parse_size("007"), Ok(7));
    assert_eq!(parse_size("20000000"), Ok(20_000_000));
    assert_eq!(parse_size(&usize::MAX.to_string()), Ok(usize::MAX));
}

#[test]
fn each_input_error_has_its_inputs() {
    assert_eq!(parse_size(""), Err(InputError::Empty));
    assert_eq!(parse_size("+"), Err(InputError::Malformed));
    assert_eq!(parse_size("-"), Err(InputError::Malformed));
    assert_eq!(parse_size("-1"), Err(InputError::Malformed));
    assert_eq!(parse_size("12a"), Err(InputError::Malformed));
    assert_eq!(parse_size("1 2"), Err(InputError::Malformed));
    assert_eq!(parse_size(" 12"), Err(InputError::Malformed));
    assert_eq!(parse_size("12\n"), Err(InputError::Malformed));
    assert_eq!(parse_size("++1"), Err(InputError::Malformed));
    assert_eq!(parse_size("1.5"), Err(InputError::Malformed));
    assert_eq!(parse_size("١٢"), Err(InputError::Malformed));
    assert_eq!(parse_size("0"), Err(InputError::NotPositive));
    assert_eq!(parse_size("+000"), Err(InputError::NotPositive));
    assert_eq!(parse_size("99999999999999999999999999"), Err(InputError::TooLarge));
    let beyond = format!("{}0", usize::MAX);
    assert_eq!(parse_size(&beyond), Err(InputError::TooLarge));
    assert_eq!(parse_size("99999999999999999999999999x"), Err(InputError::Malformed));
}

#[test]
fn bytes_are_parsed_like_text() {
    assert_eq!(parse_decimal(b"42"), Ok(42));
    assert_eq!(parse_decimal(b"+42"), Ok(42));
    assert_eq!(parse_decimal(b""), Err(InputError::Empty));
    assert_eq!(parse_decimal(&[0x34, 0xFF]), Err(InputError::Malformed));
}

#[test]
fn typed_line_is_trimmed() {
    assert_eq!(size_from_line("12\n", None), Ok(12));
    assert_eq!(size_from_line("  12 \r\n", None), Ok(12));
    assert_eq!(size_from_line("\t+8\t", Some(200)), Ok(8));
    assert_eq!(size_from_line("\u{a0}7\u{3000}", None), Ok(7));
    assert_eq!(size_from_line("1 2\n", None), Err(InputError::Malformed));
    assert_eq!(size_from_line("abc\n", Some(200)), Err(InputError::Malformed));
    assert_eq!(size_from_line("0\n", Some(200)), Err(InputError::NotPositive));
}

#[test]
fn empty_line_gives_the_default() {
    assert_eq!(size_from_line("\n", Some(200)), Ok(200));
    assert_eq!(size_from_line("", Some(20_000_000)), Ok(20_000_000));
    assert_eq!(size_from_line("   \t \n", Some(5)), Ok(5));
    assert_eq!(size_from_line("\n", None), Err(InputError::Empty));
    assert_eq!(size_from_line("", None), Err(InputError::Empty));
}

#[test]
fn generator_follows_the_shift_triple() {
    let mut generator = XorShift64::new(1);
    assert_eq!(generator.next_u64(), 0x4082_2041);
    let mut again = XorShift64::new(1);
    assert_eq!(again.next_u64(), 1_082_269_761);
    assert_eq!(again.next_u64(), generator.next_u64());
}

#[test]
fn generator_matches_the_recurrence() {
    let mut state: u64 = 0x9E37_79B9_7F4A_7C15;
    let mut generator = XorShift64::new(state);
    for _ in 0..1_000 {
        state ^= state << 13;
        state ^= state >> 7;
        state ^= state << 17;
        assert_eq!(generator.next_u64(), state);
        assert_ne!(state, 0);
    }
}

#[test]
fn zero_seed_is_replaced() {
    let mut zero = XorShift64::new(0);
    let mut replaced = XorShift64::new(0xA511_E9B7_C3D2_1234);
    for _ in 0..16 {
        let value = zero.next_u64();
        assert_eq!(value, replaced.next_u64());
        assert_ne!(value, 0);
    }
}

#[test]
fn sampling_seeds_wrap_around() {
    assert_eq!(sampling_seed(0), 0x9E37_79B9_7F4A_7C15);
    assert_eq!(sampling_seed(3), 0x9E37_79B9_7F4A_7C18);
    assert_eq!(sampling_seed(u64::MAX), 0x9E37_79B9_7F4A_7C14);
}

#[test]
fn total_of_the_measured_runs() {
    assert_eq!(sum_of_measured(&vec![1_000_000_000, 10, 20, 30, 40]), 100);
    assert_eq!(sum_of_measured(&vec![7]), 0);
    assert_eq!(sum_of_measured(&Vec::new()), 0);
    assert_eq!(
        sum_of_measured(&vec![1, u64::MAX, u64::MAX, u64::MAX]),
        3 * (u64::MAX as u128)
    );
}

#[test]
fn only_the_first_run_is_the_warmup() {
    assert!(is_warmup(0));
    assert!(!is_warmup(1));
    assert!(!is_warmup(4));
}
