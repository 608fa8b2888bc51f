use ransomshield::sampling::{
    baseline_probes, live_probes, max_sampled_entropy, min_sampled_entropy, Probe, Rng, PROBE_COUNT,
};

fn pseudo_random_bytes(n: usize) -> Vec<u8> {
    let mut state: u64 = 0x9E37_79B9_7F4A_7C15;
    let mut data = vec![0u8; n];
    for b in data.iter_mut() {
        state ^= state << 13;
        state ^= state >> 7;
        state ^= state << 17;
        *b = (state & 0xFF) as u8;
    }
    data
}

fn entropy(data: &[u8]) -> f64 {
    let mut counts = [0usize; 256];
    for b in data {
        counts[*b as usize] += 1;
    }
    let total = data.len() as f64;
    let mut sum = 0.0;
    for count in counts {
        if count > 0 {
            let p = count as f64 / total;
            sum -= p * p.log2();
        }
    }
    if sum > 0.0 {
        sum
    } else {
        0.0
    }
}

fn scores(file: &[u8], probes: &Vec<Probe>) -> Vec<Option<u64>> {
    let mut out: Vec<Option<u64>> = vec![];
    for probe in probes {
        let start = (probe.offset as usize).min(file.len());
        let end = (start + probe.len).min(file.len());
        if start < end {
            out.push(Some(entropy(&file[start..end]).to_bits()));
        } else {
            out.push(None);
        }
    }
    out
}

fn lowest_of(file: &[u8], budget: usize) -> Option<f64> {
    let probes = baseline_probes(file.len() as u64, budget);
    min_sampled_entropy(&scores(file, &probes)).map(f64::from_bits)
}

fn highest_of(file: &[u8], budget: usize, rng: &mut Rng) -> Option<f64> {
    let probes = live_probes(file.len() as u64, budget, rng);
    max_sampled_entropy(&scores(file, &probes)).map(f64::from_bits)
}

fn header_and_random_tail() -> Vec<u8> {
    let mut file = "the quick brown fox jumps over the lazy dog ".repeat(200).into_bytes();
    file.extend(pseudo_random_bytes(64 * 1024));
    file
}

#[test]
fn min_sampled_entropy_finds_a_plaintext_header_behind_a_large_random_tail() {
    let min_e = lowest_of(&header_and_random_tail(), 8192);
    let min_e = min_e.expect("file is not empty");
    assert!(min_e < 4.5, "expected the plaintext header to pull the minimum down, got {min_e}");
}

#[test]
fn min_sampled_entropy_is_none_for_an_empty_file() {
    assert!(lowest_of(&[], 8192).is_none());
}

#[test]
fn max_sampled_entropy_catches_a_random_tail_behind_a_plaintext_header() {
    let max_e = highest_of(&header_and_random_tail(), 8192, &mut Rng::new());
    let max_e = max_e.expect("file is not empty");
    assert!(max_e > 7.5, "expected the random tail to pull the maximum up, got {max_e}");
}

#[test]
fn max_sampled_entropy_is_none_for_an_empty_file() {
    assert!(highest_of(&[], 8192, &mut Rng::new()).is_none());
}

#[test]
fn max_sampled_entropy_of_a_small_all_plaintext_file_stays_low() {
    let e = highest_of(b"just an ordinary short text file\n", 8192, &mut Rng::new());
    let e = e.expect("file is not empty");
    assert!(e < 4.5, "expected low entropy for ordinary small text, got {e}");
}

#[test]
fn the_startup_scan_reads_the_start_the_middle_and_the_end() {
    assert_eq!(
        baseline_probes(100_000, 8192),
        vec![
            Probe { offset: 0, len: 2730 },
            Probe { offset: 50_000, len: 2730 },
            Probe { offset: 97_268, len: 2732 },
        ]
    );
    assert_eq!(baseline_probes(8192, 8192), vec![Probe { offset: 0, len: 8192 }]);
    assert_eq!(baseline_probes(0, 8192), vec![Probe { offset: 0, len: 8192 }]);
    assert_eq!(baseline_probes(5, 2), vec![Probe { offset: 3, len: 2 }]);
    assert!(baseline_probes(5, 0).is_empty());
    assert!(baseline_probes(0, 0).is_empty());
}

#[test]
fn a_generator_steps_as_documented() {
    let mut rng = Rng::from_reading(Some((0, 1)));
    assert_eq!(rng.next(), 1082269761);
    assert_eq!(rng.next(), 1152992998833853505);
    assert_eq!(rng.next(), 11177516664432764457);
    let mut fallback = Rng::from_reading(None);
    assert_eq!(fallback.next(), 9614512477961460226);
    let mut zero = Rng::from_reading(Some((0, 0)));
    assert_eq!(zero.next(), 1082269761);
}

#[test]
fn a_bound_of_zero_leaves_the_generator_alone() {
    let mut rng = Rng::from_reading(Some((0, 1)));
    assert_eq!(rng.below(0), 0);
    assert_eq!(rng.below(1000), 761);
}

#[test]
fn a_large_file_is_read_at_random_places() {
    let mut rng = Rng::from_reading(Some((0, 1)));
    let probes = live_probes(1_000_000, 8192, &mut rng);
    assert_eq!(probes.len(), PROBE_COUNT);
    let span = 1_000_000 - 1638 + 1;
    assert_eq!(probes[0], Probe { offset: 1082269761 % span, len: 1638 });
    assert_eq!(probes[1], Probe { offset: 1152992998833853505 % span, len: 1638 });
    assert_eq!(probes[2], Probe { offset: 11177516664432764457 % span, len: 1638 });
    for probe in probes {
        assert!(probe.offset + probe.len as u64 <= 1_000_000);
    }
    let mut rng = Rng::from_reading(Some((0, 1)));
    assert_eq!(live_probes(8192, 8192, &mut rng), vec![Probe { offset: 0, len: 8192 }]);
    assert_eq!(rng.next(), 1082269761);
    assert!(live_probes(0, 0, &mut rng).is_empty());
    assert_eq!(live_probes(9, 3, &mut rng)[0].len, 1);
}

#[test]
fn one_part_decides() {
    assert_eq!(min_sampled_entropy(&vec![]), None);
    assert_eq!(max_sampled_entropy(&vec![]), None);
    assert_eq!(min_sampled_entropy(&vec![None, None]), None);
    assert_eq!(max_sampled_entropy(&vec![None, None]), None);
    let parts = vec![None, Some(3), Some(1), None, Some(2)];
    assert_eq!(min_sampled_entropy(&parts), Some(1));
    assert_eq!(max_sampled_entropy(&parts), Some(3));
    assert_eq!(max_sampled_entropy(&vec![Some(1), Some(1)]), Some(1));
}
