use tf2_demo_player::demo_strip::{read_u32_le, strip_console_commands, StripError, HEADER_SIZE};
use tf2_demo_player::prng::UniformRandomStream;

fn draws(seed: i32, n: usize) -> Vec<i32> {
    let mut rng = UniformRandomStream::new();
    rng.set_seed(seed);
    (0..n).map(|_| rng.generate_random_number()).collect()
}

#[test]
fn seeded_stream_matches_source_engine_sequence() {
    assert_eq!(draws(42, 5), vec![1013554273, 1157513875, 1582736250, 404315618, 2133545567]);
    assert_eq!(draws(255, 5), vec![1505129561, 2068107248, 744507809, 171446498, 1899822771]);
}

#[test]
fn seeds_zero_and_one_start_the_same_stream() {
    assert_eq!(draws(0, 5), vec![893351816, 197493099, 1624379149, 1137522503, 1998097157]);
    assert_eq!(draws(1, 5), draws(0, 5));
}

#[test]
fn unseeded_stream_behaves_like_seed_zero() {
    let mut rng = UniformRandomStream::new();
    let got: Vec<i32> = (0..3).map(|_| rng.generate_random_number()).collect();
    assert_eq!(got, vec![893351816, 197493099, 1624379149]);
}

#[test]
fn reseeding_restarts_the_stream() {
    let mut rng = UniformRandomStream::new();
    rng.set_seed(42);
    let first = rng.generate_random_number();
    rng.generate_random_number();
    rng.set_seed(42);
    assert_eq!(rng.generate_random_number(), first);
}

#[test]
fn draws_stay_below_the_modulus() {
    for seed in [7, 99, 200, -5] {
        for v in draws(seed, 50) {
            assert!(v >= 0 && v < 2147483647);
        }
    }
}

fn demo_with(records: &[u8]) -> Vec<u8> {
    let mut d = vec![0u8; HEADER_SIZE];
    d.extend_from_slice(records);
    d
}

#[test]
fn console_commands_are_cut_out() {
    let mut records = vec![3u8, 1, 0, 0, 0];
    records.extend_from_slice(&[4, 2, 0, 0, 0, 3, 0, 0, 0, b'a', b'b', b'c']);
    records.extend_from_slice(&[6, 3, 0, 0, 0, 2, 0, 0, 0, 9, 9]);
    records.extend_from_slice(&[7, 4, 0, 0]);
    let demo = demo_with(&records);
    let (out, n) = strip_console_commands(&demo).unwrap();
    assert_eq!(n, 1);
    let mut expected = vec![3u8, 1, 0, 0, 0];
    expected.extend_from_slice(&[6, 3, 0, 0, 0, 2, 0, 0, 0, 9, 9]);
    expected.extend_from_slice(&[7, 4, 0, 0]);
    assert_eq!(out, demo_with(&expected));
}

#[test]
fn demo_without_commands_is_unchanged() {
    let mut records = vec![1u8, 0, 0, 0, 0];
    records.extend_from_slice(&[0u8; 84]);
    records.extend_from_slice(&[1, 0, 0, 0, 0xff]);
    records.extend_from_slice(&[5, 0, 0, 0, 0, 1, 1, 1, 1, 0, 0, 0, 0]);
    let demo = demo_with(&records);
    assert_eq!(strip_console_commands(&demo).unwrap(), (demo.clone(), 0));
    let header_only = demo_with(&[]);
    assert_eq!(strip_console_commands(&header_only).unwrap(), (header_only.clone(), 0));
}

#[test]
fn consecutive_commands_are_all_removed() {
    let mut records = Vec::new();
    for _ in 0..3 {
        records.extend_from_slice(&[4, 0, 0, 0, 0, 1, 0, 0, 0, b'x']);
    }
    let demo = demo_with(&records);
    assert_eq!(strip_console_commands(&demo).unwrap(), (demo_with(&[]), 3));
}

#[test]
fn strip_errors() {
    assert_eq!(strip_console_commands(&demo_with(&[9, 0, 0, 0, 0])), Err(StripError::UnknownPacket(9)));
    assert_eq!(strip_console_commands(&demo_with(&[6, 0, 0, 0, 0, 1])), Err(StripError::Truncated));
    assert_eq!(
        strip_console_commands(&demo_with(&[4, 0, 0, 0, 0, 50, 0, 0, 0, 1])),
        Err(StripError::CommandPastEnd)
    );
}

#[test]
fn little_endian_reads() {
    let data = [0x78u8, 0x56, 0x34, 0x12, 0xff];
    assert_eq!(read_u32_le(&data, 0), Ok(0x12345678));
    assert_eq!(read_u32_le(&data, 1), Ok(0xff123456));
    assert_eq!(read_u32_le(&data, 2), Err(StripError::Truncated));
}

#[test]
fn every_draw_after_a_seed_is_at_least_one() {
    for seed in [0, 1, -1, 42, 12345, -99999, i32::MAX - 1, i32::MIN + 2] {
        for v in draws(seed, 200) {
            assert!(v >= 1 && v <= 2147483646);
        }
    }
}

#[test]
fn stripping_a_stripped_demo_changes_nothing() {
    let mut records = vec![4u8, 0, 0, 0, 0, 2, 0, 0, 0, b'a', b'b'];
    records.extend_from_slice(&[6, 3, 0, 0, 0, 2, 0, 0, 0, 9, 9]);
    records.extend_from_slice(&[4, 1, 0, 0, 0, 0, 0, 0, 0]);
    records.extend_from_slice(&[7, 0, 0, 0]);
    let (once, n) = strip_console_commands(&demo_with(&records)).unwrap();
    assert_eq!(n, 2);
    assert_eq!(strip_console_commands(&once).unwrap(), (once.clone(), 0));
}

#[test]
fn documented_strip_example() {
    let h = vec![0u8; 1072];
    let d = [h.clone(), vec![4, 0, 0, 0, 0, 2, 0, 0, 0, b'a', b'b'], vec![7, 0, 0, 0]].concat();
    assert_eq!(strip_console_commands(&d).unwrap(), ([h.clone(), vec![7, 0, 0, 0]].concat(), 1));
    assert!(strip_console_commands(&[h.clone(), vec![9]].concat()).is_err());
    assert!(strip_console_commands(&[h.clone(), vec![4, 0, 0, 0, 0, 10, 0, 0, 0]].concat()).is_err());
    assert!(strip_console_commands(&[h.clone(), vec![2, 0, 0, 0, 0]].concat()).is_err());
    let short = vec![1u8; 500];
    assert_eq!(strip_console_commands(&short).unwrap(), (short.clone(), 0));
}
