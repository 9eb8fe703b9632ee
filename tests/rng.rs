use rand::RngCore;
use rust_gymnasium::{rng_from_seed, split_n, SeedSequence};

#[test]
fn split_n_is_deterministic() {
    let a = split_n(12345, 5);
    let b = split_n(12345, 5);
    assert_eq!(a, b);
    let c = split_n(12346, 5);
    assert_ne!(a, c);
}

#[test]
fn rng_stream_is_reproducible() {
    let mut r1 = rng_from_seed(7);
    let mut r2 = rng_from_seed(7);
    for _ in 0..10 {
        assert_eq!(r1.next_u64(), r2.next_u64());
    }
}

#[test]
fn subseeds_of_seed_zero_have_known_values() {
    let mut ss = SeedSequence::new(0);
    assert_eq!(ss.next_subseed(), 7960286522194355700);
    assert_eq!(ss.next_subseed(), 17289298210411400382);
    assert_eq!(ss.next_subseed(), 3561638551227732408);
}

#[test]
fn split_n_matches_successive_subseeds() {
    assert_eq!(split_n(12345, 2), vec![12929068707531143761, 3901543535971735252]);
    let mut ss = SeedSequence::new(12345);
    let first = ss.next_subseed();
    let rest = ss.split_n(1);
    assert_eq!(vec![first, rest[0]], split_n(12345, 2));
}

#[test]
fn split_n_of_zero_is_empty() {
    assert!(split_n(99, 0).is_empty());
}

#[test]
fn next_rng_streams_from_equal_sequences_agree() {
    let mut a = SeedSequence::new(999).next_rng();
    let mut b = SeedSequence::new(999).next_rng();
    for _ in 0..20 {
        assert_eq!(a.next_u64(), b.next_u64());
    }
}

#[test]
fn next_rng_is_seeded_with_the_next_subseed() {
    let mut ss = SeedSequence::new(5);
    let mut from_sequence = ss.next_rng();
    let mut direct = rng_from_seed(split_n(5, 1)[0]);
    assert_eq!(from_sequence.next_u64(), direct.next_u64());
    let mut other = rng_from_seed(6);
    let mut again = rng_from_seed(split_n(5, 1)[0]);
    assert_ne!(other.next_u64(), again.next_u64());
}

#[test]
fn cloned_sequence_continues_identically() {
    let mut a = SeedSequence::new(42);
    a.next_subseed();
    let mut b = a.clone();
    assert_eq!(a.split_n(4), b.split_n(4));
}
