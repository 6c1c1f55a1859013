use sirtools::rng::seeded;
use sirtools::vecset::VecSet;
use std::collections::BTreeSet;

#[test]
fn new_set_is_empty() {
    let s: VecSet<usize> = VecSet::new();
    assert_eq!(s.len(), 0);
}

#[test]
fn add_and_remove_track_length() {
    let mut s: VecSet<usize> = VecSet::new();
    s.add(10);
    s.add(20);
    s.add(30);
    assert_eq!(s.len(), 3);
    assert!(s.contains(10) && s.contains(20) && s.contains(30));
    assert!(!s.contains(0));
    s.remove(10);
    assert_eq!(s.len(), 2);
    assert!(!s.contains(10) && s.contains(20) && s.contains(30));
    s.remove(30);
    s.remove(20);
    assert_eq!(s.len(), 0);
}

#[test]
fn removed_item_can_be_added_again() {
    let mut s: VecSet<usize> = VecSet::new();
    s.add(1);
    s.add(2);
    s.remove(1);
    s.add(1);
    s.remove(2);
    assert_eq!(s.len(), 1);
    let mut rng = seeded(1);
    assert_eq!(s.sample(&mut rng), 1);
}

#[test]
fn sample_of_a_singleton_is_its_item() {
    let mut s: VecSet<usize> = VecSet::new();
    s.add(77);
    let mut rng = seeded(3);
    for _ in 0..100 {
        assert_eq!(s.sample(&mut rng), 77);
    }
}

#[test]
fn sample_never_returns_a_removed_item() {
    let mut s: VecSet<usize> = VecSet::new();
    for i in 0..10 {
        s.add(i);
    }
    s.remove(0);
    s.remove(9);
    s.remove(4);
    let mut rng = seeded(8);
    for _ in 0..2000 {
        let x = s.sample(&mut rng);
        assert!(x != 0 && x != 9 && x != 4);
        assert!(x < 10);
    }
}

/// A small deterministic generator for the operation sequence.
fn next(state: &mut u64) -> u64 {
    *state = state.wrapping_mul(6364136223846793005).wrapping_add(1442695040888963407);
    *state >> 33
}

#[test]
fn membership_agrees_with_a_reference_set() {
    let mut rng = seeded(12345);
    for round in 0..20u64 {
        let mut ops = round + 1;
        let mut s: VecSet<usize> = VecSet::new();
        let mut reference: BTreeSet<usize> = BTreeSet::new();
        for _ in 0..2000 {
            let x = (next(&mut ops) % 50) as usize;
            if reference.contains(&x) {
                s.remove(x);
                reference.remove(&x);
            } else {
                s.add(x);
                reference.insert(x);
            }
            assert_eq!(s.len(), reference.len());
            for y in 0..50 {
                assert_eq!(s.contains(y), reference.contains(&y));
            }
            if !reference.is_empty() {
                let drawn = s.sample(&mut rng);
                assert!(reference.contains(&drawn));
            }
        }
        // Every member can be drawn, and nothing else.
        let mut seen: BTreeSet<usize> = BTreeSet::new();
        if !reference.is_empty() {
            for _ in 0..5000 {
                seen.insert(s.sample(&mut rng));
            }
            assert_eq!(seen, reference);
        }
    }
}

#[test]
fn sample_is_uniform() {
    let mut s: VecSet<usize> = VecSet::new();
    for i in 0..8 {
        s.add(i * 3);
    }
    s.remove(6);
    s.remove(0);
    s.add(100);
    s.add(6);
    let k = s.len();
    assert_eq!(k, 8);
    let mut rng = seeded(2024);
    let n = 80000usize;
    let mut hits = std::collections::BTreeMap::new();
    for _ in 0..n {
        *hits.entry(s.sample(&mut rng)).or_insert(0usize) += 1;
    }
    assert_eq!(hits.len(), k);
    let expected = n as f64 / k as f64;
    let chi2: f64 = hits.values().map(|h| (*h as f64 - expected).powi(2) / expected).sum();
    // Seven degrees of freedom: the 99.9th percentile is 24.3.
    assert!(chi2 < 24.3, "chi2 = {}", chi2);
}

#[test]
fn at_returns_the_item_in_the_slot() {
    let mut s: VecSet<usize> = VecSet::new();
    for x in [10, 20, 30, 40] {
        s.add(x);
    }
    assert_eq!((s.at(0), s.at(1), s.at(2), s.at(3)), (10, 20, 30, 40));
    // The last item moves into the slot of the one removed.
    s.remove(20);
    assert_eq!((s.at(0), s.at(1), s.at(2)), (10, 40, 30));
    s.remove(30);
    assert_eq!((s.at(0), s.at(1)), (10, 40));
    s.add(5);
    assert_eq!(s.at(2), 5);
}

#[test]
fn sample_returns_the_item_in_a_slot() {
    let mut s: VecSet<usize> = VecSet::new();
    for x in [7, 8, 9] {
        s.add(x);
    }
    let mut rng = seeded(77);
    let mut reference = seeded(77);
    for _ in 0..1000 {
        let slot = rand::distributions::Distribution::sample(
            &rand::distributions::Uniform::new(0, 3usize),
            &mut reference,
        );
        assert_eq!(s.sample(&mut rng), s.at(slot));
    }
}
