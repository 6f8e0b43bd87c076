use music_gen::error::ConfigError;
use music_gen::rhythm::{choose_pattern, gen_rythm, patterns_for};
use music_gen::tone::{ticks_to_micros, TICKS_PER_BEAT};
use rand::rngs::StdRng;
use rand::SeedableRng;

#[test]
fn every_pattern_fills_its_beats() {
    for n in 1..=4u8 {
        let ps = patterns_for(n);
        assert!(!ps.is_empty());
        for p in ps {
            assert!(!p.is_empty());
            assert!(p.iter().all(|d| *d > 0));
            assert_eq!(p.iter().sum::<u64>(), n as u64 * TICKS_PER_BEAT);
        }
    }
}

#[test]
fn catalog_sizes() {
    assert_eq!(patterns_for(1).len(), 2);
    assert_eq!(patterns_for(2).len(), 8);
    assert_eq!(patterns_for(3).len(), 30);
    assert_eq!(patterns_for(4).len(), 105);
    assert_eq!(patterns_for(3)[14], vec![480, 960]);
    assert_eq!(patterns_for(3)[29], vec![240, 240, 240, 240, 240, 240]);
    assert_eq!(patterns_for(4)[1], vec![960, 960]);
}

#[test]
fn no_patterns_outside_one_to_four_beats() {
    assert!(patterns_for(0).is_empty());
    assert!(patterns_for(5).is_empty());
    let mut rng = StdRng::seed_from_u64(1);
    assert_eq!(choose_pattern(&mut rng, 0), Err(ConfigError::EmptyCatalog));
    assert_eq!(choose_pattern(&mut rng, 9), Err(ConfigError::EmptyCatalog));
}

#[test]
fn chosen_patterns_come_from_the_catalog() {
    let mut rng = StdRng::seed_from_u64(3);
    for n in 1..=4u8 {
        let catalog = patterns_for(n);
        for _ in 0..50 {
            let p = choose_pattern(&mut rng, n).unwrap();
            assert!(catalog.contains(&p));
        }
    }
    for _ in 0..50 {
        let p = gen_rythm(&mut rng);
        assert_eq!(p.iter().sum::<u64>(), 1920);
    }
}

#[test]
fn same_seed_same_rhythm() {
    let mut a = StdRng::seed_from_u64(42);
    let mut b = StdRng::seed_from_u64(42);
    let xs: Vec<Vec<u64>> = (0..20).map(|_| gen_rythm(&mut a)).collect();
    let ys: Vec<Vec<u64>> = (0..20).map(|_| gen_rythm(&mut b)).collect();
    assert_eq!(xs, ys);
}

#[test]
fn ticks_convert_to_microseconds() {
    assert_eq!(ticks_to_micros(480, 120), 500_000);
    assert_eq!(ticks_to_micros(1920, 60), 4_000_000);
    assert_eq!(ticks_to_micros(480, 90), 666_666);
    assert_eq!(ticks_to_micros(0, 1), 0);
}

#[test]
fn catalogs_hold_no_repeats() {
    for n in 1..=4u8 {
        let ps = patterns_for(n);
        for i in 0..ps.len() {
            for j in 0..i {
                assert_ne!(ps[i], ps[j]);
            }
        }
    }
    let four = patterns_for(4);
    assert!(four.contains(&vec![480, 480, 480, 480]));
    assert!(four.contains(&vec![1440, 480]));
    assert!(four.contains(&vec![480, 1440]));
    assert!(four.contains(&vec![960, 240, 720]));
}
