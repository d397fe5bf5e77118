use roguelike_core::probability::Probability;
use roguelike_core::probability::ProbabilityError;
use roguelike_core::rng::GameRng;

#[test]
fn construction_accepts_exactly_zero_to_one_hundred() {
    assert_eq!(Probability::new(0), Ok(Probability(0)));
    assert_eq!(Probability::new(100), Ok(Probability(100)));
    assert_eq!(Probability::new(101), Err(ProbabilityError::OutOfBounds));
    assert_eq!(Probability::one(), Probability(100));
}

#[test]
fn addition_checks_the_sum() {
    let p = Probability::new(60).unwrap();
    let q = Probability::new(40).unwrap();
    assert_eq!(p.add(&q), Ok(Probability(100)));
    let r = Probability::new(41).unwrap();
    assert_eq!(p.add(&r), Err(ProbabilityError::OutOfBounds));
}

#[test]
fn ratios_truncate_to_percent() {
    assert_eq!(Probability::from_ratio(1, 3), Ok(Probability(33)));
    assert_eq!(Probability::from_ratio(40, 140), Ok(Probability(28)));
    assert_eq!(Probability::from_ratio(5, 5), Ok(Probability(100)));
    assert_eq!(Probability::from_ratio(0, 7), Ok(Probability(0)));
    assert_eq!(
        Probability::from_ratio(6, 5),
        Err(ProbabilityError::OutOfBounds)
    );
}

#[test]
fn roll_boundaries_never_and_always() {
    let mut rng = GameRng::from_seed(42);
    let never = Probability::new(0).unwrap();
    let always = Probability::new(100).unwrap();
    for _ in 0..300 {
        assert!(!never.roll(&mut rng));
        assert!(always.roll(&mut rng));
    }
}

#[test]
fn roll_frequency_tracks_the_percentage() {
    let mut rng = GameRng::from_seed(11);
    let p = Probability::new(30).unwrap();
    let mut hits = 0;
    for _ in 0..1000 {
        if p.roll(&mut rng) {
            hits += 1;
        }
    }
    assert!(hits > 200 && hits < 400, "got {hits} hits out of 1000");
}

#[test]
fn weighted_choice_returns_only_listed_items() {
    let mut rng = GameRng::from_seed(5);
    let mut picked_a = 0;
    let mut picked_b = 0;
    for _ in 0..1000 {
        let choices = vec![("A", Probability(30)), ("B", Probability(70))];
        match Probability::choose_weighted(&mut rng, choices).unwrap() {
            "A" => picked_a += 1,
            "B" => picked_b += 1,
            other => panic!("choose_weighted returned an unlisted item: {other}"),
        }
    }
    assert_eq!(picked_a + picked_b, 1000);
    // The draw is uniform over 0..=100, so "A" lands about 31% of the time.
    assert!(picked_a > 200 && picked_a < 420, "got {picked_a} picks of A");
}

#[test]
fn weighted_choice_rejects_overweight_tables() {
    let mut rng = GameRng::from_seed(5);
    let choices = vec![("A", Probability(60)), ("B", Probability(60))];
    assert_eq!(
        Probability::choose_weighted(&mut rng, choices),
        Err(ProbabilityError::OutOfBounds)
    );
}

#[test]
fn weighted_choice_of_one_item_returns_it() {
    let mut rng = GameRng::from_seed(9);
    for _ in 0..20 {
        let choices = vec![(7u64, Probability(25))];
        assert_eq!(Probability::choose_weighted(&mut rng, choices), Ok(7));
    }
}

#[test]
fn draws_stay_below_their_bound() {
    let mut rng = GameRng::from_seed(123);
    for _ in 0..200 {
        assert_eq!(rng.draw_up_to(0), 0);
        assert!(rng.draw_up_to(3) <= 3);
    }
}
