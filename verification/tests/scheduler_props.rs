use hungersim::scheduler::{RoundType, Scheduler};

fn base_state() -> Scheduler {
    Scheduler {
        day: 2,
        days_since_last_event: 0,
        consecutive_rounds_without_deaths: 0,
        bloodbath_passed: true,
        day_passed: false,
        fallen_passed: false,
        night_passed: false,
    }
}

#[test]
fn first_round_is_bloodbath_for_any_rolls() {
    // day 1, bloodbath not passed: every draw combination yields Bloodbath
    for feast_roll in [0u64, 8, 9, 5499] {
        for arena_roll in [1u64, 20] {
            for base_roll in [2u64, 3] {
                let mut s = Scheduler::new();
                let (round, factor) = s.classify_with(feast_roll, arena_roll, base_roll);
                assert_eq!(round, RoundType::Bloodbath);
                assert!(s.bloodbath_passed);
                assert_eq!(factor, base_roll + 2);
            }
        }
    }
}

#[test]
fn feast_chance_numerator_at_zero_days() {
    // chance is (100*0*0 + 9) / 55 percent: 9 of the 5500 draws select Feast
    let mut s = base_state();
    let (round, _) = s.classify_with(8, 5, 2);
    assert_eq!(round, RoundType::Feast);
    assert_eq!(s.days_since_last_event, 0);

    let mut s = base_state();
    let (round, _) = s.classify_with(9, 5, 2);
    assert_ne!(round, RoundType::Feast);
}

#[test]
fn feast_chance_numerator_at_three_days() {
    // chance is (100*3*3 + 9) / 55 percent: 909 of the 5500 draws
    let mut s = Scheduler {
        days_since_last_event: 3,
        ..base_state()
    };
    let (round, _) = s.classify_with(908, 5, 2);
    assert_eq!(round, RoundType::Feast);
    assert_eq!(s.days_since_last_event, 0, "a feast resets the event gap");

    let mut s = Scheduler {
        days_since_last_event: 3,
        ..base_state()
    };
    let (round, _) = s.classify_with(909, 5, 2);
    assert_ne!(round, RoundType::Feast);
}

#[test]
fn feast_chance_formula_matches_percentages() {
    // (100*0*0 + 9) / 55 = 0.1636..., (100*3*3 + 9) / 55 = 16.527...
    assert!((9.0f64 / 55.0 - 0.1636).abs() < 0.001);
    assert!((909.0f64 / 55.0 - 16.527).abs() < 0.001);
}

#[test]
fn night_round_ends_the_day() {
    // a state in which only Night can fire
    let mut s = Scheduler {
        day_passed: true,
        fallen_passed: true,
        ..base_state()
    };
    let day_before = s.day;
    let (round, _) = s.classify_with(5499, 5, 2);
    assert_eq!(round, RoundType::Night);
    assert!(s.night_passed);

    // the next iteration's advance increments the day and clears the flags
    s.advance_day();
    assert_eq!(s.day, day_before + 1);
    assert_eq!(s.days_since_last_event, 1);
    assert!(!s.day_passed);
    assert!(!s.fallen_passed);
    assert!(!s.night_passed);
}

#[test]
fn advance_without_night_changes_nothing() {
    let mut s = Scheduler {
        day_passed: true,
        ..base_state()
    };
    let before = s;
    s.advance_day();
    assert_eq!(s, before);
}

#[test]
fn fallen_fires_only_after_day_and_once() {
    // without a passed Day round, no Fallen
    let mut s = base_state();
    let (round, _) = s.classify_with(5499, 5, 2);
    assert_eq!(round, RoundType::Day);
    assert!(s.day_passed);

    // now the Fallen round fires, exactly once
    let (round, _) = s.classify_with(5499, 5, 2);
    assert_eq!(round, RoundType::Fallen);
    assert!(s.fallen_passed);

    let (round, _) = s.classify_with(5499, 5, 2);
    assert_eq!(round, RoundType::Night);
}

#[test]
fn arena_resets_event_gap_and_biases_factor() {
    let mut s = Scheduler {
        days_since_last_event: 1,
        day_passed: true,
        ..base_state()
    };
    let (round, factor) = s.classify_with(5499, 1, 3);
    assert_eq!(round, RoundType::Arena);
    assert_eq!(s.days_since_last_event, 0);
    assert_eq!(factor, 3 + 1);
}

#[test]
fn arena_needs_event_gap() {
    // with zero days since the last event the arena draw is ignored
    let mut s = Scheduler {
        day_passed: true,
        fallen_passed: true,
        ..base_state()
    };
    let (round, _) = s.classify_with(5499, 1, 2);
    assert_ne!(round, RoundType::Arena);
}

#[test]
fn fatality_factor_includes_deathless_streak() {
    let mut s = Scheduler {
        day_passed: true,
        fallen_passed: true,
        consecutive_rounds_without_deaths: 4,
        ..base_state()
    };
    let (round, factor) = s.classify_with(5499, 5, 2);
    assert_eq!(round, RoundType::Night);
    assert_eq!(factor, 2 + 4);
}

#[test]
fn record_fallen_tracks_deathless_streak() {
    let mut s = base_state();
    s.record_fallen(0);
    assert_eq!(s.consecutive_rounds_without_deaths, 1);
    s.record_fallen(0);
    assert_eq!(s.consecutive_rounds_without_deaths, 2);
    s.record_fallen(3);
    assert_eq!(s.consecutive_rounds_without_deaths, 0);
}

#[test]
fn round_names() {
    assert_eq!(RoundType::Bloodbath.as_str(), "bloodbath");
    assert_eq!(RoundType::Feast.as_str(), "feast");
    assert_eq!(RoundType::Arena.as_str(), "arena");
    assert_eq!(RoundType::Day.as_str(), "day");
    assert_eq!(RoundType::Night.as_str(), "night");
    assert_eq!(RoundType::Fallen.as_str(), "fallen");
    assert_eq!(RoundType::NoRound.as_str(), "none");
}

#[test]
fn arena_frequency_is_about_one_in_twenty() {
    // a state in which Arena fires iff the arena draw hits its 1-in-20 slot;
    // over many independent rounds the frequency must come out near 5%
    let trials = 20000;
    let mut hits = 0;
    for _ in 0..trials {
        let mut s = Scheduler {
            days_since_last_event: 1,
            day_passed: true,
            ..base_state()
        };
        let (round, _) = s.next_round();
        if round == RoundType::Arena {
            hits += 1;
        }
    }
    let freq = hits as f64 / trials as f64;
    assert!(
        freq > 0.035 && freq < 0.065,
        "observed arena frequency {} is not near 5%",
        freq
    );
}
