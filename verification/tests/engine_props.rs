use hungersim::catalog::{Action, EventCatalog, EventEntry};
use hungersim::engine::{simulation_step, StepOutcome};
use hungersim::roster::Roster;
use hungersim::scheduler::{RoundType, Scheduler};
use hungersim::tribute::{IdAllocator, Tribute};

fn roster_of(n: usize) -> Roster {
    let mut ids = IdAllocator::new();
    let mut roster = Roster::new();
    for i in 0..n {
        let name = format!("T{}", i);
        let t = Tribute::from_data(&mut ids, &name, "A", "a.png");
        roster.add_tribute(Box::new(t));
    }
    roster
}

fn action(msg: &str, tributes: usize, killed: Vec<usize>, killer: Vec<Option<usize>>) -> Action {
    Action {
        msg: msg.to_string(),
        tributes,
        killed,
        killer,
    }
}

fn entry(title: &str) -> EventEntry {
    EventEntry {
        title: title.to_string(),
        fatal: vec![action("{0.name} kills {1.name}", 2, vec![1], vec![Some(0)])],
        nonfatal: vec![action("{0.name} waits", 1, vec![], vec![])],
    }
}

fn catalog() -> EventCatalog {
    EventCatalog {
        bloodbath: entry("The bloodbath of day {0}"),
        feast: Some(entry("The feast of day {0}")),
        day: Some(entry("Day {0}")),
        night: Some(entry("Night {0}")),
        arena: vec![entry("Arena event on day {0}")],
    }
}

#[test]
fn step_finishes_exactly_below_two_alive() {
    let c = catalog();
    // one tribute: the loop never runs an actionable round
    let mut roster = roster_of(1);
    let mut sched = Scheduler::new();
    match simulation_step(&mut roster, &mut sched, &c) {
        StepOutcome::Finished { summary } => {
            assert!(summary.contains("Survivor"));
            assert!(summary.contains("T0"));
        }
        _ => panic!("a lone tribute must end the simulation"),
    }
    // an empty roster finishes too
    let mut roster = Roster::new();
    let mut sched = Scheduler::new();
    assert!(matches!(
        simulation_step(&mut roster, &mut sched, &c),
        StepOutcome::Finished { .. }
    ));
    // two tributes: the simulation runs a round
    let mut roster = roster_of(2);
    let mut sched = Scheduler::new();
    assert!(!matches!(
        simulation_step(&mut roster, &mut sched, &c),
        StepOutcome::Finished { .. }
    ));
}

#[test]
fn first_step_of_two_tribute_roster_is_bloodbath() {
    // regardless of the random draws
    let c = catalog();
    for _ in 0..100 {
        let mut roster = roster_of(2);
        let mut sched = Scheduler::new();
        match simulation_step(&mut roster, &mut sched, &c) {
            StepOutcome::Round { round, title, day, fell_back, .. } => {
                assert_eq!(round, RoundType::Bloodbath);
                assert_eq!(title, "The bloodbath of day {0}");
                assert_eq!(day, 1);
                assert!(!fell_back);
            }
            _ => panic!("round one must be an actionable Bloodbath"),
        }
    }
}

#[test]
fn first_step_of_full_roster_is_bloodbath() {
    let c = catalog();
    let mut roster = roster_of(24);
    let mut sched = Scheduler::new();
    match simulation_step(&mut roster, &mut sched, &c) {
        StepOutcome::Round { round, .. } => assert_eq!(round, RoundType::Bloodbath),
        _ => panic!("round one must be an actionable Bloodbath"),
    }
}

#[test]
fn fallen_round_reports_without_touching_the_roster() {
    let c = catalog();
    let mut roster = roster_of(4);
    // a state in which the next classification must be Fallen
    let mut sched = Scheduler {
        day: 2,
        days_since_last_event: 0,
        consecutive_rounds_without_deaths: 0,
        bloodbath_passed: true,
        day_passed: true,
        fallen_passed: false,
        night_passed: false,
    };
    roster.kill(1, 2);
    let alive_before = roster.n_alive();
    match simulation_step(&mut roster, &mut sched, &c) {
        StepOutcome::Fallen { shots, report } => {
            assert_eq!(shots, 1);
            let report = report.expect("a death today must be reported");
            assert_eq!(report, "The following tributes have died today: \nT1\n");
        }
        _ => panic!("the step after a Day round must be Fallen"),
    }
    assert_eq!(roster.n_alive(), alive_before);
    assert!(sched.fallen_passed);
    assert_eq!(sched.consecutive_rounds_without_deaths, 0);
}

#[test]
fn deathless_fallen_round_lengthens_the_streak() {
    let c = catalog();
    let mut roster = roster_of(4);
    let mut sched = Scheduler {
        day: 2,
        days_since_last_event: 0,
        consecutive_rounds_without_deaths: 1,
        bloodbath_passed: true,
        day_passed: true,
        fallen_passed: false,
        night_passed: false,
    };
    match simulation_step(&mut roster, &mut sched, &c) {
        StepOutcome::Fallen { shots, report } => {
            assert_eq!(shots, 0);
            assert!(report.is_none());
        }
        _ => panic!("the step after a Day round must be Fallen"),
    }
    assert_eq!(sched.consecutive_rounds_without_deaths, 2);
}

#[test]
fn simulation_runs_to_its_natural_end() {
    // the loop exits exactly when fewer than two tributes live
    let c = catalog();
    let mut roster = roster_of(12);
    let mut sched = Scheduler::new();
    let mut steps = 0u64;
    loop {
        steps += 1;
        assert!(steps < 1_000_000, "the simulation made no progress");
        match simulation_step(&mut roster, &mut sched, &c) {
            StepOutcome::Finished { summary } => {
                assert!(roster.n_alive() < 2);
                assert!(summary.starts_with("Simulation Complete: \n"));
                break;
            }
            StepOutcome::Round { units, day, .. } => {
                assert!(roster.n_alive() >= 1);
                assert!(day >= 1);
                for u in &units {
                    assert_eq!(u.members.len(), u.cards.len());
                }
            }
            StepOutcome::Fallen { .. } => {}
        }
    }
    // every recorded death lies on a day the simulation reached
    for j in 0..roster.len() {
        if !roster.get_alive(j) {
            let d = roster.get_deathday(j);
            assert!(1 <= d && d <= sched.day);
        } else {
            assert_eq!(roster.get_deathday(j), 0);
        }
    }
}

#[test]
fn missing_category_falls_back_to_bloodbath_entry() {
    let mut c = catalog();
    c.day = None;
    assert!(c.validate());
    // drive the scheduler into a Day round
    let mut roster = roster_of(6);
    let mut sched = Scheduler {
        day: 2,
        days_since_last_event: 0,
        consecutive_rounds_without_deaths: 0,
        bloodbath_passed: true,
        day_passed: false,
        fallen_passed: false,
        night_passed: false,
    };
    loop {
        match simulation_step(&mut roster, &mut sched, &c) {
            StepOutcome::Round { round, title, fell_back, .. } => {
                if round == RoundType::Day {
                    assert!(fell_back);
                    assert_eq!(title, "The bloodbath of day {0}");
                    break;
                }
            }
            StepOutcome::Finished { .. } => panic!("six tributes cannot be down to one already"),
            StepOutcome::Fallen { .. } => panic!("no Day round has passed yet"),
        }
    }
}
