use hungersim::catalog::{Action, EventCatalog, EventEntry};
use hungersim::scheduler::RoundType;
use hungersim::resolver::{apply_action, draw_members, resolve_round};
use hungersim::roster::Roster;
use hungersim::tribute::{IdAllocator, Tribute};

fn roster_of(n: usize) -> Roster {
    let mut ids = IdAllocator::new();
    let mut roster = Roster::new();
    for i in 0..n {
        let name = format!("T{}", i);
        let t = Tribute::from_data(&mut ids, &name, "A", "a.png");
        roster.add_tribute(Box::new(t));
    }
    roster
}

fn action(msg: &str, tributes: usize, killed: Vec<usize>, killer: Vec<Option<usize>>) -> Action {
    Action {
        msg: msg.to_string(),
        tributes,
        killed,
        killer,
    }
}

fn entry(fatal: Vec<Action>, nonfatal: Vec<Action>) -> EventEntry {
    EventEntry {
        title: "Day {0}".to_string(),
        fatal,
        nonfatal,
    }
}

#[test]
fn action_validation_rejects_malformed_data() {
    assert!(action("m", 2, vec![0], vec![Some(1)]).validate());
    // an action must consume at least one tribute
    assert!(!action("m", 0, vec![], vec![]).validate());
    // killed indices must refer to the action's tributes
    assert!(!action("m", 2, vec![2], vec![]).validate());
    // killed indices must be distinct
    assert!(!action("m", 3, vec![1, 1], vec![]).validate());
    // killer indices must refer to the action's tributes
    assert!(!action("m", 2, vec![0], vec![Some(2)]).validate());
    // an absent killer is fine
    assert!(action("m", 2, vec![0], vec![None]).validate());
}

#[test]
fn entry_validation_requires_pools_and_bloodless_nonfatal() {
    let good = entry(
        vec![action("f", 2, vec![0], vec![Some(1)])],
        vec![action("n", 1, vec![], vec![])],
    );
    assert!(good.validate());
    // both pools must be non-empty
    assert!(!entry(vec![], vec![action("n", 1, vec![], vec![])]).validate());
    assert!(!entry(vec![action("f", 2, vec![0], vec![])], vec![]).validate());
    // a non-fatal action kills nobody
    let bad = entry(
        vec![action("f", 2, vec![0], vec![])],
        vec![action("n", 2, vec![0], vec![])],
    );
    assert!(!bad.validate());
}

fn small_catalog() -> EventCatalog {
    EventCatalog {
        bloodbath: entry(
            vec![action("{0.name} kills {1.name}", 2, vec![1], vec![Some(0)])],
            vec![action("{0.name} hides", 1, vec![], vec![])],
        ),
        feast: None,
        day: Some(entry(
            vec![action("{0.name} ambushes {1.name}", 2, vec![1], vec![Some(0)])],
            vec![action("{0.name} forages", 1, vec![], vec![])],
        )),
        night: None,
        arena: vec![],
    }
}

#[test]
fn catalog_validation_and_fallback() {
    let catalog = small_catalog();
    assert!(catalog.validate());
    // a present category is found without fallback
    let (e, fell_back) = catalog.entry_for(RoundType::Day, 0);
    assert_eq!(e.title, "Day {0}");
    assert!(!fell_back);
    // a missing category falls back to the bloodbath entry
    let (_, fell_back) = catalog.entry_for(RoundType::Feast, 0);
    assert!(fell_back);
    // an empty arena pool falls back too
    let (_, fell_back) = catalog.entry_for(RoundType::Arena, 0);
    assert!(fell_back);
}

#[test]
fn arena_lookup_picks_from_the_pool() {
    let mut catalog = small_catalog();
    let mut first = entry(
        vec![action("f", 2, vec![0], vec![])],
        vec![action("n", 1, vec![], vec![])],
    );
    first.title = "Arena one".to_string();
    let mut second = entry(
        vec![action("f", 2, vec![0], vec![])],
        vec![action("n", 1, vec![], vec![])],
    );
    second.title = "Arena two".to_string();
    catalog.arena = vec![first, second];
    assert!(catalog.validate());
    let (e, fell_back) = catalog.entry_for(RoundType::Arena, 1);
    assert_eq!(e.title, "Arena two");
    assert!(!fell_back);
}

#[test]
fn draw_members_consumes_distinct_available_tributes() {
    let mut roster = roster_of(6);
    roster.activate();
    let members = draw_members(&mut roster, 4);
    assert_eq!(members.len(), 4);
    for p in 0..members.len() {
        for q in (p + 1)..members.len() {
            assert_ne!(members[p], members[q]);
        }
        assert!(members[p] < 6);
        assert!(!roster.get_available(members[p]));
        assert!(roster.get_alive(members[p]));
    }
    assert_eq!(roster.n_available(), 2);
    assert_eq!(roster.n_alive(), 6);
}

#[test]
fn apply_action_kills_placeholder_and_spares_the_other() {
    // an action with two tributes where placeholder 0 dies, drawing roster
    // indices 7 and 12: index 7 must die with the current day recorded, and
    // index 12 stays alive, merely consumed for the round
    let mut roster = roster_of(13);
    roster.activate();
    roster.set_unavailable(7);
    roster.set_unavailable(12);
    let a = action("{0.name} is slain", 2, vec![0], vec![Some(1)]);
    let members = vec![7usize, 12usize];
    apply_action(&mut roster, &a, &members, 5);
    assert!(!roster.get_alive(7));
    assert!(!roster.get_available(7));
    assert_eq!(roster.get_deathday(7), 5);
    assert!(roster.get_alive(12));
    assert!(!roster.get_available(12));
    assert_eq!(roster.get_deathday(12), 0);
    // the killer placeholder 1 is roster index 12
    assert_eq!(roster.get_killcount(12), 1);
    assert_eq!(roster.get_killcount(7), 0);
    // nobody else was touched
    assert_eq!(roster.n_alive(), 12);
    for j in 0..13 {
        if j != 7 && j != 12 {
            assert!(roster.get_alive(j));
            assert!(roster.get_available(j));
            assert_eq!(roster.get_killcount(j), 0);
        }
    }
}

#[test]
fn resolve_round_drains_the_round_and_spares_someone() {
    let e = entry(
        vec![action("{0.name} kills {1.name}", 2, vec![1], vec![Some(0)])],
        vec![action("{0.name} naps", 1, vec![], vec![])],
    );
    for _ in 0..50 {
        let mut roster = roster_of(8);
        let units = resolve_round(&mut roster, &e, 4, 1);
        // every living tribute was consumed by some action
        assert_eq!(roster.n_available(), 0);
        // a round never eliminates the whole cast
        assert!(roster.n_alive() >= 1);
        // every unit draws at least one tribute and carries its cards
        assert!(!units.is_empty());
        for u in &units {
            assert!(!u.members.is_empty());
            assert_eq!(u.members.len(), u.cards.len());
            for m in &u.members {
                assert!(*m < 8);
            }
        }
        // deaths recorded this round carry this round's day
        for j in 0..8 {
            if !roster.get_alive(j) {
                assert_eq!(roster.get_deathday(j), 1);
            }
        }
        // no tribute acts in two units of one round
        let mut all_members: Vec<usize> = Vec::new();
        for u in &units {
            all_members.extend_from_slice(&u.members);
        }
        for p in 0..all_members.len() {
            for q in (p + 1)..all_members.len() {
                assert_ne!(all_members[p], all_members[q]);
            }
        }
    }
}

#[test]
fn resolve_round_without_deaths_keeps_everyone() {
    // with a fatality factor of zero the fatal pool is never drawn
    let e = entry(
        vec![action("{0.name} kills {1.name}", 2, vec![1], vec![Some(0)])],
        vec![action("{0.name} sings", 1, vec![], vec![])],
    );
    let mut roster = roster_of(5);
    let units = resolve_round(&mut roster, &e, 0, 3);
    assert_eq!(roster.n_alive(), 5);
    assert_eq!(roster.n_available(), 0);
    assert_eq!(units.len(), 5);
    for u in &units {
        assert_eq!(u.msg, "{0.name} sings");
    }
}

#[test]
fn resolve_round_skips_infeasible_rounds() {
    // every action needs more tributes than are available: the retry
    // ceiling must end the round instead of spinning forever
    let e = entry(
        vec![action("f", 9, vec![0], vec![])],
        vec![action("n", 9, vec![], vec![])],
    );
    let mut roster = roster_of(3);
    let units = resolve_round(&mut roster, &e, 4, 1);
    assert!(units.is_empty());
    assert_eq!(roster.n_alive(), 3);
    // a skipped round leaves every living tribute activated and undrawn
    assert_eq!(roster.n_available(), 3);
}

#[test]
fn high_fatality_factor_forces_the_fatal_pool() {
    // with a factor of at least ten every severity draw passes the fatal
    // test, so while more than one tribute lives each action is fatal: on
    // eight tributes that is four two-tribute actions with one death each
    let e = entry(
        vec![action("{0.name} kills {1.name}", 2, vec![1], vec![Some(0)])],
        vec![action("{0.name} rests", 1, vec![], vec![])],
    );
    let mut roster = roster_of(8);
    let units = resolve_round(&mut roster, &e, 10, 2);
    assert_eq!(units.len(), 4);
    for u in &units {
        assert_eq!(u.msg, "{0.name} kills {1.name}");
    }
    assert_eq!(roster.n_alive(), 4);
    assert_eq!(roster.n_available(), 0);
    assert_eq!(roster.count_dead_on_day(2), 4);
}
