use hungersim::roster::Roster;
use hungersim::tribute::{Gender, IdAllocator, Tribute};

fn roster_of(names: &[(&str, &str)]) -> Roster {
    let mut ids = IdAllocator::new();
    let mut roster = Roster::new();
    for (name, gender) in names {
        let t = Tribute::from_data(&mut ids, name, gender, "avatar.png");
        roster.add_tribute(Box::new(t));
    }
    roster
}

#[test]
fn ids_strictly_increase_and_are_never_reused() {
    let mut ids = IdAllocator::new();
    let a = Tribute::new(&mut ids);
    let b = Tribute::new(&mut ids);
    let c = Tribute::from_data(&mut ids, "Cato", "M", "c.png");
    assert!(a.id < b.id);
    assert!(b.id < c.id);
    assert_eq!(a.id, 0);
    assert_eq!(b.id, 1);
    assert_eq!(c.id, 2);
}

#[test]
fn gender_codes_round_trip() {
    assert_eq!(Gender::M.as_str(), "M");
    assert_eq!(Gender::F.as_str(), "F");
    assert_eq!(Gender::A.as_str(), "A");
    assert_eq!(Gender::from_str("M"), Ok(Gender::M));
    assert_eq!(Gender::from_str("F"), Ok(Gender::F));
    assert_eq!(Gender::from_str("A"), Ok(Gender::A));
    assert_eq!(Gender::from_str("x"), Err(()));
    assert_eq!(Gender::from_str(""), Err(()));
    assert_eq!(Gender::from_str("MM"), Err(()));
}

#[test]
fn unknown_gender_code_falls_back() {
    let mut ids = IdAllocator::new();
    let t = Tribute::from_data(&mut ids, "Rue", "?", "r.png");
    assert_eq!(t.gender, Gender::A);
}

#[test]
fn labels_are_placeholders_until_gender_setup() {
    let mut ids = IdAllocator::new();
    let t = Tribute::from_data(&mut ids, "Rue", "F", "r.png");
    assert_eq!(t.gender_label_nominative, "null");
    assert_eq!(t.gender_label_accusative, "null");
    assert_eq!(t.gender_label_genitive, "null");
    assert_eq!(t.gender_label_reflexitive, "null");
    let p = Tribute::new(&mut ids);
    assert_eq!(p.gender_label_nominative, "null");
    assert_eq!(p.gender_label_accusative, "null");
    assert_eq!(p.gender_label_genitive, "null");
    assert_eq!(p.gender_label_reflexitive, "null");
}

#[test]
fn kill_sets_all_three_fields_and_is_idempotent() {
    let mut roster = roster_of(&[("Cato", "M"), ("Rue", "F")]);
    assert_eq!(roster.n_alive(), 2);
    roster.kill(1, 3);
    assert!(!roster.get_alive(1));
    assert!(!roster.get_available(1));
    assert_eq!(roster.get_deathday(1), 3);
    assert_eq!(roster.n_alive(), 1);
    // the second call with the same day is a no-op in observable state
    roster.kill(1, 3);
    assert!(!roster.get_alive(1));
    assert!(!roster.get_available(1));
    assert_eq!(roster.get_deathday(1), 3);
    assert_eq!(roster.n_alive(), 1);
    // the other tribute is untouched
    assert!(roster.get_alive(0));
    assert_eq!(roster.get_deathday(0), 0);
}

#[test]
fn activate_marks_living_available_and_dead_unavailable() {
    let mut roster = roster_of(&[("Cato", "M"), ("Rue", "F"), ("Finnick", "M")]);
    roster.kill(0, 1);
    roster.set_unavailable(1);
    roster.activate();
    assert!(!roster.get_available(0));
    assert!(roster.get_available(1));
    assert!(roster.get_available(2));
    assert_eq!(roster.n_available(), 2);
}

#[test]
fn add_kill_increments_credit() {
    let mut roster = roster_of(&[("Cato", "M")]);
    assert_eq!(roster.get_killcount(0), 0);
    roster.add_kill(0);
    roster.add_kill(0);
    assert_eq!(roster.get_killcount(0), 2);
}

#[test]
fn count_dead_on_day_counts_only_that_day() {
    let mut roster = roster_of(&[("A", "F"), ("B", "M"), ("C", "A"), ("D", "F")]);
    roster.kill(0, 2);
    roster.kill(1, 2);
    roster.kill(2, 4);
    assert_eq!(roster.count_dead_on_day(2), 2);
    assert_eq!(roster.count_dead_on_day(4), 1);
    assert_eq!(roster.count_dead_on_day(3), 0);
    // deathday 0 marks the living, not a death day
    assert_eq!(roster.count_dead_on_day(0), 1);
}

#[test]
fn death_summary_lists_the_day_s_dead() {
    let mut roster = roster_of(&[("Cato", "M"), ("Rue", "F"), ("Finnick", "M")]);
    roster.kill(0, 2);
    roster.kill(2, 2);
    let report = roster.death_summary_on_day(2);
    assert_eq!(
        report,
        "The following tributes have died today: \nCato\nFinnick\n"
    );
}

#[test]
fn gender_setup_assigns_the_four_labels() {
    let mut roster = roster_of(&[("Cato", "M"), ("Rue", "F"), ("Sky", "A")]);
    roster.default_gender_setup();
    let m = roster.serialize_tribute(0);
    assert_eq!(m.gender, "M");
    assert_eq!(m.gen_n, "he");
    assert_eq!(m.gen_a, "him");
    assert_eq!(m.gen_g, "his");
    assert_eq!(m.gen_s, "himself");
    let f = roster.serialize_tribute(1);
    assert_eq!(f.gen_n, "she");
    assert_eq!(f.gen_a, "her");
    assert_eq!(f.gen_g, "her");
    assert_eq!(f.gen_s, "herself");
    let a = roster.serialize_tribute(2);
    assert_eq!(a.gen_n, "they");
    assert_eq!(a.gen_a, "them");
    assert_eq!(a.gen_g, "their");
    assert_eq!(a.gen_s, "themselves");
}

#[test]
fn serialized_card_exposes_only_narrative_fields() {
    // the card carries the name, the gender code and the four labels; the
    // life-state fields have no counterpart in its type
    let mut roster = roster_of(&[("Rue", "F")]);
    roster.default_gender_setup();
    roster.add_kill(0);
    roster.kill(0, 7);
    let card = roster.serialize_tribute(0);
    let rendered = format!(
        "{} {} {} {} {} {}",
        card.name, card.gender, card.gen_n, card.gen_a, card.gen_g, card.gen_s
    );
    assert_eq!(rendered, "Rue F she her her herself");
    assert!(!rendered.contains('7'));
    assert!(!rendered.contains('0'));
}

#[test]
fn roster_listing_shows_index_name_and_id() {
    let roster = roster_of(&[("Cato", "M"), ("Rue", "F")]);
    assert_eq!(
        roster.to_string(),
        "(0): Name: Cato, ID: 0\n(1): Name: Rue, ID: 1\n"
    );
}

#[test]
fn tribute_listing_line() {
    let mut ids = IdAllocator::new();
    let _ = ids.fresh();
    let _ = ids.fresh();
    let t = Tribute::from_data(&mut ids, "Katniss", "F", "k.png");
    assert_eq!(t.to_string(), "Name: Katniss, ID: 2");
}

#[test]
fn final_summary_marks_survivors() {
    let mut roster = roster_of(&[("Abel", "M"), ("Beth", "F"), ("Cora", "F")]);
    roster.kill(0, 2);
    roster.kill(1, 4);
    roster.add_kill(2);
    let summary = roster.game_summary();
    let expected = "Simulation Complete: \nName                 Kills   Died    \n-------------------------------------\nAbel                 0       2      \nBeth                 0       4      \nCora                 1       Survivor\n";
    assert_eq!(summary, expected);
}

#[test]
fn empty_roster_has_empty_listing_and_bare_summary() {
    let roster = Roster::new();
    assert_eq!(roster.len(), 0);
    assert_eq!(roster.n_alive(), 0);
    assert_eq!(roster.to_string(), "");
    let expected = "Simulation Complete: \nName                 Kills   Died    \n-------------------------------------\n";
    assert_eq!(roster.game_summary(), expected);
}

#[test]
fn getters_reflect_construction() {
    let roster = roster_of(&[("Cato", "M")]);
    assert_eq!(roster.len(), 1);
    assert_eq!(roster.get_name(0), "Cato");
    assert_eq!(roster.get_avatar(0), Some("avatar.png".to_string()));
    assert!(roster.get_alive(0));
    assert!(roster.get_available(0));
}
