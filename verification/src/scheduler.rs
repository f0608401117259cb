//! The round scheduler: a state machine that, each iteration, decides the
//! round's category and computes a severity parameter (the fatality factor)
//! from recent history.

use vstd::prelude::*;

use crate::rng::rand_below;

verus! {

/// The closed set of round categories; exactly one is active per iteration.
#[derive(Clone, Copy, PartialEq, Eq, Structural, Debug)]
pub enum RoundType {
    Bloodbath,
    Feast,
    Arena,
    Day,
    Night,
    Fallen,
    NoRound,
}

/// The catalog key of a round category.
pub open spec fn round_name(rt: RoundType) -> Seq<char> {
    match rt {
        RoundType::Bloodbath => "bloodbath"@,
        RoundType::Feast => "feast"@,
        RoundType::Arena => "arena"@,
        RoundType::Day => "day"@,
        RoundType::Night => "night"@,
        RoundType::Fallen => "fallen"@,
        RoundType::NoRound => "none"@,
    }
}

impl RoundType {
    pub fn as_str(&self) -> (r: &'static str)
        ensures
            r@ == round_name(*self),
    {
        match self {
            RoundType::Bloodbath => "bloodbath",
            RoundType::Feast => "feast",
            RoundType::Arena => "arena",
            RoundType::Day => "day",
            RoundType::Night => "night",
            RoundType::Fallen => "fallen",
            RoundType::NoRound => "none",
        }
    }
}

/// Addition on the scheduler's counters that sticks at the top of the range
/// instead of wrapping.
pub open spec fn sat_add64(a: u64, b: u64) -> u64 {
    if a + b <= u64::MAX {
        (a + b) as u64
    } else {
        u64::MAX
    }
}

fn sat_add(a: u64, b: u64) -> (r: u64)
    ensures
        r == sat_add64(a, b),
{
    if a <= u64::MAX - b {
        a + b
    } else {
        u64::MAX
    }
}

/// Out of the 5500 equally likely feast draws, how many select a Feast round
/// after `d` days since the last event: `100*d*d + 9`, i.e. a chance of
/// `(100*d*d + 9) / 55` percent.
pub open spec fn feast_numer(d: int) -> int {
    100 * d * d + 9
}

/// Whether a feast draw from `0..5500` selects a Feast round.
pub fn feast_roll_hits(feast_roll: u64, d: u64) -> (r: bool)
    requires
        feast_roll < 5500,
    ensures
        r == ((feast_roll as int) < feast_numer(d as int)),
{
    if d >= 8 {
        proof {
            assert(feast_numer(d as int) >= 6409) by (nonlinear_arith)
                requires
                    d >= 8,
            ;
        }
        true
    } else {
        proof {
            assert(100 * (d as int) * (d as int) + 9 <= 4909) by (nonlinear_arith)
                requires
                    d <= 7,
            ;
        }
        let t = 100 * d * d + 9;
        feast_roll < t
    }
}

/// The ranges the three classification draws are taken from: the feast draw
/// from `0..5500`, the arena draw from `1..=20`, the base severity draw from
/// `2..4`.
pub open spec fn valid_rolls(feast_roll: u64, arena_roll: u64, base_roll: u64) -> bool {
    &&& feast_roll < 5500
    &&& 1 <= arena_roll <= 20
    &&& 2 <= base_roll < 4
}

/// The scheduler's per-simulation state: the current day, the event and
/// death history, and the four one-shot-per-day flags.
#[derive(Clone, Copy, PartialEq, Eq, Structural, Debug)]
pub struct Scheduler {
    pub day: u64,
    pub days_since_last_event: u64,
    pub consecutive_rounds_without_deaths: u64,
    pub bloodbath_passed: bool,
    pub day_passed: bool,
    pub fallen_passed: bool,
    pub night_passed: bool,
}

/// The state after the pre-classification advance: a passed night ends the
/// day, so the day number and the days since the last event move forward and
/// the per-day flags (except the one-shot bloodbath flag) clear.
pub open spec fn spec_advance(s: Scheduler) -> Scheduler {
    if s.night_passed {
        Scheduler {
            day: sat_add64(s.day, 1),
            days_since_last_event: sat_add64(s.days_since_last_event, 1),
            day_passed: false,
            fallen_passed: false,
            night_passed: false,
            ..s
        }
    } else {
        s
    }
}

/// The classification decision list, first match wins: the state after the
/// round, the selected category, and the fatality factor.
pub open spec fn spec_classify(s: Scheduler, feast_roll: u64, arena_roll: u64, base_roll: u64) -> (
    Scheduler,
    RoundType,
    u64,
) {
    let base = sat_add64(base_roll, s.consecutive_rounds_without_deaths);
    if s.day == 1 && !s.bloodbath_passed {
        (
            Scheduler { bloodbath_passed: true, ..s },
            RoundType::Bloodbath,
            sat_add64(base, 2),
        )
    } else if !s.day_passed && (feast_roll as int) < feast_numer(s.days_since_last_event as int) {
        (Scheduler { days_since_last_event: 0, ..s }, RoundType::Feast, sat_add64(base, 2))
    } else if s.days_since_last_event > 0 && arena_roll == 1 {
        (Scheduler { days_since_last_event: 0, ..s }, RoundType::Arena, sat_add64(base, 1))
    } else if !s.day_passed {
        (Scheduler { day_passed: true, ..s }, RoundType::Day, base)
    } else if s.day_passed && !s.fallen_passed {
        (Scheduler { fallen_passed: true, ..s }, RoundType::Fallen, base)
    } else {
        (Scheduler { night_passed: true, ..s }, RoundType::Night, base)
    }
}

impl Scheduler {
    /// The state at simulation start: day 1, no history, no flag set.
    pub fn new() -> (s: Scheduler)
        ensures
            s.day == 1,
            s.days_since_last_event == 0,
            s.consecutive_rounds_without_deaths == 0,
            !s.bloodbath_passed,
            !s.day_passed,
            !s.fallen_passed,
            !s.night_passed,
    {
        Scheduler {
            day: 1,
            days_since_last_event: 0,
            consecutive_rounds_without_deaths: 0,
            bloodbath_passed: false,
            day_passed: false,
            fallen_passed: false,
            night_passed: false,
        }
    }

    /// The pre-classification advance: if the previous round was a Night,
    /// the day ends.
    pub fn advance_day(&mut self)
        ensures
            *final(self) == spec_advance(*old(self)),
    {
        if self.night_passed {
            self.day = sat_add(self.day, 1);
            self.days_since_last_event = sat_add(self.days_since_last_event, 1);
            self.day_passed = false;
            self.fallen_passed = false;
            self.night_passed = false;
        }
    }

    /// Classify the round from the three given draws; deterministic, so
    /// seeded draws give reproducible rounds.
    pub fn classify_with(&mut self, feast_roll: u64, arena_roll: u64, base_roll: u64) -> (r: (
        RoundType,
        u64,
    ))
        requires
            valid_rolls(feast_roll, arena_roll, base_roll),
        ensures
            (*final(self), r.0, r.1) == spec_classify(*old(self), feast_roll, arena_roll, base_roll),
    {
        let base = sat_add(base_roll, self.consecutive_rounds_without_deaths);
        if self.day == 1 && !self.bloodbath_passed {
            self.bloodbath_passed = true;
            (RoundType::Bloodbath, sat_add(base, 2))
        } else if !self.day_passed && feast_roll_hits(feast_roll, self.days_since_last_event) {
            self.days_since_last_event = 0;
            (RoundType::Feast, sat_add(base, 2))
        } else if self.days_since_last_event > 0 && arena_roll == 1 {
            self.days_since_last_event = 0;
            (RoundType::Arena, sat_add(base, 1))
        } else if !self.day_passed {
            self.day_passed = true;
            (RoundType::Day, base)
        } else if !self.fallen_passed {
            self.fallen_passed = true;
            (RoundType::Fallen, base)
        } else {
            self.night_passed = true;
            (RoundType::Night, base)
        }
    }

    /// Advance the day if a night has passed, draw the three classification
    /// rolls, and classify the round. Whatever the generator returns, the
    /// result is the decision list applied to the advanced state and some
    /// valid draws.
    pub fn next_round(&mut self) -> (r: (RoundType, u64))
        ensures
            exists|feast_roll: u64, arena_roll: u64, base_roll: u64|
                valid_rolls(feast_roll, arena_roll, base_roll) && (*final(self), r.0, r.1)
                    == #[trigger] spec_classify(
                    spec_advance(*old(self)),
                    feast_roll,
                    arena_roll,
                    base_roll,
                ),
            spec_advance(*old(self)).day == 1 && !spec_advance(*old(self)).bloodbath_passed
                ==> r.0 == RoundType::Bloodbath,
    {
        self.advance_day();
        let feast_roll = rand_below(5500);
        let arena_roll = rand_below(20) + 1;
        let base_roll = rand_below(2) + 2;
        let out = self.classify_with(feast_roll, arena_roll, base_roll);
        proof {
            assert(valid_rolls(feast_roll, arena_roll, base_roll) && (*self, out.0, out.1)
                == spec_classify(spec_advance(*old(self)), feast_roll, arena_roll, base_roll));
        }
        out
    }

    /// Record the outcome of a Fallen round: a day without deaths lengthens
    /// the streak of deathless rounds, a death resets it.
    pub fn record_fallen(&mut self, deaths_today: u64)
        ensures
            *final(self) == (Scheduler {
                consecutive_rounds_without_deaths: if deaths_today == 0 {
                    sat_add64(old(self).consecutive_rounds_without_deaths, 1)
                } else {
                    0
                },
                ..*old(self)
            }),
    {
        if deaths_today == 0 {
            self.consecutive_rounds_without_deaths = sat_add(
                self.consecutive_rounds_without_deaths,
                1,
            );
        } else {
            self.consecutive_rounds_without_deaths = 0;
        }
    }
}

/// Law: when the first-round rule does not apply and no Day round has passed
/// yet, the classifier selects Feast exactly when the feast draw falls below
/// `100*d*d + 9` of its 5500 equally likely outcomes — a chance of
/// `(100*d*d + 9) / 55` percent after `d` days since the last event.
pub proof fn lemma_feast_chance(s: Scheduler, feast_roll: u64, arena_roll: u64, base_roll: u64)
    requires
        valid_rolls(feast_roll, arena_roll, base_roll),
        !(s.day == 1 && !s.bloodbath_passed),
        !s.day_passed,
    ensures
        spec_classify(s, feast_roll, arena_roll, base_roll).1 == RoundType::Feast <==> (
        feast_roll as int) < feast_numer(s.days_since_last_event as int),
{
}

/// Law: in the opening state of a simulation (day 1, bloodbath not yet
/// passed), the classifier selects Bloodbath regardless of the draws, and
/// marks the bloodbath as passed.
pub proof fn lemma_first_round_bloodbath(
    s: Scheduler,
    feast_roll: u64,
    arena_roll: u64,
    base_roll: u64,
)
    requires
        s.day == 1,
        !s.bloodbath_passed,
    ensures
        spec_classify(s, feast_roll, arena_roll, base_roll).1 == RoundType::Bloodbath,
        spec_classify(s, feast_roll, arena_roll, base_roll).0.bloodbath_passed,
{
}

/// Law: a Night classification sets `night_passed`, and the next iteration's
/// pre-classification advance then moves to the following day, counts one
/// more day since the last event, and clears the `day_passed`,
/// `fallen_passed` and `night_passed` flags (the one-shot bloodbath flag is
/// deliberately never cleared).
pub proof fn lemma_night_then_new_day(
    s: Scheduler,
    feast_roll: u64,
    arena_roll: u64,
    base_roll: u64,
)
    requires
        spec_classify(s, feast_roll, arena_roll, base_roll).1 == RoundType::Night,
        s.day < u64::MAX,
        s.days_since_last_event < u64::MAX,
    ensures
        ({
            let s1 = spec_classify(s, feast_roll, arena_roll, base_roll).0;
            let s2 = spec_advance(s1);
            &&& s1.night_passed
            &&& s2.day == s.day + 1
            &&& s2.days_since_last_event == s.days_since_last_event + 1
            &&& !s2.day_passed
            &&& !s2.fallen_passed
            &&& !s2.night_passed
            &&& s2.bloodbath_passed == s.bloodbath_passed
        }),
{
}

/// Law (when a Fallen round can start): the classifier selects Fallen only
/// when a Day round has already passed that day and no Fallen round has, and
/// it then sets the one-shot `fallen_passed` flag.
pub proof fn lemma_fallen_needs_day(s: Scheduler, feast_roll: u64, arena_roll: u64, base_roll: u64)
    ensures
        spec_classify(s, feast_roll, arena_roll, base_roll).1 == RoundType::Fallen ==> s.day_passed
            && !s.fallen_passed,
        spec_classify(s, feast_roll, arena_roll, base_roll).1 == RoundType::Fallen ==> spec_classify(
            s,
            feast_roll,
            arena_roll,
            base_roll,
        ).0.fallen_passed,
{
}

/// Law (at most one Fallen round per day): classification never clears the
/// `fallen_passed` or `day_passed` flags — only the day advance after a
/// Night does — and a set `fallen_passed` flag rules Fallen out. Together
/// with the previous law: at most one Fallen round per day, and only after
/// that day's Day round.
pub proof fn lemma_fallen_once_per_day(
    s: Scheduler,
    feast_roll: u64,
    arena_roll: u64,
    base_roll: u64,
)
    ensures
        s.fallen_passed ==> spec_classify(s, feast_roll, arena_roll, base_roll).0.fallen_passed,
        s.day_passed ==> spec_classify(s, feast_roll, arena_roll, base_roll).0.day_passed,
        s.fallen_passed ==> spec_classify(s, feast_roll, arena_roll, base_roll).1
            != RoundType::Fallen,
{
}

} // verus!
