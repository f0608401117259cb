//! The simulation driver's decision core: one iteration of the outer loop,
//! from the termination check through scheduling, catalog lookup and event
//! resolution. The surrounding program paces the loop, renders the texts and
//! feeds the outcome back in.

use vstd::prelude::*;

use crate::catalog::{spec_entry_for, EventCatalog};
use crate::resolver::{
    life_monotone, msg_in_entry, rand_index, resolve_round, round_availability,
    some_action_infeasible, units_distinct, NarrativeUnit,
};
use crate::roster::{
    count_alive, count_available, count_dead_on, spec_death_summary, spec_game_summary, Roster,
};
use crate::scheduler::{spec_advance, spec_classify, valid_rolls, RoundType, Scheduler};

verus! {

/// What one driver iteration produced: the end of the simulation with its
/// final summary, a Fallen round's report, or an actionable round's
/// narrative units.
pub enum StepOutcome {
    Finished { summary: String },
    Fallen { shots: u64, report: Option<String> },
    Round {
        round: RoundType,
        title: String,
        day: u64,
        fell_back: bool,
        units: Vec<NarrativeUnit>,
    },
}

/// One iteration of the simulation loop. The simulation is over exactly when
/// fewer than two tributes live; otherwise the scheduler classifies the
/// round, a Fallen round is reported without touching the roster, and every
/// other round is resolved against the catalog entry of its category.
pub fn simulation_step(
    roster: &mut Roster,
    sched: &mut Scheduler,
    catalog: &EventCatalog,
) -> (out: StepOutcome)
    requires
        old(roster).wf(),
        catalog.wf(),
        1 <= old(sched).day,
    ensures
        final(roster).wf(),
        final(roster)@.len() == old(roster)@.len(),
        1 <= final(sched).day,
        (out is Finished) <==> count_alive(old(roster)@) < 2,
        (out matches StepOutcome::Finished { summary } ==> final(roster)@ == old(roster)@
            && *final(sched) == *old(sched) && summary@ == spec_game_summary(old(roster)@)),
        (out matches StepOutcome::Fallen { shots, report } ==> {
            &&& final(roster)@ == old(roster)@
            &&& shots == count_dead_on(old(roster)@, final(sched).day)
            &&& (report is Some <==> shots > 0)
            &&& (report matches Some(r) ==> r@ == spec_death_summary(
                old(roster)@,
                final(sched).day,
            ))
            &&& exists|fr: u64, ar: u64, br: u64|
                valid_rolls(fr, ar, br) && {
                    let c = #[trigger] spec_classify(spec_advance(*old(sched)), fr, ar, br);
                    c.1 == RoundType::Fallen && *final(sched) == (Scheduler {
                        consecutive_rounds_without_deaths: if count_dead_on(
                            old(roster)@,
                            c.0.day,
                        ) == 0 {
                            crate::scheduler::sat_add64(c.0.consecutive_rounds_without_deaths, 1)
                        } else {
                            0
                        },
                        ..c.0
                    })
                }
        }),
        (out matches StepOutcome::Round { round, title, day, fell_back, units } ==> {
            &&& day == final(sched).day
            &&& round != RoundType::Fallen
            &&& round != RoundType::NoRound
            &&& count_alive(final(roster)@) >= 1
            &&& forall|j: int|
                0 <= j < old(roster)@.len() ==> life_monotone(
                    #[trigger] final(roster)@[j],
                    old(roster)@[j],
                    day,
                )
            &&& exists|fr: u64, ar: u64, br: u64|
                valid_rolls(fr, ar, br) && {
                    let c = #[trigger] spec_classify(spec_advance(*old(sched)), fr, ar, br);
                    c.1 == round && *final(sched) == c.0
                }
            &&& exists|pk: int|
                {
                    let ef = #[trigger] spec_entry_for(*catalog, round, pk);
                    &&& 0 <= pk
                    &&& (catalog.arena@.len() > 0 ==> pk < catalog.arena@.len())
                    &&& (catalog.arena@.len() == 0 ==> pk == 0)
                    &&& title@ == ef.0.title@
                    &&& fell_back == ef.1
                    &&& (count_available(final(roster)@) == 0 || some_action_infeasible(
                        ef.0,
                        final(roster)@,
                    ))
                    &&& forall|u: int|
                        0 <= u < units@.len() ==> msg_in_entry(ef.0, (#[trigger] units@[u]).msg@)
                }
            &&& units_distinct(units@)
            &&& round_availability(units@, old(roster)@, final(roster)@)
            &&& forall|u: int|
                0 <= u < units@.len() ==> {
                    let unit = #[trigger] units@[u];
                    &&& 1 <= unit.members@.len()
                    &&& unit.cards@.len() == unit.members@.len()
                    &&& forall|p: int|
                        0 <= p < unit.members@.len() ==> (#[trigger] unit.members@[p]) < old(
                            roster,
                        )@.len()
                }
        }),
        count_alive(old(roster)@) >= 2 && spec_advance(*old(sched)).day == 1 && !spec_advance(
            *old(sched),
        ).bloodbath_passed ==> (out matches StepOutcome::Round { round, .. }
            && round == RoundType::Bloodbath),
{
    let nal = roster.n_alive();
    if nal < 2 {
        let summary = roster.game_summary();
        return StepOutcome::Finished { summary };
    }
    let rf = sched.next_round();
    let round = rf.0;
    let factor = rf.1;
    proof {
        let (fr, ar, br): (u64, u64, u64) = choose|fr: u64, ar: u64, br: u64|
            valid_rolls(fr, ar, br) && (*sched, rf.0, rf.1) == #[trigger] spec_classify(
                spec_advance(*old(sched)),
                fr,
                ar,
                br,
            );
        assert(sched.day == spec_advance(*old(sched)).day);
        assert(1 <= sched.day);
    }
    let day = sched.day;
    if round == RoundType::Fallen {
        let shots_count = roster.count_dead_on_day(day);
        let shots = shots_count as u64;
        sched.record_fallen(shots);
        let report = if shots > 0 {
            Some(roster.death_summary_on_day(day))
        } else {
            None
        };
        return StepOutcome::Fallen { shots, report };
    }
    let arena_len = catalog.arena.len();
    let pick = if round == RoundType::Arena && arena_len > 0 {
        rand_index(arena_len)
    } else {
        0
    };
    let lookup = catalog.entry_for(round, pick);
    let entry = lookup.0;
    let fell_back = lookup.1;
    let title = entry.title.clone();
    proof {
        crate::catalog::lemma_entry_for_wf(*catalog, round, pick as int);
    }
    let units = resolve_round(roster, entry, factor, day);
    StepOutcome::Round { round, title, day, fell_back, units }
}

} // verus!
