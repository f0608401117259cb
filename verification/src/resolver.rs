//! The event resolver: drains the available tributes of one round by
//! drawing catalog actions, assigning randomly drawn tributes to their
//! placeholders, and applying kill credit and deaths.

use vstd::pervasive::unreached;
use vstd::prelude::*;

use crate::catalog::{Action, EventEntry};
use crate::rng::rand_below;
use crate::roster::{
    activated_t, count_alive, count_available, credited_t, killed_t, lemma_count_alive_pointwise,
    lemma_count_available_pointwise, lemma_count_available_take_succ, lemma_count_available_update,
    Roster, TributeCard,
};
use crate::tribute::Tribute;

verus! {

/// A uniformly random index below `n`.
pub(crate) fn rand_index(n: usize) -> (r: usize)
    requires
        1 <= n,
    ensures
        r < n,
{
    let x = rand_below(n as u64);
    x as usize
}

/// `j` is one of the drawn roster indices.
pub open spec fn is_member(j: int, members: Seq<usize>) -> bool {
    exists|p: int| 0 <= p < members.len() && members[p] == j
}

/// `j` is the roster index of a killed placeholder.
pub open spec fn is_killed_target(j: int, killed: Seq<usize>, members: Seq<usize>) -> bool {
    exists|a: int| 0 <= a < killed.len() && members[killed[a] as int] == j
}

/// `j` is the roster index of a credited killer placeholder.
pub open spec fn is_killer_target(j: int, killer: Seq<Option<usize>>, members: Seq<usize>) -> bool {
    exists|a: int|
        #![trigger killer[a]]
        0 <= a < killer.len() && (killer[a] matches Some(k) && 0 <= k < members.len()
            && members[k as int] == j)
}

/// `t2` and `t1` agree on every descriptive field: name, identifier, gender,
/// the four labels, and the avatar.
pub open spec fn same_identity(t2: Tribute, t1: Tribute) -> bool {
    t2 == (Tribute {
        alive: t2.alive,
        available: t2.available,
        deathday: t2.deathday,
        killcount: t2.killcount,
        ..t1
    })
}

/// `t2` and `t1` agree on everything but the kill count.
pub open spec fn same_except_killcount(t2: Tribute, t1: Tribute) -> bool {
    t2 == (Tribute { killcount: t2.killcount, ..t1 })
}

/// How one resolved round may change a tribute: the descriptive fields
/// stay, kill credit only grows, the dead stay exactly as they were, and a
/// death that happens this round carries this round's day.
pub open spec fn life_monotone(t2: Tribute, t1: Tribute, day: u64) -> bool {
    &&& same_identity(t2, t1)
    &&& t2.killcount >= t1.killcount
    &&& (t2.alive ==> t1.alive)
    &&& (!t1.alive ==> t2 == t1)
    &&& (t1.alive && t2.alive ==> t2.deathday == t1.deathday)
    &&& (t1.alive && !t2.alive ==> t2.deathday == day)
}

pub proof fn lemma_life_monotone_trans(t3: Tribute, t2: Tribute, t1: Tribute, day: u64)
    requires
        life_monotone(t3, t2, day),
        life_monotone(t2, t1, day),
    ensures
        life_monotone(t3, t1, day),
{
}

/// The roster index of the tribute of the given rank among the available
/// ones, scanning in roster order.
fn nth_available(roster: &Roster, rank: usize) -> (i: usize)
    requires
        rank < count_available(roster@),
    ensures
        i < roster@.len(),
        roster@[i as int].available,
{
    let len = roster.len();
    let mut seen: usize = 0;
    let mut j: usize = 0;
    while j < len
        invariant
            j <= len,
            len == roster@.len(),
            rank < count_available(roster@),
            seen == count_available(roster@.take(j as int)),
            seen <= rank,
        decreases len - j,
    {
        proof {
            lemma_count_available_take_succ(roster@, j as int);
        }
        if roster.get_available(j) {
            if seen == rank {
                return j;
            }
            seen = seen + 1;
        }
        j = j + 1;
    }
    proof {
        assert(roster@.take(len as int) =~= roster@);
        assert(false);
    }
    unreached()
}

/// Draw `count` distinct tributes uniformly from the available ones, in
/// draw order, marking each unavailable as it is drawn. The draw order
/// defines the placeholder numbering of the action.
#[verifier::loop_isolation(false)]
pub fn draw_members(roster: &mut Roster, count: usize) -> (members: Vec<usize>)
    requires
        old(roster).wf(),
        count <= count_available(old(roster)@),
    ensures
        members@.len() == count,
        forall|p: int, q: int| 0 <= p < q < count ==> members@[p] != members@[q],
        forall|p: int| 0 <= p < count ==> (#[trigger] members@[p]) < old(roster)@.len(),
        forall|p: int| 0 <= p < count ==> old(roster)@[#[trigger] members@[p] as int].available,
        final(roster)@.len() == old(roster)@.len(),
        forall|j: int|
            0 <= j < old(roster)@.len() ==> #[trigger] final(roster)@[j] == (if is_member(
                j,
                members@,
            ) {
                (Tribute { available: false, ..old(roster)@[j] })
            } else {
                old(roster)@[j]
            }),
        count_available(final(roster)@) == count_available(old(roster)@) - count,
        final(roster).wf(),
{
    let mut members: Vec<usize> = Vec::new();
    let mut c: usize = 0;
    while c < count
        invariant
            c <= count,
            members@.len() == c,
            forall|p: int, q: int| 0 <= p < q < c ==> members@[p] != members@[q],
            forall|p: int| 0 <= p < c ==> (#[trigger] members@[p]) < old(roster)@.len(),
            forall|p: int| 0 <= p < c ==> old(roster)@[#[trigger] members@[p] as int].available,
            roster@.len() == old(roster)@.len(),
            forall|j: int|
                0 <= j < old(roster)@.len() ==> #[trigger] roster@[j] == (if is_member(
                    j,
                    members@,
                ) {
                    (Tribute { available: false, ..old(roster)@[j] })
                } else {
                    old(roster)@[j]
                }),
            count_available(roster@) == count_available(old(roster)@) - c,
        decreases count - c,
    {
        let ghost pre = roster@;
        let ghost pre_members = members@;
        let n_av = roster.n_available();
        let rank = rand_index(n_av);
        let idx = nth_available(roster, rank);
        proof {
            // the drawn tribute is still available, so it is none of the
            // members drawn so far and its state is untouched
            assert(!is_member(idx as int, pre_members));
            assert(pre[idx as int] == old(roster)@[idx as int]);
        }
        members.push(idx);
        roster.set_unavailable(idx);
        proof {
            lemma_count_available_update(
                pre,
                idx as int,
                (Tribute { available: false, ..pre[idx as int] }),
            );
            assert forall|j: int| 0 <= j < old(roster)@.len() implies #[trigger] roster@[j] == (
            if is_member(j, members@) {
                (Tribute { available: false, ..old(roster)@[j] })
            } else {
                old(roster)@[j]
            }) by {
                if j == idx as int {
                    assert(members@[c as int] == idx);
                    assert(is_member(j, members@));
                } else {
                    assert(roster@[j] == pre[j]);
                    if is_member(j, members@) {
                        let p = choose|p: int| 0 <= p < members@.len() && members@[p] == j;
                        assert(pre_members[p] == j);
                        assert(is_member(j, pre_members));
                    } else {
                        assert(!is_member(j, pre_members)) by {
                            if is_member(j, pre_members) {
                                let p = choose|p: int|
                                    0 <= p < pre_members.len() && pre_members[p] == j;
                                assert(members@[p] == j);
                            }
                        }
                    }
                }
            }
        }
        c = c + 1;
    }
    proof {
        assert forall|p: int| 0 <= p < count implies !final(roster)@[(#[trigger] members@[p]) as int].available by {
            assert(is_member(members@[p] as int, members@));
        }
        assert forall|j: int| 0 <= j < final(roster)@.len() implies (#[trigger] final(roster)@[j]).wf() by {
            assert(old(roster)@[j].wf());
        }
    }
    members
}

/// The roster after the killer placeholders of an action are credited, one
/// entry at a time in list order.
pub open spec fn spec_apply_killers(
    s: Seq<Tribute>,
    killer: Seq<Option<usize>>,
    members: Seq<usize>,
) -> Seq<Tribute>
    decreases killer.len(),
{
    if killer.len() == 0 {
        s
    } else {
        let s1 = spec_apply_killers(s, killer.drop_last(), members);
        match killer.last() {
            Some(k) => {
                let m = members[k as int] as int;
                s1.update(m, credited_t(s1[m]))
            },
            None => s1,
        }
    }
}

/// The roster after the killed placeholders of an action die on `day`, one
/// entry at a time in list order.
pub open spec fn spec_apply_killed(
    s: Seq<Tribute>,
    killed: Seq<usize>,
    members: Seq<usize>,
    day: u64,
) -> Seq<Tribute>
    decreases killed.len(),
{
    if killed.len() == 0 {
        s
    } else {
        let s1 = spec_apply_killed(s, killed.drop_last(), members, day);
        let m = members[killed.last() as int] as int;
        s1.update(m, killed_t(s1[m], day))
    }
}

/// The roster after one action is applied to its drawn members: kill credit
/// first, then the deaths.
pub open spec fn spec_apply_action(
    s: Seq<Tribute>,
    action: Action,
    members: Seq<usize>,
    day: u64,
) -> Seq<Tribute> {
    spec_apply_killed(spec_apply_killers(s, action.killer@, members), action.killed@, members, day)
}

/// Crediting killers changes kill counts and nothing else, and only of the
/// targeted members.
pub proof fn lemma_apply_killers_frame(
    s: Seq<Tribute>,
    killer: Seq<Option<usize>>,
    members: Seq<usize>,
)
    requires
        forall|a: int|
            0 <= a < killer.len() ==> ((#[trigger] killer[a]) matches Some(k) ==> k
                < members.len()),
        forall|p: int| 0 <= p < members.len() ==> (#[trigger] members[p]) < s.len(),
    ensures
        spec_apply_killers(s, killer, members).len() == s.len(),
        forall|j: int|
            0 <= j < s.len() ==> same_except_killcount(
                #[trigger] spec_apply_killers(s, killer, members)[j],
                s[j],
            ) && spec_apply_killers(s, killer, members)[j].killcount >= s[j].killcount,
        forall|j: int|
            0 <= j < s.len() && !is_killer_target(j, killer, members) ==> spec_apply_killers(
                s,
                killer,
                members,
            )[j] == s[j],
    decreases killer.len(),
{
    if killer.len() > 0 {
        let prefix = killer.drop_last();
        assert forall|a: int| 0 <= a < prefix.len() implies ((#[trigger] prefix[a]) matches Some(k)
            ==> k < members.len()) by {
            assert(prefix[a] == killer[a]);
        }
        lemma_apply_killers_frame(s, prefix, members);
        let s1 = spec_apply_killers(s, prefix, members);
        let r = spec_apply_killers(s, killer, members);
        assert forall|j: int|
            0 <= j < s.len() && !is_killer_target(j, killer, members) implies r[j] == s[j] by {
            assert(!is_killer_target(j, prefix, members)) by {
                if is_killer_target(j, prefix, members) {
                    let a = choose|a: int|
                        #![trigger prefix[a]]
                        0 <= a < prefix.len() && (prefix[a] matches Some(k) && 0 <= k
                            < members.len() && members[k as int] == j);
                    assert(killer[a] == prefix[a]);
                    assert(is_killer_target(j, killer, members));
                }
            }
            match killer.last() {
                Some(k) => {
                    if k < members.len() {
                        assert(members[k as int] as int != j);
                    }
                },
                None => {},
            }
        }
    }
}

/// Applying the deaths of an action: each killed placeholder's member dies
/// on `day`, everyone else is untouched, and the count of the living drops
/// by exactly the number of killed placeholders.
pub proof fn lemma_apply_killed(s: Seq<Tribute>, killed: Seq<usize>, members: Seq<usize>, day: u64)
    requires
        forall|a: int| 0 <= a < killed.len() ==> (#[trigger] killed[a]) < members.len(),
        forall|a: int, b: int| 0 <= a < b < killed.len() ==> killed[a] != killed[b],
        forall|p: int| 0 <= p < members.len() ==> (#[trigger] members[p]) < s.len(),
        forall|p: int, q: int| 0 <= p < q < members.len() ==> members[p] != members[q],
        forall|a: int|
            0 <= a < killed.len() ==> s[members[#[trigger] killed[a] as int] as int].alive,
    ensures
        spec_apply_killed(s, killed, members, day).len() == s.len(),
        forall|j: int|
            0 <= j < s.len() && !is_killed_target(j, killed, members) ==> #[trigger] spec_apply_killed(
                s,
                killed,
                members,
                day,
            )[j] == s[j],
        forall|a: int|
            0 <= a < killed.len() ==> spec_apply_killed(s, killed, members, day)[members[
                #[trigger] killed[a] as int] as int] == killed_t(
                s[members[killed[a] as int] as int],
                day,
            ),
        count_alive(spec_apply_killed(s, killed, members, day)) == count_alive(s) - killed.len(),
    decreases killed.len(),
{
    if killed.len() > 0 {
        let prefix = killed.drop_last();
        assert forall|a: int| 0 <= a < prefix.len() implies (#[trigger] prefix[a]) < members.len()
            && s[members[prefix[a] as int] as int].alive by {
            assert(prefix[a] == killed[a]);
            assert(s[members[killed[a] as int] as int].alive);
        }
        lemma_apply_killed(s, prefix, members, day);
        let s1 = spec_apply_killed(s, prefix, members, day);
        let r = spec_apply_killed(s, killed, members, day);
        let klast = killed.last();
        let m = members[klast as int] as int;
        // the last target was not hit by any earlier kill
        assert(!is_killed_target(m, prefix, members)) by {
            if is_killed_target(m, prefix, members) {
                let a = choose|a: int|
                    0 <= a < prefix.len() && members[prefix[a] as int] as int == m;
                assert(killed[a] == prefix[a]);
                if killed[a] != klast {
                    assert(members[killed[a] as int] != members[klast as int]);
                }
            }
        }
        assert(s1[m] == s[m]);
        assert(r == s1.update(m, killed_t(s1[m], day)));
        // frame
        assert forall|j: int|
            0 <= j < s.len() && !is_killed_target(j, killed, members) implies #[trigger] r[j]
            == s[j] by {
            assert(j != m) by {
                assert(members[klast as int] as int == m);
            }
            assert(!is_killed_target(j, prefix, members)) by {
                if is_killed_target(j, prefix, members) {
                    let a = choose|a: int|
                        0 <= a < prefix.len() && members[prefix[a] as int] as int == j;
                    assert(killed[a] == prefix[a]);
                }
            }
        }
        // each killed placeholder's member ends up dead on `day`
        assert forall|a: int| 0 <= a < killed.len() implies r[members[#[trigger] killed[a] as int]
            as int] == killed_t(s[members[killed[a] as int] as int], day) by {
            let ma = members[killed[a] as int] as int;
            if a == killed.len() - 1 {
                assert(r[m] == killed_t(s[m], day));
            } else {
                assert(prefix[a] == killed[a]);
                assert(s1[ma] == killed_t(s[ma], day));
                assert(killed[a] != klast);
                assert(members[killed[a] as int] != members[klast as int]);
                assert(r[ma] == s1[ma]);
            }
        }
        // the last kill removes one living tribute
        crate::roster::lemma_count_alive_update(s1, m, killed_t(s1[m], day));
    }
}

/// Apply one action to its drawn members: credit each killer placeholder,
/// then mark each killed placeholder's member dead on `day`. Everyone not
/// drawn — and every drawn member no killed placeholder refers to — keeps
/// its life-state; the count of the living drops by exactly the number of
/// killed placeholders.
#[verifier::loop_isolation(false)]
pub fn apply_action(roster: &mut Roster, action: &Action, members: &Vec<usize>, day: u64)
    requires
        old(roster).wf(),
        action.wf(),
        members@.len() == action.tributes,
        forall|p: int| 0 <= p < members@.len() ==> (#[trigger] members@[p]) < old(roster)@.len(),
        forall|p: int, q: int| 0 <= p < q < members@.len() ==> members@[p] != members@[q],
        forall|p: int| 0 <= p < members@.len() ==> old(roster)@[#[trigger] members@[p] as int].alive,
        forall|p: int|
            0 <= p < members@.len() ==> !old(roster)@[#[trigger] members@[p] as int].available,
        1 <= day,
    ensures
        final(roster)@ == spec_apply_action(old(roster)@, *action, members@, day),
        final(roster)@.len() == old(roster)@.len(),
        final(roster).wf(),
        forall|j: int|
            0 <= j < old(roster)@.len() ==> life_monotone(
                #[trigger] final(roster)@[j],
                old(roster)@[j],
                day,
            ),
        forall|j: int|
            0 <= j < old(roster)@.len() ==> (#[trigger] final(roster)@[j]).available == old(
                roster,
            )@[j].available,
        forall|j: int|
            0 <= j < old(roster)@.len() && !is_member(j, members@) ==> #[trigger] final(roster)@[j]
                == old(roster)@[j],
        forall|a: int|
            0 <= a < action.killed@.len() ==> {
                let m = members@[#[trigger] action.killed@[a] as int] as int;
                !final(roster)@[m].alive && !final(roster)@[m].available && final(roster)@[m].deathday
                    == day
            },
        forall|p: int|
            0 <= p < members@.len() && !action.killed@.contains(p as usize) ==> {
                let m = (#[trigger] members@[p]) as int;
                final(roster)@[m].alive && final(roster)@[m].deathday == old(roster)@[m].deathday
            },
        count_alive(final(roster)@) == count_alive(old(roster)@) - action.killed@.len(),
{
    let kl = action.killer.len();
    let mut i: usize = 0;
    while i < kl
        invariant
            i <= kl,
            roster@.len() == old(roster)@.len(),
            roster@ == spec_apply_killers(old(roster)@, action.killer@.take(i as int), members@),
        decreases kl - i,
    {
        proof {
            assert(action.killer@.take(i + 1).drop_last() =~= action.killer@.take(i as int));
            assert(action.killer@.take(i + 1).last() == action.killer@[i as int]);
        }
        match action.killer[i] {
            Some(k) => {
                roster.add_kill(members[k]);
            },
            None => {},
        }
        i = i + 1;
    }
    proof {
        assert(action.killer@.take(kl as int) =~= action.killer@);
    }
    let ghost sk = roster@;
    proof {
        lemma_apply_killers_frame(old(roster)@, action.killer@, members@);
    }
    let nl = action.killed.len();
    let mut a: usize = 0;
    while a < nl
        invariant
            a <= nl,
            roster@.len() == old(roster)@.len(),
            roster@ == spec_apply_killed(sk, action.killed@.take(a as int), members@, day),
        decreases nl - a,
    {
        proof {
            assert(action.killed@.take(a + 1).drop_last() =~= action.killed@.take(a as int));
            assert(action.killed@.take(a + 1).last() == action.killed@[a as int]);
        }
        roster.kill(members[action.killed[a]], day);
        a = a + 1;
    }
    proof {
        assert(action.killed@.take(nl as int) =~= action.killed@);
        assert(roster@ == spec_apply_action(old(roster)@, *action, members@, day));
        assert forall|p: int| 0 <= p < members@.len() implies sk[(#[trigger] members@[p]) as int].alive
            && !sk[members@[p] as int].available by {
            assert(same_except_killcount(sk[members@[p] as int], old(roster)@[members@[p] as int]));
        }
        lemma_apply_killed(sk, action.killed@, members@, day);
        crate::roster::lemma_count_alive_pointwise(sk, old(roster)@);
        // pointwise facts, case by case
        assert forall|j: int| 0 <= j < old(roster)@.len() implies life_monotone(
            #[trigger] roster@[j],
            old(roster)@[j],
            day,
        ) && roster@[j].available == old(roster)@[j].available && roster@[j].wf() by {
            assert(old(roster)@[j].wf());
            if is_killed_target(j, action.killed@, members@) {
                let b = choose|b: int|
                    0 <= b < action.killed@.len() && members@[action.killed@[b] as int] as int == j;
                assert(roster@[j] == killed_t(sk[j], day));
                assert(old(roster)@[j].alive);
            } else {
                assert(roster@[j] == sk[j]);
            }
        }
        assert forall|j: int|
            0 <= j < old(roster)@.len() && !is_member(j, members@) implies #[trigger] roster@[j]
            == old(roster)@[j] by {
            assert(!is_killer_target(j, action.killer@, members@)) by {
                if is_killer_target(j, action.killer@, members@) {
                    let b = choose|b: int|
                        #![trigger action.killer@[b]]
                        0 <= b < action.killer@.len() && (action.killer@[b] matches Some(k) && 0
                            <= k < members@.len() && members@[k as int] == j);
                    let k = action.killer@[b]->0;
                    assert(members@[k as int] == j);
                    assert(is_member(j, members@));
                }
            }
            assert(!is_killed_target(j, action.killed@, members@)) by {
                if is_killed_target(j, action.killed@, members@) {
                    let b = choose|b: int|
                        0 <= b < action.killed@.len() && members@[action.killed@[b] as int] as int
                            == j;
                    assert(members@[action.killed@[b] as int] as int == j);
                    assert(is_member(j, members@));
                }
            }
            assert(sk[j] == old(roster)@[j]);
            assert(roster@[j] == sk[j]);
        }
        assert forall|a2: int| 0 <= a2 < action.killed@.len() implies {
            let m = members@[#[trigger] action.killed@[a2] as int] as int;
            !roster@[m].alive && !roster@[m].available && roster@[m].deathday == day
        } by {
            let m = members@[action.killed@[a2] as int] as int;
            assert(roster@[m] == killed_t(sk[m], day));
        }
        assert forall|p: int|
            0 <= p < members@.len() && !action.killed@.contains(p as usize) implies {
            let m = (#[trigger] members@[p]) as int;
            roster@[m].alive && roster@[m].deathday == old(roster)@[m].deathday
        } by {
            let m = members@[p] as int;
            assert(!is_killed_target(m, action.killed@, members@)) by {
                if is_killed_target(m, action.killed@, members@) {
                    let b = choose|b: int|
                        0 <= b < action.killed@.len() && members@[action.killed@[b] as int] as int
                            == m;
                    assert(members@[action.killed@[b] as int] == members@[p]);
                    assert(action.killed@[b] as int == p) by {
                        if action.killed@[b] as int != p {
                            assert(members@[action.killed@[b] as int] != members@[p]);
                        }
                    }
                    assert(action.killed@.contains(p as usize));
                }
            }
            assert(roster@[m] == sk[m]);
            assert(same_except_killcount(sk[m], old(roster)@[m]));
            assert(old(roster)@[m].alive);
        }
    }
}

/// How many infeasible draws one round tolerates before it gives up and
/// skips the rest of the round, so that pathological catalog data cannot
/// spin the resolver forever.
pub const ACTION_RETRY_LIMIT: u64 = 1000;

/// The message is the template of one of the entry's actions.
pub open spec fn msg_in_entry(e: EventEntry, m: Seq<char>) -> bool {
    ||| exists|a: int| 0 <= a < e.fatal@.len() && (#[trigger] e.fatal@[a]).msg@ == m
    ||| exists|a: int| 0 <= a < e.nonfatal@.len() && (#[trigger] e.nonfatal@[a]).msg@ == m
}

/// One resolved action, ready for rendering: the message template, the
/// drawn roster indices in placeholder order, and the substitution card of
/// each drawn tribute.
pub struct NarrativeUnit {
    pub msg: String,
    pub members: Vec<usize>,
    pub cards: Vec<TributeCard>,
}

/// Every drawn tribute of every unit is marked unavailable in `s`.
pub open spec fn units_consumed(units: Seq<NarrativeUnit>, s: Seq<Tribute>) -> bool {
    forall|u: int, p: int|
        0 <= u < units.len() && 0 <= p < units[u].members@.len() ==> !s[(
        #[trigger] units[u].members@[p]) as int].available
}

/// No tribute appears twice across the units of one round: each is consumed
/// by at most one action.
pub open spec fn units_distinct(units: Seq<NarrativeUnit>) -> bool {
    forall|u1: int, p1: int, u2: int, p2: int|
        #![trigger units[u1].members@[p1], units[u2].members@[p2]]
        0 <= u1 < units.len() && 0 <= p1 < units[u1].members@.len() && 0 <= u2 < units.len() && 0
            <= p2 < units[u2].members@.len() && (u1 != u2 || p1 != p2) ==> units[u1].members@[p1]
            != units[u2].members@[p2]
}

/// `j` is drawn by one of the round's units.
pub open spec fn in_some_unit(j: int, units: Seq<NarrativeUnit>) -> bool {
    exists|u: int, p: int|
        #![trigger units[u].members@[p]]
        0 <= u < units.len() && 0 <= p < units[u].members@.len() && units[u].members@[p] == j
}

/// The availability the resolver leaves behind: a tribute is available after
/// the round exactly when it was alive when the round started and no action
/// of the round drew it.
pub open spec fn round_availability(
    units: Seq<NarrativeUnit>,
    orig: Seq<Tribute>,
    cur: Seq<Tribute>,
) -> bool {
    forall|j: int|
        0 <= j < orig.len() ==> ((#[trigger] cur[j]).available <==> (orig[j].alive && !in_some_unit(
            j,
            units,
        )))
}

/// Some action of the entry cannot fire at roster state `s`: a fatal one
/// that would kill everyone still alive or needs more tributes than are
/// available, or a non-fatal one that needs more tributes than are
/// available. Only such an entry can make the resolver give a round up.
pub open spec fn some_action_infeasible(e: EventEntry, s: Seq<Tribute>) -> bool {
    ||| exists|k: int|
        0 <= k < e.fatal@.len() && ((#[trigger] e.fatal@[k]).killed@.len() >= count_alive(s)
            || e.fatal@[k].tributes > count_available(s))
    ||| exists|k: int|
        0 <= k < e.nonfatal@.len() && (#[trigger] e.nonfatal@[k]).tributes > count_available(s)
}

/// The message is the template of one of the entry's fatal actions.
pub open spec fn msg_in_fatal(e: EventEntry, m: Seq<char>) -> bool {
    exists|a: int| 0 <= a < e.fatal@.len() && (#[trigger] e.fatal@[a]).msg@ == m
}

/// Appending a unit of freshly drawn members keeps the round's units
/// pairwise distinct, all their members consumed, and the availability
/// relation intact: the new members were still available before this draw,
/// every earlier member already was not.
proof fn lemma_units_extend(
    units2: Seq<NarrativeUnit>,
    units1: Seq<NarrativeUnit>,
    unit: NarrativeUnit,
    orig: Seq<Tribute>,
    pre: Seq<Tribute>,
    cur: Seq<Tribute>,
)
    requires
        units2 == units1.push(unit),
        units_distinct(units1),
        units_consumed(units1, pre),
        round_availability(units1, orig, pre),
        orig.len() == pre.len(),
        forall|u: int, p: int|
            0 <= u < units1.len() && 0 <= p < units1[u].members@.len() ==> (#[trigger] units1[u].members@[p])
                < pre.len(),
        forall|p: int| 0 <= p < unit.members@.len() ==> (#[trigger] unit.members@[p]) < pre.len(),
        forall|p: int|
            0 <= p < unit.members@.len() ==> pre[(#[trigger] unit.members@[p]) as int].available,
        forall|p: int, q: int|
            0 <= p < q < unit.members@.len() ==> unit.members@[p] != unit.members@[q],
        cur.len() == pre.len(),
        forall|j: int|
            0 <= j < pre.len() ==> (#[trigger] cur[j]).available == (if is_member(
                j,
                unit.members@,
            ) {
                false
            } else {
                pre[j].available
            }),
    ensures
        units_distinct(units2),
        units_consumed(units2, cur),
        round_availability(units2, orig, cur),
{
    let nu = units2.len() - 1;
    assert forall|j: int| 0 <= j < orig.len() implies ((#[trigger] cur[j]).available <==> (
    orig[j].alive && !in_some_unit(j, units2))) by {
        if is_member(j, unit.members@) {
            let p = choose|p: int| 0 <= p < unit.members@.len() && unit.members@[p] == j;
            assert(units2[nu].members@[p] == j);
            assert(in_some_unit(j, units2));
        } else {
            assert(cur[j].available == pre[j].available);
            if in_some_unit(j, units1) {
                let (u, p): (int, int) = choose|u: int, p: int|
                    #![trigger units1[u].members@[p]]
                    0 <= u < units1.len() && 0 <= p < units1[u].members@.len()
                        && units1[u].members@[p] == j;
                assert(units2[u] == units1[u]);
                assert(units2[u].members@[p] == j);
                assert(in_some_unit(j, units2));
            }
            if in_some_unit(j, units2) {
                let (u, p): (int, int) = choose|u: int, p: int|
                    #![trigger units2[u].members@[p]]
                    0 <= u < units2.len() && 0 <= p < units2[u].members@.len()
                        && units2[u].members@[p] == j;
                if u == nu {
                    assert(unit.members@[p] == j);
                } else {
                    assert(units1[u] == units2[u]);
                    assert(units1[u].members@[p] == j);
                    assert(in_some_unit(j, units1));
                }
            }
        }
    }
    assert forall|u: int, p: int|
        0 <= u < units2.len() && 0 <= p < units2[u].members@.len() implies !cur[(
    #[trigger] units2[u].members@[p]) as int].available by {
        if u < nu {
            assert(units2[u] == units1[u]);
            let m = units1[u].members@[p] as int;
            assert(!pre[m].available);
        } else {
            assert(units2[u] == unit);
            assert(is_member(units2[u].members@[p] as int, unit.members@));
        }
    }
    assert forall|u1: int, p1: int, u2: int, p2: int|
        #![trigger units2[u1].members@[p1], units2[u2].members@[p2]]
        0 <= u1 < units2.len() && 0 <= p1 < units2[u1].members@.len() && 0 <= u2 < units2.len() && 0
            <= p2 < units2[u2].members@.len() && (u1 != u2 || p1 != p2) implies units2[u1].members@[p1]
        != units2[u2].members@[p2] by {
        if u1 < nu && u2 < nu {
            assert(units2[u1] == units1[u1]);
            assert(units2[u2] == units1[u2]);
            assert(units1[u1].members@[p1] != units1[u2].members@[p2]);
        } else if u1 == nu && u2 < nu {
            assert(units2[u2] == units1[u2]);
            assert(pre[unit.members@[p1] as int].available);
            assert(!pre[units1[u2].members@[p2] as int].available);
        } else if u1 < nu && u2 == nu {
            assert(units2[u1] == units1[u1]);
            assert(pre[unit.members@[p2] as int].available);
            assert(!pre[units1[u1].members@[p1] as int].available);
        }
    }
}

/// One draw-and-apply step keeps every tribute's change within
/// `life_monotone` of the round's starting state: the draw only consumes
/// availability, and the action's effects are themselves monotone.
proof fn lemma_round_step_monotone(
    orig: Seq<Tribute>,
    pre: Seq<Tribute>,
    mid: Seq<Tribute>,
    cur: Seq<Tribute>,
    members: Seq<usize>,
    day: u64,
)
    requires
        pre.len() == orig.len(),
        mid.len() == pre.len(),
        cur.len() == mid.len(),
        forall|j: int| 0 <= j < orig.len() ==> life_monotone(#[trigger] pre[j], orig[j], day),
        forall|j: int| 0 <= j < pre.len() ==> (#[trigger] pre[j]).wf(),
        forall|j: int|
            0 <= j < pre.len() ==> #[trigger] mid[j] == (if is_member(j, members) {
                (Tribute { available: false, ..pre[j] })
            } else {
                pre[j]
            }),
        forall|j: int| 0 <= j < mid.len() ==> life_monotone(#[trigger] cur[j], mid[j], day),
    ensures
        forall|j: int| 0 <= j < orig.len() ==> life_monotone(#[trigger] cur[j], orig[j], day),
{
    assert forall|j: int| 0 <= j < orig.len() implies life_monotone(
        #[trigger] cur[j],
        orig[j],
        day,
    ) by {
        assert(life_monotone(mid[j], pre[j], day)) by {
            if is_member(j, members) {
                assert(mid[j] == (Tribute { available: false, ..pre[j] }));
            } else {
                assert(mid[j] == pre[j]);
            }
        }
        lemma_life_monotone_trans(cur[j], mid[j], pre[j], day);
        lemma_life_monotone_trans(cur[j], pre[j], orig[j], day);
    }
}

/// Appending one more fatal-pool message keeps every unit's message in the
/// fatal pool.
proof fn lemma_fatal_msgs_extend(e: EventEntry, units2: Seq<NarrativeUnit>, units1: Seq<NarrativeUnit>)
    requires
        units2.len() == units1.len() + 1,
        forall|u: int| 0 <= u < units1.len() ==> units2[u] == #[trigger] units1[u],
        forall|u: int| 0 <= u < units1.len() ==> msg_in_fatal(e, (#[trigger] units1[u]).msg@),
        msg_in_fatal(e, units2[units2.len() - 1].msg@),
    ensures
        forall|u: int| 0 <= u < units2.len() ==> msg_in_fatal(e, (#[trigger] units2[u]).msg@),
{
    assert forall|u: int| 0 <= u < units2.len() implies msg_in_fatal(
        e,
        (#[trigger] units2[u]).msg@,
    ) by {
        if u < units1.len() {
            assert(units2[u] == units1[u]);
            assert(msg_in_fatal(e, units1[u].msg@));
        }
    }
}

/// Resolve one actionable round: activate the living, then repeatedly draw
/// an action (fatal when the severity draw beats the fatality factor and
/// more than one tribute lives), assign drawn tributes to its placeholders,
/// and apply its kill credit and deaths, until no tribute is left available
/// or too many draws in a row were infeasible.
///
/// Whatever the random draws, the descriptive fields of every tribute stay,
/// the dead stay exactly as they were, every death of the round carries this
/// round's day — and a round never eliminates the whole remaining cast. The
/// round drains: afterwards a tribute is available exactly if it was alive
/// at the round's start and no action drew it, and the round ends only with
/// nobody left available or with an action of the entry infeasible in the
/// final state (the give-up path changes no state, so the witness survives).
/// A fatality factor of ten or more forces every draw to the fatal pool
/// while more than one tribute lives.
#[verifier::loop_isolation(false)]
#[verifier::rlimit(50)]
pub fn resolve_round(
    roster: &mut Roster,
    entry: &EventEntry,
    fatality_factor: u64,
    day: u64,
) -> (units: Vec<NarrativeUnit>)
    requires
        old(roster).wf(),
        entry.wf(),
        1 <= day,
    ensures
        final(roster).wf(),
        final(roster)@.len() == old(roster)@.len(),
        forall|j: int|
            0 <= j < old(roster)@.len() ==> life_monotone(
                #[trigger] final(roster)@[j],
                old(roster)@[j],
                day,
            ),
        count_alive(old(roster)@) >= 1 ==> count_alive(final(roster)@) >= 1,
        units_distinct(units@),
        units_consumed(units@, final(roster)@),
        round_availability(units@, old(roster)@, final(roster)@),
        count_available(final(roster)@) == 0 || some_action_infeasible(*entry, final(roster)@),
        fatality_factor >= 10 && count_alive(final(roster)@) > 1 ==> (forall|u: int|
            0 <= u < units@.len() ==> msg_in_fatal(*entry, (#[trigger] units@[u]).msg@)),
        forall|u: int|
            0 <= u < units@.len() ==> {
                let unit = #[trigger] units@[u];
                &&& msg_in_entry(*entry, unit.msg@)
                &&& 1 <= unit.members@.len()
                &&& unit.cards@.len() == unit.members@.len()
                &&& forall|p: int|
                    0 <= p < unit.members@.len() ==> (#[trigger] unit.members@[p]) < old(
                        roster,
                    )@.len()
            },
{
    roster.activate();
    let ghost base = roster@;
    proof {
        assert forall|j: int| 0 <= j < base.len() implies (#[trigger] base[j]).alive == old(
            roster,
        )@[j].alive by {}
        lemma_count_alive_pointwise(base, old(roster)@);
        assert forall|j: int| 0 <= j < base.len() implies life_monotone(
            #[trigger] base[j],
            old(roster)@[j],
            day,
        ) && base[j].wf() by {
            assert(old(roster)@[j].wf());
            assert(base[j] == activated_t(old(roster)@[j]));
        }
        assert forall|j: int| 0 <= j < old(roster)@.len() implies ((#[trigger] base[j]).available
            <==> (old(roster)@[j].alive && !in_some_unit(j, Seq::<NarrativeUnit>::empty()))) by {
            assert(base[j] == activated_t(old(roster)@[j]));
        }
    }
    let mut units: Vec<NarrativeUnit> = Vec::new();
    let mut retries: u64 = ACTION_RETRY_LIMIT;
    let mut n_avail = roster.n_available();
    while n_avail > 0 && retries > 0
        invariant
            n_avail == count_available(roster@),
            roster@.len() == old(roster)@.len(),
            roster.wf(),
            forall|j: int|
                0 <= j < old(roster)@.len() ==> life_monotone(
                    #[trigger] roster@[j],
                    old(roster)@[j],
                    day,
                ),
            count_alive(old(roster)@) >= 1 ==> count_alive(roster@) >= 1,
            units_distinct(units@),
            units_consumed(units@, roster@),
            round_availability(units@, old(roster)@, roster@),
            retries <= ACTION_RETRY_LIMIT,
            retries < ACTION_RETRY_LIMIT ==> some_action_infeasible(*entry, roster@),
            fatality_factor >= 10 && count_alive(roster@) > 1 ==> (forall|u: int|
                0 <= u < units@.len() ==> msg_in_fatal(*entry, (#[trigger] units@[u]).msg@)),
            forall|u: int|
                0 <= u < units@.len() ==> {
                    let unit = #[trigger] units@[u];
                    &&& msg_in_entry(*entry, unit.msg@)
                    &&& 1 <= unit.members@.len()
                    &&& unit.cards@.len() == unit.members@.len()
                    &&& forall|p: int|
                        0 <= p < unit.members@.len() ==> (#[trigger] unit.members@[p]) < old(
                            roster,
                        )@.len()
                },
        decreases n_avail, retries,
    {
        let f = rand_below(10);
        let nal = roster.n_alive();
        let use_fatal = f < fatality_factor && nal > 1;
        let pool_len = if use_fatal {
            entry.fatal.len()
        } else {
            entry.nonfatal.len()
        };
        let pick = rand_index(pool_len);
        let action = if use_fatal {
            &entry.fatal[pick]
        } else {
            &entry.nonfatal[pick]
        };
        let feasible = (!use_fatal || action.killed.len() < nal) && action.tributes <= n_avail;
        if !feasible {
            // the give-up path changes no state, so the infeasible action
            // just drawn is a witness in the state the loop ends with
            proof {
                assert(some_action_infeasible(*entry, roster@)) by {
                    if use_fatal {
                        assert(*action == entry.fatal@[pick as int]);
                        assert(entry.fatal@[pick as int].killed@.len() >= count_alive(roster@)
                            || entry.fatal@[pick as int].tributes > count_available(roster@));
                    } else {
                        assert(*action == entry.nonfatal@[pick as int]);
                        assert(entry.nonfatal@[pick as int].tributes > count_available(roster@));
                    }
                }
            }
            retries = retries - 1;
        } else {
            let ghost pre = roster@;
            let ghost pre_units = units@;
            proof {
                assert(action.wf());
                assert(action.killed@.len() < count_alive(pre) || count_alive(pre)
                    == 0) by {
                    if use_fatal {
                    } else {
                        assert(action.killed@.len() == 0);
                    }
                }
            }
            let members = draw_members(roster, action.tributes);
            let ghost mid = roster@;
            apply_action(roster, action, &members, day);
            proof {
                lemma_count_alive_pointwise(mid, pre);
                lemma_count_available_pointwise(roster@, mid);
                lemma_round_step_monotone(old(roster)@, pre, mid, roster@, members@, day);
            }
            n_avail = n_avail - action.tributes;
            let mut cards: Vec<TributeCard> = Vec::new();
            let mlen = members.len();
            let mut p: usize = 0;
            while p < mlen
                invariant
                    p <= mlen,
                    cards@.len() == p,
                decreases mlen - p,
            {
                let card = roster.serialize_tribute(members[p]);
                cards.push(card);
                p = p + 1;
            }
            let msg = action.msg.clone();
            proof {
                assert(msg_in_entry(*entry, msg@)) by {
                    if use_fatal {
                        assert(entry.fatal@[pick as int].msg@ == msg@);
                    } else {
                        assert(entry.nonfatal@[pick as int].msg@ == msg@);
                    }
                }
            }
            units.push(NarrativeUnit { msg, members, cards });
            proof {
                assert forall|j: int| 0 <= j < pre.len() implies (#[trigger] roster@[j]).available
                    == (if is_member(j, members@) {
                    false
                } else {
                    pre[j].available
                }) by {
                    assert(roster@[j].available == mid[j].available);
                    if is_member(j, members@) {
                        assert(mid[j] == (Tribute { available: false, ..pre[j] }));
                    } else {
                        assert(mid[j] == pre[j]);
                    }
                }
                assert(units@.last().members@ == members@);
                lemma_units_extend(units@, pre_units, units@.last(), old(roster)@, pre, roster@);
                // while the fatality factor forces the fatal test and more
                // than one tribute lives on, every action came from the
                // fatal pool
                assert(count_alive(roster@) <= count_alive(pre));
                if fatality_factor >= 10 && count_alive(roster@) > 1 {
                    assert(use_fatal);
                    assert(msg_in_fatal(*entry, units@[units@.len() - 1].msg@)) by {
                        assert(entry.fatal@[pick as int].msg@ == units@[units@.len() - 1].msg@);
                    }
                    lemma_fatal_msgs_extend(*entry, units@, pre_units);
                }
            }
            retries = ACTION_RETRY_LIMIT;
        }
    }
    proof {
        if n_avail > 0 {
            assert(retries == 0);
            assert(some_action_infeasible(*entry, roster@));
        }
    }
    units
}

} // verus!
