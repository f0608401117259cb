//! The ordered collection of all tributes for one simulation, with the
//! aggregate queries and bulk life-state mutators the engine relies on.

use vstd::prelude::*;
use vstd::string::StringExecFns;

use crate::numtext::{dec_str, pad_right, pad_to, u64_to_string};
use crate::tribute::{gender_code, spec_tribute_string, Gender, Tribute};

verus! {

/// How many tributes of a sequence satisfy a predicate.
pub open spec fn count_where(s: Seq<Tribute>, p: spec_fn(Tribute) -> bool) -> nat
    decreases s.len(),
{
    if s.len() == 0 {
        0
    } else {
        count_where(s.drop_last(), p) + (if p(s.last()) {
            1nat
        } else {
            0nat
        })
    }
}

pub proof fn lemma_count_where_take_succ(s: Seq<Tribute>, p: spec_fn(Tribute) -> bool, i: int)
    requires
        0 <= i < s.len(),
    ensures
        count_where(s.take(i + 1), p) == count_where(s.take(i), p) + (if p(s[i]) {
            1nat
        } else {
            0nat
        }),
{
    assert(s.take(i + 1).drop_last() =~= s.take(i));
    assert(s.take(i + 1).last() == s[i]);
}

pub proof fn lemma_count_where_update(s: Seq<Tribute>, p: spec_fn(Tribute) -> bool, i: int, t: Tribute)
    requires
        0 <= i < s.len(),
    ensures
        count_where(s.update(i, t), p) + (if p(s[i]) {
            1nat
        } else {
            0nat
        }) == count_where(s, p) + (if p(t) {
            1nat
        } else {
            0nat
        }),
    decreases s.len(),
{
    let s2 = s.update(i, t);
    if i == s.len() - 1 {
        assert(s2.drop_last() =~= s.drop_last());
        assert(s2.last() == t);
    } else {
        assert(s2.drop_last() =~= s.drop_last().update(i, t));
        lemma_count_where_update(s.drop_last(), p, i, t);
        assert(s2.last() == s.last());
    }
}

/// Two tribute sequences of equal length on which a predicate agrees
/// pointwise have the same count.
pub proof fn lemma_count_where_pointwise(
    s1: Seq<Tribute>,
    s2: Seq<Tribute>,
    p: spec_fn(Tribute) -> bool,
)
    requires
        s1.len() == s2.len(),
        forall|j: int| 0 <= j < s1.len() ==> p(#[trigger] s1[j]) == p(s2[j]),
    ensures
        count_where(s1, p) == count_where(s2, p),
    decreases s1.len(),
{
    if s1.len() > 0 {
        let t1 = s1.drop_last();
        let t2 = s2.drop_last();
        assert forall|j: int| 0 <= j < t1.len() implies p(#[trigger] t1[j]) == p(t2[j]) by {
            assert(t1[j] == s1[j]);
            assert(t2[j] == s2[j]);
            assert(p(s1[j]) == p(s2[j]));
        }
        lemma_count_where_pointwise(t1, t2, p);
        assert(p(s1.last()) == p(s2.last()));
    }
}

/// How many tributes of a sequence are alive.
pub open spec fn count_alive(s: Seq<Tribute>) -> nat {
    count_where(s, |t: Tribute| t.alive)
}

/// How many tributes of a sequence are available for the current round.
pub open spec fn count_available(s: Seq<Tribute>) -> nat {
    count_where(s, |t: Tribute| t.available)
}

/// How many tributes of a sequence died on the given day.
pub open spec fn count_dead_on(s: Seq<Tribute>, day: u64) -> nat {
    count_where(s, |t: Tribute| t.deathday == day)
}

pub proof fn lemma_count_alive_update(s: Seq<Tribute>, i: int, t: Tribute)
    requires
        0 <= i < s.len(),
    ensures
        count_alive(s.update(i, t)) + (if s[i].alive {
            1nat
        } else {
            0nat
        }) == count_alive(s) + (if t.alive {
            1nat
        } else {
            0nat
        }),
{
    lemma_count_where_update(s, |t: Tribute| t.alive, i, t);
}

pub proof fn lemma_count_available_update(s: Seq<Tribute>, i: int, t: Tribute)
    requires
        0 <= i < s.len(),
    ensures
        count_available(s.update(i, t)) + (if s[i].available {
            1nat
        } else {
            0nat
        }) == count_available(s) + (if t.available {
            1nat
        } else {
            0nat
        }),
{
    lemma_count_where_update(s, |t: Tribute| t.available, i, t);
}

/// Sequences that agree pointwise on liveness have the same alive count.
pub proof fn lemma_count_alive_pointwise(s1: Seq<Tribute>, s2: Seq<Tribute>)
    requires
        s1.len() == s2.len(),
        forall|j: int| 0 <= j < s1.len() ==> (#[trigger] s1[j]).alive == s2[j].alive,
    ensures
        count_alive(s1) == count_alive(s2),
{
    lemma_count_where_pointwise(s1, s2, |t: Tribute| t.alive);
}

/// Sequences that agree pointwise on availability have the same available
/// count.
pub proof fn lemma_count_available_pointwise(s1: Seq<Tribute>, s2: Seq<Tribute>)
    requires
        s1.len() == s2.len(),
        forall|j: int| 0 <= j < s1.len() ==> (#[trigger] s1[j]).available == s2[j].available,
    ensures
        count_available(s1) == count_available(s2),
{
    lemma_count_where_pointwise(s1, s2, |t: Tribute| t.available);
}

pub proof fn lemma_count_available_take_succ(s: Seq<Tribute>, i: int)
    requires
        0 <= i < s.len(),
    ensures
        count_available(s.take(i + 1)) == count_available(s.take(i)) + (if s[i].available {
            1nat
        } else {
            0nat
        }),
{
    lemma_count_where_take_succ(s, |t: Tribute| t.available, i);
}

/// A counter increment that sticks at the top of its range instead of
/// wrapping.
pub open spec fn sat_inc(k: u64) -> u64 {
    if k == u64::MAX {
        k
    } else {
        (k + 1) as u64
    }
}

/// The tribute as `kill` leaves it: dead, out of the round, with the day of
/// death recorded.
pub open spec fn killed_t(t: Tribute, day: u64) -> Tribute {
    Tribute { alive: false, available: false, deathday: day, ..t }
}

/// The tribute as `add_kill` leaves it: one more kill credited.
pub open spec fn credited_t(t: Tribute) -> Tribute {
    Tribute { killcount: sat_inc(t.killcount), ..t }
}

/// The tribute as `activate` leaves it: available exactly if alive.
pub open spec fn activated_t(t: Tribute) -> Tribute {
    Tribute { available: t.alive, ..t }
}

/// The roster after `kill(i, day)`.
pub open spec fn spec_kill(s: Seq<Tribute>, i: int, day: u64) -> Seq<Tribute> {
    s.update(i, killed_t(s[i], day))
}

/// Law: killing the same tribute twice with the same day changes nothing
/// beyond the first call.
pub proof fn lemma_kill_idempotent(s: Seq<Tribute>, i: int, day: u64)
    requires
        0 <= i < s.len(),
    ensures
        spec_kill(spec_kill(s, i, day), i, day) == spec_kill(s, i, day),
{
    assert(spec_kill(spec_kill(s, i, day), i, day) =~= spec_kill(s, i, day));
}

/// The four grammatical labels derived from a gender tag, in the order
/// nominative, accusative, genitive, reflexive.
pub open spec fn nominative_of(g: Gender) -> Seq<char> {
    match g {
        Gender::M => "he"@,
        Gender::F => "she"@,
        Gender::A => "they"@,
    }
}

pub open spec fn accusative_of(g: Gender) -> Seq<char> {
    match g {
        Gender::M => "him"@,
        Gender::F => "her"@,
        Gender::A => "them"@,
    }
}

pub open spec fn genitive_of(g: Gender) -> Seq<char> {
    match g {
        Gender::M => "his"@,
        Gender::F => "her"@,
        Gender::A => "their"@,
    }
}

pub open spec fn reflexive_of(g: Gender) -> Seq<char> {
    match g {
        Gender::M => "himself"@,
        Gender::F => "herself"@,
        Gender::A => "themselves"@,
    }
}

/// `t2` is `t1` with its four grammatical labels derived from `t1`'s gender
/// and every other field unchanged.
pub open spec fn labeled(t2: Tribute, t1: Tribute) -> bool {
    &&& t2 == (Tribute {
        gender_label_nominative: t2.gender_label_nominative,
        gender_label_accusative: t2.gender_label_accusative,
        gender_label_genitive: t2.gender_label_genitive,
        gender_label_reflexitive: t2.gender_label_reflexitive,
        ..t1
    })
    &&& t2.gender_label_nominative@ == nominative_of(t1.gender)
    &&& t2.gender_label_accusative@ == accusative_of(t1.gender)
    &&& t2.gender_label_genitive@ == genitive_of(t1.gender)
    &&& t2.gender_label_reflexitive@ == reflexive_of(t1.gender)
}

/// The roster listing: one line per tribute with its index.
pub open spec fn spec_roster_listing(s: Seq<Tribute>) -> Seq<char>
    decreases s.len(),
{
    if s.len() == 0 {
        Seq::<char>::empty()
    } else {
        spec_roster_listing(s.drop_last()) + "("@ + dec_str(s.len() - 1) + "): "@
            + spec_tribute_string(s.last()) + "\n"@
    }
}

/// The names of the tributes that died on `day`, one line each.
pub open spec fn spec_death_lines(s: Seq<Tribute>, day: u64) -> Seq<char>
    decreases s.len(),
{
    if s.len() == 0 {
        Seq::<char>::empty()
    } else {
        spec_death_lines(s.drop_last(), day) + (if s.last().deathday == day {
            s.last().name@ + "\n"@
        } else {
            Seq::<char>::empty()
        })
    }
}

/// The death report of a Fallen round.
pub open spec fn spec_death_summary(s: Seq<Tribute>, day: u64) -> Seq<char> {
    "The following tributes have died today: \n"@ + spec_death_lines(s, day)
}

/// One tribute's row of the final summary: name, kill count, and day of
/// death or the Survivor marker, in padded columns.
pub open spec fn spec_summary_row(t: Tribute) -> Seq<char> {
    pad_right(t.name@, 20) + " "@ + pad_right(dec_str(t.killcount as int), 7) + " "@ + pad_right(
        if t.deathday == 0 {
            "Survivor"@
        } else {
            dec_str(t.deathday as int)
        },
        7,
    ) + "\n"@
}

pub open spec fn spec_summary_rows(s: Seq<Tribute>) -> Seq<char>
    decreases s.len(),
{
    if s.len() == 0 {
        Seq::<char>::empty()
    } else {
        spec_summary_rows(s.drop_last()) + spec_summary_row(s.last())
    }
}

/// The final tabular summary, one row per tribute in insertion order.
pub open spec fn spec_game_summary(s: Seq<Tribute>) -> Seq<char> {
    "Simulation Complete: \n"@ + "Name                 Kills   Died    \n"@
        + "-------------------------------------\n"@ + spec_summary_rows(s)
}

/// The substitution data one tribute contributes to a narrative template:
/// the name, the gender code and the four grammatical labels, and nothing
/// else. The life-state fields (id, alive, available, deathday, killcount)
/// have no counterpart here, so no rendering can expose them.
pub struct TributeCard {
    pub name: String,
    pub gender: String,
    pub gen_n: String,
    pub gen_a: String,
    pub gen_g: String,
    pub gen_s: String,
}

/// The ordered roster of tributes; the index is the stable handle used
/// throughout a round.
pub struct Roster {
    tribute_vec: Vec<Tribute>,
}

impl View for Roster {
    type V = Seq<Tribute>;

    closed spec fn view(&self) -> Seq<Tribute> {
        self.tribute_vec@
    }
}

impl Roster {
    /// Every tribute on the roster satisfies its life-state invariant.
    pub open spec fn wf(self) -> bool {
        forall|j: int| 0 <= j < self@.len() ==> (#[trigger] self@[j]).wf()
    }

    pub fn new() -> (r: Roster)
        ensures
            r@ == Seq::<Tribute>::empty(),
    {
        Roster { tribute_vec: Vec::new() }
    }

    pub fn add_tribute(&mut self, tb: Box<Tribute>)
        ensures
            final(self)@ == old(self)@.push(*tb),
    {
        self.tribute_vec.push(*tb);
    }

    pub fn len(&self) -> (n: usize)
        ensures
            n == self@.len(),
    {
        self.tribute_vec.len()
    }

    pub fn n_alive(&self) -> (n: usize)
        ensures
            n == count_alive(self@),
    {
        let len = self.tribute_vec.len();
        let mut n: usize = 0;
        let mut i: usize = 0;
        while i < len
            invariant
                i <= len,
                len == self@.len(),
                n == count_alive(self@.take(i as int)),
                n <= i,
            decreases len - i,
        {
            proof {
                lemma_count_where_take_succ(self@, |t: Tribute| t.alive, i as int);
            }
            if self.tribute_vec[i].alive {
                n = n + 1;
            }
            i = i + 1;
        }
        proof {
            assert(self@.take(len as int) =~= self@);
        }
        n
    }

    pub fn n_available(&self) -> (n: usize)
        ensures
            n == count_available(self@),
    {
        let len = self.tribute_vec.len();
        let mut n: usize = 0;
        let mut i: usize = 0;
        while i < len
            invariant
                i <= len,
                len == self@.len(),
                n == count_available(self@.take(i as int)),
                n <= i,
            decreases len - i,
        {
            proof {
                lemma_count_where_take_succ(self@, |t: Tribute| t.available, i as int);
            }
            if self.tribute_vec[i].available {
                n = n + 1;
            }
            i = i + 1;
        }
        proof {
            assert(self@.take(len as int) =~= self@);
        }
        n
    }

    pub fn count_dead_on_day(&self, day: u64) -> (n: usize)
        ensures
            n == count_dead_on(self@, day),
    {
        let len = self.tribute_vec.len();
        let mut n: usize = 0;
        let mut i: usize = 0;
        while i < len
            invariant
                i <= len,
                len == self@.len(),
                n == count_dead_on(self@.take(i as int), day),
                n <= i,
            decreases len - i,
        {
            proof {
                lemma_count_where_take_succ(self@, |t: Tribute| t.deathday == day, i as int);
            }
            if self.tribute_vec[i].deathday == day {
                n = n + 1;
            }
            i = i + 1;
        }
        proof {
            assert(self@.take(len as int) =~= self@);
        }
        n
    }

    pub fn get_alive(&self, i: usize) -> (r: bool)
        requires
            i < self@.len(),
        ensures
            r == self@[i as int].alive,
    {
        self.tribute_vec[i].alive
    }

    pub fn get_available(&self, i: usize) -> (r: bool)
        requires
            i < self@.len(),
        ensures
            r == self@[i as int].available,
    {
        self.tribute_vec[i].available
    }

    pub fn get_name(&self, i: usize) -> (r: String)
        requires
            i < self@.len(),
        ensures
            r == self@[i as int].name,
    {
        self.tribute_vec[i].name.clone()
    }

    pub fn get_avatar(&self, i: usize) -> (r: Option<String>)
        requires
            i < self@.len(),
        ensures
            r == self@[i as int].avatar,
    {
        match &self.tribute_vec[i].avatar {
            Some(a) => Some(a.clone()),
            None => None,
        }
    }

    pub fn get_deathday(&self, i: usize) -> (r: u64)
        requires
            i < self@.len(),
        ensures
            r == self@[i as int].deathday,
    {
        self.tribute_vec[i].deathday
    }

    pub fn get_killcount(&self, i: usize) -> (r: u64)
        requires
            i < self@.len(),
        ensures
            r == self@[i as int].killcount,
    {
        self.tribute_vec[i].killcount
    }

    /// Mark tribute `i` dead on `day`: no longer alive, no longer available,
    /// with the day of death recorded.
    pub fn kill(&mut self, i: usize, day: u64)
        requires
            i < old(self)@.len(),
            1 <= day,
        ensures
            final(self)@ == spec_kill(old(self)@, i as int, day),
            final(self)@[i as int].wf(),
    {
        self.tribute_vec[i].alive = false;
        self.tribute_vec[i].available = false;
        self.tribute_vec[i].deathday = day;
        proof {
            assert(self@ =~= spec_kill(old(self)@, i as int, day));
        }
    }

    /// Credit tribute `i` with one more kill; the count sticks at the top of
    /// its range instead of wrapping.
    pub fn add_kill(&mut self, i: usize)
        requires
            i < old(self)@.len(),
        ensures
            final(self)@ == old(self)@.update(i as int, credited_t(old(self)@[i as int])),
    {
        if self.tribute_vec[i].killcount < u64::MAX {
            let k = self.tribute_vec[i].killcount;
            self.tribute_vec[i].killcount = k + 1;
        }
        proof {
            assert(self@ =~= old(self)@.update(i as int, credited_t(old(self)@[i as int])));
        }
    }

    pub fn set_unavailable(&mut self, i: usize)
        requires
            i < old(self)@.len(),
        ensures
            final(self)@ == old(self)@.update(
                i as int,
                (Tribute { available: false, ..old(self)@[i as int] }),
            ),
    {
        self.tribute_vec[i].available = false;
        proof {
            assert(self@ =~= old(self)@.update(
                i as int,
                (Tribute { available: false, ..old(self)@[i as int] }),
            ));
        }
    }

    /// Open a round: every living tribute becomes available, every dead one
    /// unavailable.
    pub fn activate(&mut self)
        ensures
            final(self)@.len() == old(self)@.len(),
            forall|j: int| 0 <= j < old(self)@.len() ==> final(self)@[j] == activated_t(
                #[trigger] old(self)@[j],
            ),
    {
        let len = self.tribute_vec.len();
        let mut i: usize = 0;
        while i < len
            invariant
                i <= len,
                len == self@.len(),
                self@.len() == old(self)@.len(),
                forall|j: int| 0 <= j < i ==> self@[j] == activated_t(#[trigger] old(self)@[j]),
                forall|j: int| i <= j < len ==> self@[j] == #[trigger] old(self)@[j],
            decreases len - i,
        {
            let a = self.tribute_vec[i].alive;
            self.tribute_vec[i].available = a;
            proof {
                assert(self@[i as int] == activated_t(old(self)@[i as int]));
            }
            i = i + 1;
        }
    }

    /// Compute the four grammatical labels of every tribute from its gender
    /// tag; done once at simulation start.
    pub fn default_gender_setup(&mut self)
        ensures
            final(self)@.len() == old(self)@.len(),
            forall|j: int| 0 <= j < old(self)@.len() ==> labeled(
                final(self)@[j],
                #[trigger] old(self)@[j],
            ),
    {
        let len = self.tribute_vec.len();
        let mut i: usize = 0;
        while i < len
            invariant
                i <= len,
                len == self@.len(),
                self@.len() == old(self)@.len(),
                forall|j: int| 0 <= j < i ==> labeled(self@[j], #[trigger] old(self)@[j]),
                forall|j: int| i <= j < len ==> self@[j] == #[trigger] old(self)@[j],
            decreases len - i,
        {
            proof {
                reveal_strlit("he");
                reveal_strlit("him");
                reveal_strlit("his");
                reveal_strlit("himself");
                reveal_strlit("she");
                reveal_strlit("her");
                reveal_strlit("herself");
                reveal_strlit("they");
                reveal_strlit("them");
                reveal_strlit("their");
                reveal_strlit("themselves");
            }
            match self.tribute_vec[i].gender {
                Gender::M => {
                    self.tribute_vec[i].gender_label_nominative = String::from_str("he");
                    self.tribute_vec[i].gender_label_accusative = String::from_str("him");
                    self.tribute_vec[i].gender_label_genitive = String::from_str("his");
                    self.tribute_vec[i].gender_label_reflexitive = String::from_str("himself");
                },
                Gender::F => {
                    self.tribute_vec[i].gender_label_nominative = String::from_str("she");
                    self.tribute_vec[i].gender_label_accusative = String::from_str("her");
                    self.tribute_vec[i].gender_label_genitive = String::from_str("her");
                    self.tribute_vec[i].gender_label_reflexitive = String::from_str("herself");
                },
                Gender::A => {
                    self.tribute_vec[i].gender_label_nominative = String::from_str("they");
                    self.tribute_vec[i].gender_label_accusative = String::from_str("them");
                    self.tribute_vec[i].gender_label_genitive = String::from_str("their");
                    self.tribute_vec[i].gender_label_reflexitive = String::from_str("themselves");
                },
            }
            proof {
                assert(labeled(self@[i as int], old(self)@[i as int]));
            }
            i = i + 1;
        }
    }

    /// The substitution data of tribute `i` for narrative templates: only the
    /// name, the gender code and the four grammatical labels are handed out.
    pub fn serialize_tribute(&self, i: usize) -> (card: TributeCard)
        requires
            i < self@.len(),
        ensures
            card.name@ == self@[i as int].name@,
            card.gender@ == gender_code(self@[i as int].gender),
            card.gen_n@ == self@[i as int].gender_label_nominative@,
            card.gen_a@ == self@[i as int].gender_label_accusative@,
            card.gen_g@ == self@[i as int].gender_label_genitive@,
            card.gen_s@ == self@[i as int].gender_label_reflexitive@,
    {
        let t = &self.tribute_vec[i];
        TributeCard {
            name: t.name.clone(),
            gender: String::from_str(t.gender.as_str()),
            gen_n: t.gender_label_nominative.clone(),
            gen_a: t.gender_label_accusative.clone(),
            gen_g: t.gender_label_genitive.clone(),
            gen_s: t.gender_label_reflexitive.clone(),
        }
    }

    /// The roster listing, one indexed line per tribute.
    pub fn to_string(&self) -> (r: String)
        ensures
            r@ == spec_roster_listing(self@),
    {
        let len = self.tribute_vec.len();
        let mut out = String::new();
        let mut i: usize = 0;
        while i < len
            invariant
                i <= len,
                len == self@.len(),
                out@ == spec_roster_listing(self@.take(i as int)),
            decreases len - i,
        {
            out.append("(");
            let num = u64_to_string(i as u64);
            out.append(num.as_str());
            out.append("): ");
            let line = self.tribute_vec[i].to_string();
            out.append(line.as_str());
            out.append("\n");
            proof {
                assert(self@.take(i + 1).drop_last() =~= self@.take(i as int));
                assert(out@ =~= spec_roster_listing(self@.take(i + 1)));
            }
            i = i + 1;
        }
        proof {
            assert(self@.take(len as int) =~= self@);
        }
        out
    }

    /// The Fallen-round death report: the names of the tributes whose
    /// recorded day of death is `day`.
    pub fn death_summary_on_day(&self, day: u64) -> (r: String)
        ensures
            r@ == spec_death_summary(self@, day),
    {
        let len = self.tribute_vec.len();
        let mut out = String::from_str("The following tributes have died today: \n");
        let mut i: usize = 0;
        while i < len
            invariant
                i <= len,
                len == self@.len(),
                out@ == "The following tributes have died today: \n"@ + spec_death_lines(
                    self@.take(i as int),
                    day,
                ),
            decreases len - i,
        {
            if self.tribute_vec[i].deathday == day {
                out.append(self.tribute_vec[i].name.as_str());
                out.append("\n");
            }
            proof {
                assert(self@.take(i + 1).drop_last() =~= self@.take(i as int));
                assert(out@ =~= "The following tributes have died today: \n"@ + spec_death_lines(
                    self@.take(i + 1),
                    day,
                ));
            }
            i = i + 1;
        }
        proof {
            assert(self@.take(len as int) =~= self@);
        }
        out
    }

    /// The final summary: every tribute's name, kill count, and day of death
    /// (or the Survivor marker), tabulated in insertion order.
    pub fn game_summary(&self) -> (r: String)
        ensures
            r@ == spec_game_summary(self@),
    {
        let len = self.tribute_vec.len();
        let mut out = String::from_str("Simulation Complete: \n");
        out.append("Name                 Kills   Died    \n");
        out.append("-------------------------------------\n");
        let ghost header: Seq<char> = out@;
        let mut i: usize = 0;
        while i < len
            invariant
                i <= len,
                len == self@.len(),
                out@ == header + spec_summary_rows(self@.take(i as int)),
                header == "Simulation Complete: \n"@ + "Name                 Kills   Died    \n"@
                    + "-------------------------------------\n"@,
            decreases len - i,
        {
            let name = pad_to(self.tribute_vec[i].name.clone(), 20);
            out.append(name.as_str());
            out.append(" ");
            let kills = pad_to(u64_to_string(self.tribute_vec[i].killcount), 7);
            out.append(kills.as_str());
            out.append(" ");
            let dd = self.tribute_vec[i].deathday;
            let died_raw = if dd == 0 {
                String::from_str("Survivor")
            } else {
                u64_to_string(dd)
            };
            let died = pad_to(died_raw, 7);
            out.append(died.as_str());
            out.append("\n");
            proof {
                assert(self@.take(i + 1).drop_last() =~= self@.take(i as int));
                assert(out@ =~= header + spec_summary_rows(self@.take(i + 1)));
            }
            i = i + 1;
        }
        proof {
            assert(self@.take(len as int) =~= self@);
        }
        out
    }
}

} // verus!
