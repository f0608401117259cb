//! A single tribute: life-state, descriptive attributes, and the allocator
//! that hands out process-unique identifiers.

use vstd::prelude::*;
use vstd::string::StringExecFns;

use crate::numtext::{dec_str, u64_to_string};

verus! {

/// The closed set of genders a tribute can carry; it drives the four
/// grammatical labels used in narrative substitution.
#[derive(Clone, Copy, PartialEq, Eq, Structural, Debug)]
pub enum Gender {
    M,
    F,
    A,
}

/// The one-letter code of a gender, as it appears in roster data.
pub open spec fn gender_code(g: Gender) -> Seq<char> {
    match g {
        Gender::M => "M"@,
        Gender::F => "F"@,
        Gender::A => "A"@,
    }
}

/// What `Gender::from_str` yields on a given character sequence: the
/// matching gender, or an error for every other string.
pub open spec fn gender_of_code(s: Seq<char>) -> Result<Gender, ()> {
    if s == "M"@ {
        Ok(Gender::M)
    } else if s == "F"@ {
        Ok(Gender::F)
    } else if s == "A"@ {
        Ok(Gender::A)
    } else {
        Err(())
    }
}

impl Gender {
    pub fn as_str(&self) -> (r: &'static str)
        ensures
            r@ == gender_code(*self),
    {
        match self {
            Gender::M => "M",
            Gender::F => "F",
            Gender::A => "A",
        }
    }

    pub fn from_str(s: &str) -> (r: Result<Gender, ()>)
        ensures
            r == gender_of_code(s@),
    {
        proof {
            reveal_strlit("M");
            reveal_strlit("F");
            reveal_strlit("A");
        }
        let len = s.unicode_len();
        if len == 1 {
            let c = s.get_char(0);
            if c == 'M' {
                proof {
                    assert(s@ =~= "M"@);
                }
                Ok(Gender::M)
            } else if c == 'F' {
                proof {
                    assert(s@ =~= "F"@);
                }
                Ok(Gender::F)
            } else if c == 'A' {
                proof {
                    assert(s@ =~= "A"@);
                }
                Ok(Gender::A)
            } else {
                proof {
                    assert(s@ != "M"@ && s@ != "F"@ && s@ != "A"@) by {
                        assert(s@[0] != 'M' && s@[0] != 'F' && s@[0] != 'A');
                    }
                }
                Err(())
            }
        } else {
            proof {
                assert(s@ != "M"@ && s@ != "F"@ && s@ != "A"@) by {
                    assert(s@.len() != 1);
                }
            }
            Err(())
        }
    }
}

/// Hands out identifiers for tributes: each is the value of a counter that
/// only ever moves forward, so identifiers are strictly increasing in
/// creation order and never reused.
pub struct IdAllocator {
    pub next: u64,
}

impl IdAllocator {
    pub fn new() -> (a: IdAllocator)
        ensures
            a.next == 0,
    {
        IdAllocator { next: 0 }
    }

    pub fn fresh(&mut self) -> (id: u64)
        requires
            old(self).next < u64::MAX,
        ensures
            id == old(self).next,
            final(self).next == old(self).next + 1,
    {
        let id = self.next;
        self.next = self.next + 1;
        id
    }
}

/// All identifiers issued so far lie strictly below the allocator's counter.
pub open spec fn all_issued_below(ids: Seq<u64>, bound: u64) -> bool {
    forall|k: int| 0 <= k < ids.len() ==> ids[k] < bound
}

/// The identifiers form a strictly increasing sequence.
pub open spec fn strictly_increasing(ids: Seq<u64>) -> bool {
    forall|j: int, k: int| 0 <= j < k < ids.len() ==> ids[j] < ids[k]
}

/// Law: issuing the next identifier keeps the issued sequence strictly
/// increasing and keeps every issued identifier below the new counter, so
/// identifiers rise in creation order and are never reused.
pub proof fn lemma_ids_strictly_increasing(ids: Seq<u64>, next: u64, id: u64)
    requires
        strictly_increasing(ids),
        all_issued_below(ids, next),
        id == next,
        next < u64::MAX,
    ensures
        strictly_increasing(ids.push(id)),
        all_issued_below(ids.push(id), (next + 1) as u64),
        forall|k: int| 0 <= k < ids.len() ==> ids[k] != id,
{
    let ids2 = ids.push(id);
    assert forall|j: int, k: int| 0 <= j < k < ids2.len() implies ids2[j] < ids2[k] by {
        if k == ids.len() {
            assert(ids2[j] == ids[j]);
        }
    }
}

/// A tribute's listing line: its name and identifier.
pub open spec fn spec_tribute_string(t: Tribute) -> Seq<char> {
    "Name: "@ + t.name@ + ", ID: "@ + dec_str(t.id as int)
}

/// One contestant: life-state plus the descriptive attributes used in
/// narrative substitution.
pub struct Tribute {
    pub name: String,
    pub id: u64,
    pub alive: bool,
    pub available: bool,
    pub deathday: u64,
    pub killcount: u64,
    pub gender: Gender,
    pub gender_label_nominative: String,
    pub gender_label_accusative: String,
    pub gender_label_genitive: String,
    pub gender_label_reflexitive: String,
    pub avatar: Option<String>,
}

impl Tribute {
    /// The tribute's internal invariant: a deathday is recorded exactly for
    /// the dead, and only the living can be available for a round.
    pub open spec fn wf(self) -> bool {
        &&& (self.deathday != 0) <==> !self.alive
        &&& self.available ==> self.alive
    }

    /// A fresh placeholder tribute: alive, no recorded death, no kills, and
    /// placeholder grammatical labels until `default_gender_setup` runs.
    pub fn new(ids: &mut IdAllocator) -> (t: Tribute)
        requires
            old(ids).next < u64::MAX,
        ensures
            final(ids).next == old(ids).next + 1,
            t.id == old(ids).next,
            t.wf(),
            t.alive,
            t.available,
            t.deathday == 0,
            t.killcount == 0,
            t.gender == Gender::A,
            t.name@ == "null"@,
            t.gender_label_nominative@ == "null"@,
            t.gender_label_accusative@ == "null"@,
            t.gender_label_genitive@ == "null"@,
            t.gender_label_reflexitive@ == "null"@,
            t.avatar is None,
    {
        let id = ids.fresh();
        Tribute {
            name: String::from_str("null"),
            id,
            alive: true,
            available: true,
            deathday: 0,
            killcount: 0,
            gender: Gender::A,
            gender_label_nominative: String::from_str("null"),
            gender_label_accusative: String::from_str("null"),
            gender_label_genitive: String::from_str("null"),
            gender_label_reflexitive: String::from_str("null"),
            avatar: None,
        }
    }

    /// A tribute built from roster data; an unknown gender code falls back
    /// to `Gender::A`, and the grammatical labels stay placeholders until
    /// `default_gender_setup` runs.
    pub fn from_data(ids: &mut IdAllocator, name: &str, gen: &str, avatar: &str) -> (t: Tribute)
        requires
            old(ids).next < u64::MAX,
        ensures
            final(ids).next == old(ids).next + 1,
            t.id == old(ids).next,
            t.wf(),
            t.alive,
            t.available,
            t.deathday == 0,
            t.killcount == 0,
            t.name@ == name@,
            t.gender == (match gender_of_code(gen@) {
                Ok(g) => g,
                Err(_) => Gender::A,
            }),
            t.gender_label_nominative@ == "null"@,
            t.gender_label_accusative@ == "null"@,
            t.gender_label_genitive@ == "null"@,
            t.gender_label_reflexitive@ == "null"@,
            t.avatar matches Some(a) && a@ == avatar@,
    {
        let id = ids.fresh();
        let gen_result = match Gender::from_str(gen) {
            Ok(v) => v,
            Err(_) => Gender::A,
        };
        Tribute {
            name: String::from_str(name),
            id,
            alive: true,
            available: true,
            deathday: 0,
            killcount: 0,
            gender: gen_result,
            gender_label_nominative: String::from_str("null"),
            gender_label_accusative: String::from_str("null"),
            gender_label_genitive: String::from_str("null"),
            gender_label_reflexitive: String::from_str("null"),
            avatar: Some(String::from_str(avatar)),
        }
    }

    /// The tribute's listing line.
    pub fn to_string(&self) -> (r: String)
        ensures
            r@ == spec_tribute_string(*self),
    {
        let mut out = String::from_str("Name: ");
        out.append(self.name.as_str());
        out.append(", ID: ");
        let idnum = u64_to_string(self.id);
        out.append(idnum.as_str());
        proof {
            assert(out@ =~= spec_tribute_string(*self));
        }
        out
    }
}

} // verus!
