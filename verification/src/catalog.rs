//! The event catalog: narrative templates and outcome definitions, keyed by
//! round category. Arena entries form a pool selected at random; the other
//! categories hold a single entry with the bloodbath entry as fallback.
//!
//! The catalog is validated once after loading; a malformed catalog is a
//! hard startup failure, never a silently degraded value.

use vstd::prelude::*;

use crate::scheduler::RoundType;

verus! {

/// One catalog-defined outcome: a message template with numbered
/// placeholders, the count of tributes it involves, the placeholder indices
/// that die, and the placeholder indices credited with kills.
pub struct Action {
    pub msg: String,
    pub tributes: usize,
    pub killed: Vec<usize>,
    pub killer: Vec<Option<usize>>,
}

impl Action {
    /// The action's invariant: it consumes at least one tribute, and every
    /// killed or killer placeholder index refers to one of its tributes;
    /// killed indices are distinct.
    pub open spec fn wf(self) -> bool {
        &&& 1 <= self.tributes
        &&& forall|a: int| 0 <= a < self.killed@.len() ==> (#[trigger] self.killed@[a])
            < self.tributes
        &&& forall|a: int, b: int|
            0 <= a < b < self.killed@.len() ==> self.killed@[a] != self.killed@[b]
        &&& forall|a: int|
            0 <= a < self.killer@.len() ==> ((#[trigger] self.killer@[a]) matches Some(x) ==> x
                < self.tributes)
    }

    /// Check the action's invariant; `true` exactly when it holds.
    pub fn validate(&self) -> (r: bool)
        ensures
            r == self.wf(),
    {
        if self.tributes < 1 {
            return false;
        }
        let kl = self.killed.len();
        let mut j: usize = 0;
        while j < kl
            invariant
                j <= kl,
                kl == self.killed@.len(),
                1 <= self.tributes,
                forall|a: int| 0 <= a < j ==> (#[trigger] self.killed@[a]) < self.tributes,
                forall|a: int, b: int|
                    0 <= a < j && a < b < kl ==> self.killed@[a] != self.killed@[b],
            decreases kl - j,
        {
            if self.killed[j] >= self.tributes {
                return false;
            }
            let mut k: usize = j + 1;
            while k < kl
                invariant
                    j < k <= kl,
                    kl == self.killed@.len(),
                    forall|b: int| j < b < k ==> self.killed@[j as int] != #[trigger] self.killed@[b],
                decreases kl - k,
            {
                if self.killed[j] == self.killed[k] {
                    return false;
                }
                k = k + 1;
            }
            j = j + 1;
        }
        let rl = self.killer.len();
        let mut m: usize = 0;
        while m < rl
            invariant
                m <= rl,
                rl == self.killer@.len(),
                forall|a: int|
                    0 <= a < m ==> ((#[trigger] self.killer@[a]) matches Some(x) ==> x
                        < self.tributes),
            decreases rl - m,
        {
            match self.killer[m] {
                Some(x) => {
                    if x >= self.tributes {
                        return false;
                    }
                },
                None => {},
            }
            m = m + 1;
        }
        true
    }
}

/// One catalog entry: a title template and the two pools of actions.
pub struct EventEntry {
    pub title: String,
    pub fatal: Vec<Action>,
    pub nonfatal: Vec<Action>,
}

impl EventEntry {
    /// The entry's invariant: both pools are non-empty and hold well-formed
    /// actions, and non-fatal actions kill nobody.
    pub open spec fn wf(self) -> bool {
        &&& 1 <= self.fatal@.len()
        &&& 1 <= self.nonfatal@.len()
        &&& forall|a: int| 0 <= a < self.fatal@.len() ==> (#[trigger] self.fatal@[a]).wf()
        &&& forall|a: int|
            0 <= a < self.nonfatal@.len() ==> (#[trigger] self.nonfatal@[a]).wf()
                && self.nonfatal@[a].killed@.len() == 0
    }

    /// Check the entry's invariant; `true` exactly when it holds.
    pub fn validate(&self) -> (r: bool)
        ensures
            r == self.wf(),
    {
        if self.fatal.len() < 1 || self.nonfatal.len() < 1 {
            return false;
        }
        let fl = self.fatal.len();
        let mut i: usize = 0;
        while i < fl
            invariant
                i <= fl,
                fl == self.fatal@.len(),
                forall|a: int| 0 <= a < i ==> (#[trigger] self.fatal@[a]).wf(),
            decreases fl - i,
        {
            if !self.fatal[i].validate() {
                return false;
            }
            i = i + 1;
        }
        let nl = self.nonfatal.len();
        let mut j: usize = 0;
        while j < nl
            invariant
                j <= nl,
                nl == self.nonfatal@.len(),
                forall|a: int|
                    0 <= a < j ==> (#[trigger] self.nonfatal@[a]).wf()
                        && self.nonfatal@[a].killed@.len() == 0,
            decreases nl - j,
        {
            if !self.nonfatal[j].validate() {
                return false;
            }
            if self.nonfatal[j].killed.len() != 0 {
                return false;
            }
            j = j + 1;
        }
        true
    }
}

/// The full catalog: one entry per ordinary category (the bloodbath entry is
/// mandatory, being the fallback), and the arena pool.
pub struct EventCatalog {
    pub bloodbath: EventEntry,
    pub feast: Option<EventEntry>,
    pub day: Option<EventEntry>,
    pub night: Option<EventEntry>,
    pub arena: Vec<EventEntry>,
}

/// The entry the catalog yields for a category, and whether the lookup fell
/// back to the bloodbath entry (a fallback is reported, not fatal). For
/// Arena, `arena_pick` selects from the pool.
pub open spec fn spec_entry_for(c: EventCatalog, rt: RoundType, arena_pick: int) -> (
    EventEntry,
    bool,
) {
    match rt {
        RoundType::Bloodbath => (c.bloodbath, false),
        RoundType::Feast => match c.feast {
            Some(e) => (e, false),
            None => (c.bloodbath, true),
        },
        RoundType::Day => match c.day {
            Some(e) => (e, false),
            None => (c.bloodbath, true),
        },
        RoundType::Night => match c.night {
            Some(e) => (e, false),
            None => (c.bloodbath, true),
        },
        RoundType::Arena => if c.arena@.len() > 0 {
            (c.arena@[arena_pick], false)
        } else {
            (c.bloodbath, true)
        },
        RoundType::Fallen => (c.bloodbath, true),
        RoundType::NoRound => (c.bloodbath, true),
    }
}

impl EventCatalog {
    /// The catalog's invariant: every entry present is well-formed.
    pub open spec fn wf(self) -> bool {
        &&& self.bloodbath.wf()
        &&& (self.feast matches Some(e) ==> e.wf())
        &&& (self.day matches Some(e) ==> e.wf())
        &&& (self.night matches Some(e) ==> e.wf())
        &&& forall|a: int| 0 <= a < self.arena@.len() ==> (#[trigger] self.arena@[a]).wf()
    }

    /// Check the catalog's invariant; `true` exactly when it holds. A
    /// catalog that fails this check must be rejected at startup.
    pub fn validate(&self) -> (r: bool)
        ensures
            r == self.wf(),
    {
        if !self.bloodbath.validate() {
            return false;
        }
        match &self.feast {
            Some(e) => if !e.validate() {
                return false;
            },
            None => {},
        }
        match &self.day {
            Some(e) => if !e.validate() {
                return false;
            },
            None => {},
        }
        match &self.night {
            Some(e) => if !e.validate() {
                return false;
            },
            None => {},
        }
        let al = self.arena.len();
        let mut i: usize = 0;
        while i < al
            invariant
                i <= al,
                al == self.arena@.len(),
                forall|a: int| 0 <= a < i ==> (#[trigger] self.arena@[a]).wf(),
            decreases al - i,
        {
            if !self.arena[i].validate() {
                return false;
            }
            i = i + 1;
        }
        true
    }

    /// Look up the entry for a category; a missing category (or an empty
    /// arena pool) falls back to the bloodbath entry and reports it.
    pub fn entry_for(&self, rt: RoundType, arena_pick: usize) -> (r: (&EventEntry, bool))
        requires
            self.arena@.len() == 0 || arena_pick < self.arena@.len(),
        ensures
            (*r.0, r.1) == spec_entry_for(*self, rt, arena_pick as int),
    {
        match rt {
            RoundType::Bloodbath => (&self.bloodbath, false),
            RoundType::Feast => match &self.feast {
                Some(e) => (e, false),
                None => (&self.bloodbath, true),
            },
            RoundType::Day => match &self.day {
                Some(e) => (e, false),
                None => (&self.bloodbath, true),
            },
            RoundType::Night => match &self.night {
                Some(e) => (e, false),
                None => (&self.bloodbath, true),
            },
            RoundType::Arena => if self.arena.len() > 0 {
                (&self.arena[arena_pick], false)
            } else {
                (&self.bloodbath, true)
            },
            RoundType::Fallen => (&self.bloodbath, true),
            RoundType::NoRound => (&self.bloodbath, true),
        }
    }
}

/// Law: a well-formed catalog yields a well-formed entry for every category
/// and every in-range arena pick.
pub proof fn lemma_entry_for_wf(c: EventCatalog, rt: RoundType, arena_pick: int)
    requires
        c.wf(),
        c.arena@.len() == 0 || 0 <= arena_pick < c.arena@.len(),
    ensures
        spec_entry_for(c, rt, arena_pick).0.wf(),
{
}

} // verus!
