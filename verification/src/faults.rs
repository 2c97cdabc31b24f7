//! Injected dependency faults, shared between the event handler that creates
//! them and the health prober that reports them.
//!
//! Times are milliseconds on the caller's monotonic clock; the caller owns the
//! clock and the lock, and this table decides what each operation does.
use vstd::prelude::*;

use crate::health::Dependency;

verus! {

/// One injected outage. `until` is `None` while it lasts until cleared by
/// hand, which is what `POST /health/simulate` creates.
#[derive(Debug, Clone, Copy, PartialEq, Eq)]
pub struct Fault {
    pub until: Option<u64>,
}

/// Whether `fault` still forces a failure at time `now`: always without a
/// deadline, else strictly before it.
pub open spec fn fault_active(fault: Fault, now: u64) -> bool {
    match fault.until {
        None => true,
        Some(deadline) => now < deadline,
    }
}

impl Fault {
    /// Whether this outage is still in force at `now`.
    pub fn is_active(self, now: u64) -> (r: bool)
        ensures
            r == fault_active(self, now),
    {
        match self.until {
            None => true,
            Some(deadline) => now < deadline,
        }
    }
}

/// The outage a call at `now` for `duration` milliseconds creates.
pub open spec fn fault_for(now: u64, duration: Option<u64>) -> Fault {
    Fault {
        until: match duration {
            None => None,
            Some(d) => Some((now + d) as u64),
        },
    }
}

/// Whether `expire` at `now` removes the fault of `dependency` from `faults`:
/// only one whose deadline has passed.
pub open spec fn expires(faults: Map<Dependency, Fault>, dependency: Dependency, now: u64) -> bool {
    faults.contains_key(dependency) && !fault_active(faults[dependency], now)
}

/// Whether `dependency` is forced to report failure at `now`.
pub open spec fn forced(faults: Map<Dependency, Fault>, dependency: Dependency, now: u64) -> bool {
    faults.contains_key(dependency) && fault_active(faults[dependency], now)
}

/// The injected faults, at most one per dependency.
#[derive(Debug, Clone, PartialEq, Eq)]
pub struct FaultTable {
    dynamo: Option<Fault>,
    content: Option<Fault>,
}

impl View for FaultTable {
    type V = Map<Dependency, Fault>;

    /// The fault each broken dependency has.
    closed spec fn view(&self) -> Map<Dependency, Fault> {
        Map::new(
            |d: Dependency|
                match d {
                    Dependency::Dynamo => self.dynamo is Some,
                    Dependency::Content => self.content is Some,
                },
            |d: Dependency|
                match d {
                    Dependency::Dynamo => self.dynamo.unwrap(),
                    Dependency::Content => self.content.unwrap(),
                },
        )
    }
}

impl Default for FaultTable {
    fn default() -> (r: Self)
        ensures
            r@ == Map::<Dependency, Fault>::empty(),
    {
        FaultTable::new()
    }
}

impl FaultTable {
    /// A table where nothing is broken.
    pub fn new() -> (r: Self)
        ensures
            r@ == Map::<Dependency, Fault>::empty(),
    {
        let r = FaultTable { dynamo: None, content: None };
        assert forall|d: Dependency| !#[trigger] r@.contains_key(d) by {
            match d {
                Dependency::Dynamo => {},
                Dependency::Content => {},
            }
        }
        assert(r@ =~= Map::<Dependency, Fault>::empty());
        r
    }

    fn slot(&mut self, dependency: Dependency, fault: Option<Fault>)
        ensures
            final(self)@ == match fault {
                Some(f) => old(self)@.insert(dependency, f),
                None => old(self)@.remove(dependency),
            },
    {
        match dependency {
            Dependency::Dynamo => self.dynamo = fault,
            Dependency::Content => self.content = fault,
        }
        proof {
            let expected = match fault {
                Some(f) => old(self)@.insert(dependency, f),
                None => old(self)@.remove(dependency),
            };
            assert(self@ =~= expected);
        }
    }

    /// Breaks a dependency at time `now`; `duration` of `None` lasts until it
    /// is cleared. A second injection replaces the first, so a later, longer
    /// outage always wins over one already running.
    pub fn inject(&mut self, dependency: Dependency, now: u64, duration: Option<u64>)
        requires
            duration matches Some(d) ==> now + d <= u64::MAX,
        ensures
            final(self)@ == old(self)@.insert(dependency, fault_for(now, duration)),
    {
        let until = match duration {
            None => None,
            Some(d) => Some(now + d),
        };
        self.slot(dependency, Some(Fault { until }));
    }

    /// Restores a dependency, whatever its deadline was.
    pub fn clear(&mut self, dependency: Dependency)
        ensures
            final(self)@ == old(self)@.remove(dependency),
    {
        self.slot(dependency, None);
    }

    fn get(&self, dependency: Dependency) -> (r: Option<Fault>)
        ensures
            r == if self@.contains_key(dependency) { Some(self@[dependency]) } else { None },
    {
        match dependency {
            Dependency::Dynamo => self.dynamo,
            Dependency::Content => self.content,
        }
    }

    /// Restores a dependency only if its deadline already passed at `now`,
    /// and says whether it removed one. A timer that wakes after an outage was
    /// injected again, with a later deadline, leaves that outage alone.
    pub fn expire(&mut self, dependency: Dependency, now: u64) -> (r: bool)
        ensures
            r == expires(old(self)@, dependency, now),
            final(self)@ == if r { old(self)@.remove(dependency) } else { old(self)@ },
    {
        match self.get(dependency) {
            Some(fault) => {
                if !fault.is_active(now) {
                    self.slot(dependency, None);
                    true
                } else {
                    false
                }
            },
            None => false,
        }
    }

    /// Whether this dependency is forced to report failure at `now`.
    pub fn is_active(&self, dependency: Dependency, now: u64) -> (r: bool)
        ensures
            r == forced(self@, dependency, now),
    {
        match self.get(dependency) {
            Some(fault) => fault.is_active(now),
            None => false,
        }
    }
}

/// The last injection wins: injecting twice leaves only the second outage.
pub proof fn lemma_last_injection_wins(
    faults: Map<Dependency, Fault>,
    dependency: Dependency,
    first: Fault,
    second: Fault,
)
    ensures
        faults.insert(dependency, first).insert(dependency, second) == faults.insert(dependency, second),
{
    assert(faults.insert(dependency, first).insert(dependency, second) =~= faults.insert(
        dependency,
        second,
    ));
}

/// An outage injected at `at` for `duration` milliseconds forces failure
/// exactly until its deadline, and one without a duration forever; an
/// `expire` before the deadline changes nothing, and one at or after it
/// restores the dependency.
pub proof fn lemma_outage_lifetime(
    faults: Map<Dependency, Fault>,
    dependency: Dependency,
    at: u64,
    duration: Option<u64>,
    now: u64,
)
    requires
        duration matches Some(d) ==> at + d <= u64::MAX,
    ensures
        ({
            let broken = faults.insert(dependency, fault_for(at, duration));
            &&& duration is None ==> forced(broken, dependency, now) && !expires(broken, dependency, now)
            &&& duration matches Some(d) ==> (forced(broken, dependency, now) <==> now < at + d)
            &&& expires(broken, dependency, now) <==> !forced(broken, dependency, now)
            &&& !forced(broken.remove(dependency), dependency, now)
        }),
{
}

/// Clearing or injecting one dependency leaves every other one as it was.
pub proof fn lemma_dependencies_independent(
    faults: Map<Dependency, Fault>,
    dependency: Dependency,
    other: Dependency,
    fault: Fault,
    now: u64,
)
    requires
        dependency != other,
    ensures
        forced(faults.insert(dependency, fault), other, now) == forced(faults, other, now),
        forced(faults.remove(dependency), other, now) == forced(faults, other, now),
{
}

} // verus!
