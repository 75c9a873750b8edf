//! Severity levels, event kinds and filter parsing of the watch stream.
use vstd::prelude::*;
use crate::text::{lower_of, str_eq, to_lower};

verus! {

/// Severity levels for watch events, ordered lowest to highest.
#[derive(Debug, Clone, Copy, PartialEq, Eq, PartialOrd, Ord, Hash, Structural)]
pub enum WatchSeverity {
    Low,
    Medium,
    High,
    Critical,
}

/// The severity that a lowercase name or abbreviation stands for.
pub open spec fn severity_named(s: Seq<char>) -> Option<WatchSeverity> {
    if s == "low"@ || s == "l"@ {
        Some(WatchSeverity::Low)
    } else if s == "medium"@ || s == "med"@ || s == "m"@ {
        Some(WatchSeverity::Medium)
    } else if s == "high"@ || s == "h"@ {
        Some(WatchSeverity::High)
    } else if s == "critical"@ || s == "crit"@ || s == "c"@ {
        Some(WatchSeverity::Critical)
    } else {
        None
    }
}

/// The rank of a severity, lowest first.
pub open spec fn severity_rank(s: WatchSeverity) -> nat {
    match s {
        WatchSeverity::Low => 0,
        WatchSeverity::Medium => 1,
        WatchSeverity::High => 2,
        WatchSeverity::Critical => 3,
    }
}

impl WatchSeverity {
    /// The rank of this severity, lowest first.
    pub fn rank(&self) -> (r: u8)
        ensures
            r == severity_rank(*self),
    {
        match self {
            WatchSeverity::Low => 0,
            WatchSeverity::Medium => 1,
            WatchSeverity::High => 2,
            WatchSeverity::Critical => 3,
        }
    }

    /// The severity named by an already lowercased name or abbreviation.
    pub fn from_lowercase(s: &str) -> (r: Option<WatchSeverity>)
        ensures
            r == severity_named(s@),
    {
        if str_eq(s, "low") || str_eq(s, "l") {
            Some(WatchSeverity::Low)
        } else if str_eq(s, "medium") || str_eq(s, "med") || str_eq(s, "m") {
            Some(WatchSeverity::Medium)
        } else if str_eq(s, "high") || str_eq(s, "h") {
            Some(WatchSeverity::High)
        } else if str_eq(s, "critical") || str_eq(s, "crit") || str_eq(s, "c") {
            Some(WatchSeverity::Critical)
        } else {
            None
        }
    }

    /// Parses a severity name or abbreviation, ignoring case.
    pub fn from_str_loose(s: &str) -> (r: Option<WatchSeverity>)
        ensures
            r == severity_named(lower_of(s@)),
    {
        let lowered = to_lower(s);
        WatchSeverity::from_lowercase(lowered.as_str())
    }
}

/// Event kinds emitted by the watch stream.
#[derive(Debug, Clone, Copy, PartialEq, Eq, Hash, Structural)]
pub enum WatchEventType {
    Alert,
    Prediction,
    Opportunity,
    HealthChange,
    CollectorStatus,
    Heartbeat,
}

/// The event kind that a lowercase name or alias stands for.
pub open spec fn event_type_named(s: Seq<char>) -> Option<WatchEventType> {
    if s == "alert"@ {
        Some(WatchEventType::Alert)
    } else if s == "prediction"@ {
        Some(WatchEventType::Prediction)
    } else if s == "opportunity"@ {
        Some(WatchEventType::Opportunity)
    } else if s == "health_change"@ || s == "healthchange"@ || s == "health"@ {
        Some(WatchEventType::HealthChange)
    } else if s == "collector_status"@ || s == "collectorstatus"@ || s == "collector"@ {
        Some(WatchEventType::CollectorStatus)
    } else if s == "heartbeat"@ {
        Some(WatchEventType::Heartbeat)
    } else {
        None
    }
}

impl WatchEventType {
    /// The event kind named by an already lowercased name or alias.
    pub fn from_lowercase(s: &str) -> (r: Option<WatchEventType>)
        ensures
            r == event_type_named(s@),
    {
        if str_eq(s, "alert") {
            Some(WatchEventType::Alert)
        } else if str_eq(s, "prediction") {
            Some(WatchEventType::Prediction)
        } else if str_eq(s, "opportunity") {
            Some(WatchEventType::Opportunity)
        } else if str_eq(s, "health_change") || str_eq(s, "healthchange") || str_eq(s, "health") {
            Some(WatchEventType::HealthChange)
        } else if str_eq(s, "collector_status") || str_eq(s, "collectorstatus") || str_eq(
            s,
            "collector",
        ) {
            Some(WatchEventType::CollectorStatus)
        } else if str_eq(s, "heartbeat") {
            Some(WatchEventType::Heartbeat)
        } else {
            None
        }
    }

    /// Parses an event kind name or alias, ignoring case.
    pub fn from_str_loose(s: &str) -> (r: Option<WatchEventType>)
        ensures
            r == event_type_named(lower_of(s@)),
    {
        let lowered = to_lower(s);
        WatchEventType::from_lowercase(lowered.as_str())
    }
}

/// Filter of the watch stream. Each set is held without repeats, in the
/// order in which its members were first named.
#[derive(Debug, Clone)]
pub struct WatchFilter {
    pub event_types: Option<Vec<WatchEventType>>,
    pub machines: Option<Vec<String>>,
    pub min_severity: Option<WatchSeverity>,
}

/// Whether the strings of `names` that name an event kind name `t`.
pub open spec fn names_event_type(names: Seq<String>, t: WatchEventType) -> bool {
    exists|i: int| 0 <= i < names.len() && event_type_named(lower_of(names[i]@)) == Some(t)
}

/// Whether one of the strings in `v` reads `s`.
pub open spec fn holds_text(v: Seq<String>, s: Seq<char>) -> bool {
    exists|k: int| 0 <= k < v.len() && v[k]@ == s
}

/// Whether one of the first `n` strings of `names` lowercases to `s`.
pub open spec fn lowers_to(names: Seq<String>, n: int, s: Seq<char>) -> bool {
    exists|k: int| 0 <= k < n && lower_of(names[k]@) == s
}

/// Whether the filter `f` lets through an event of kind `t` from `machine` with
/// `severity`: heartbeats always pass; a missing machine or severity passes
/// its part of the filter.
pub open spec fn filter_passes(
    f: WatchFilter,
    t: WatchEventType,
    machine: Option<Seq<char>>,
    severity: Option<WatchSeverity>,
) -> bool {
    t == WatchEventType::Heartbeat || ((f.event_types matches Some(v) ==> v@.contains(t)) && (
    f.machines matches Some(ms) ==> (machine matches Some(m) ==> holds_text(ms@, lower_of(m))))
        && (f.min_severity matches Some(min) ==> (severity matches Some(sv) ==> severity_rank(sv)
        >= severity_rank(min))))
}

impl WatchFilter {
    /// Whether an event of kind `event_type` from `machine` with `severity`
    /// passes this filter (see `filter_passes`).
    pub fn matches(
        &self,
        event_type: WatchEventType,
        machine: Option<&str>,
        severity: Option<WatchSeverity>,
    ) -> (r: bool)
        ensures
            r == filter_passes(
                *self,
                event_type,
                match machine {
                    Some(m) => Some(m@),
                    None => None,
                },
                severity,
            ),
    {
        if event_type == WatchEventType::Heartbeat {
            return true;
        }
        if let Some(types) = &self.event_types {
            if !vec_has_event_type(types, event_type) {
                return false;
            }
        }
        if let Some(machines) = &self.machines {
            if let Some(m) = machine {
                let lowered = to_lower(m);
                let mut i: usize = 0;
                let mut found = false;
                while !found && i < machines.len()
                    invariant
                        0 <= i <= machines@.len(),
                        found ==> holds_text(machines@, lowered@),
                        !found ==> forall|k: int| 0 <= k < i ==> machines@[k]@ != lowered@,
                    decreases machines@.len() - i + (if found { 0int } else { 1 }),
                {
                    if str_eq(machines[i].as_str(), lowered.as_str()) {
                        found = true;
                    } else {
                        i = i + 1;
                    }
                }
                if !found {
                    return false;
                }
            }
        }
        if let Some(min) = &self.min_severity {
            if let Some(sv) = severity {
                if sv.rank() < min.rank() {
                    return false;
                }
            }
        }
        true
    }

    /// The event kinds named among `events`, without repeats; `None` where none is.
    pub fn parse_event_types(events: &[String]) -> (r: Option<Vec<WatchEventType>>)
        ensures
            match r {
                Some(v) => v@.len() > 0 && v@.no_duplicates() && forall|t: WatchEventType|
                    v@.contains(t) <==> names_event_type(events@, t),
                None => forall|t: WatchEventType| !names_event_type(events@, t),
            },
    {
        let mut set: Vec<WatchEventType> = Vec::new();
        let mut i: usize = 0;
        while i < events.len()
            invariant
                0 <= i <= events@.len(),
                set@.no_duplicates(),
                forall|t: WatchEventType|
                    set@.contains(t) <==> names_event_type(events@.subrange(0, i as int), t),
            decreases events@.len() - i,
        {
            let parsed = WatchEventType::from_str_loose(events[i].as_str());
            proof {
                assert(events@.subrange(0, i + 1) =~= events@.subrange(0, i as int).push(events@[i as int]));
                assert forall|t: WatchEventType|
                    names_event_type(events@.subrange(0, i + 1), t) <==> (names_event_type(
                        events@.subrange(0, i as int),
                        t,
                    ) || parsed == Some(t)) by {
                    let pre = events@.subrange(0, i as int);
                    let next = events@.subrange(0, i + 1);
                    if names_event_type(next, t) {
                        let k = choose|k: int|
                            0 <= k < next.len() && event_type_named(lower_of(next[k]@)) == Some(t);
                        if k < i {
                            assert(pre[k] == next[k]);
                        }
                    }
                    if names_event_type(pre, t) {
                        let k = choose|k: int|
                            0 <= k < pre.len() && event_type_named(lower_of(pre[k]@)) == Some(t);
                        assert(pre[k] == next[k]);
                    }
                    if parsed == Some(t) {
                        assert(next[i as int] == events@[i as int]);
                    }
                }
            }
            let ghost before = set@;
            match parsed {
                Some(t) => {
                    if vec_has_event_type(&set, t) {
                        proof {
                            assert forall|x: WatchEventType|
                                set@.contains(x) <==> (before.contains(x) || x == t) by {}
                        }
                    } else {
                        set.push(t);
                        proof {
                            assert forall|x: WatchEventType|
                                set@.contains(x) <==> (before.contains(x) || x == t) by {
                                if set@.contains(x) {
                                    let k = choose|k: int| 0 <= k < set@.len() && set@[k] == x;
                                    if k < before.len() {
                                        assert(before[k] == set@[k]);
                                    }
                                }
                                if before.contains(x) {
                                    let k = choose|k: int| 0 <= k < before.len() && before[k] == x;
                                    assert(set@[k] == before[k]);
                                }
                                if x == t {
                                    assert(set@[before.len() as int] == x);
                                }
                            }
                        }
                    }
                },
                None => {},
            }
            proof {
                assert forall|x: WatchEventType|
                    set@.contains(x) <==> names_event_type(events@.subrange(0, i + 1), x) by {
                    assert(set@.contains(x) <==> (before.contains(x) || parsed == Some(x)));
                }
            }
            i = i + 1;
        }
        proof {
            assert(events@.subrange(0, events@.len() as int) =~= events@);
        }
        if set.len() == 0 {
            proof {
                assert forall|t: WatchEventType| !names_event_type(events@, t) by {
                    if names_event_type(events@, t) {
                        assert(!set@.contains(t));
                    }
                }
            }
            None
        } else {
            Some(set)
        }
    }

    /// The lowercased machine names of `machines`, without repeats; `None` where
    /// the list is empty.
    pub fn parse_machines(machines: &[String]) -> (r: Option<Vec<String>>)
        ensures
            match r {
                Some(v) => machines@.len() > 0 && v@.len() > 0 && (forall|a: int, b: int|
                    0 <= a < b < v@.len() ==> v@[a]@ != v@[b]@) && (forall|s: Seq<char>|
                    #[trigger] holds_text(v@, s) <==> lowers_to(machines@, machines@.len() as int, s)),
                None => machines@.len() == 0,
            },
    {
        let mut set: Vec<String> = Vec::new();
        let mut i: usize = 0;
        while i < machines.len()
            invariant
                0 <= i <= machines@.len(),
                i > 0 ==> set@.len() > 0,
                set@.len() <= i,
                forall|a: int, b: int| 0 <= a < b < set@.len() ==> set@[a]@ != set@[b]@,
                forall|s: Seq<char>| #[trigger] holds_text(set@, s) <==> lowers_to(machines@, i as int, s),
            decreases machines@.len() - i,
        {
            let lowered = to_lower(machines[i].as_str());
            let mut j: usize = 0;
            let mut found = false;
            while j < set.len()
                invariant
                    0 <= j <= set@.len(),
                    found ==> holds_text(set@, lowered@),
                    !found ==> forall|k: int| 0 <= k < j ==> set@[k]@ != lowered@,
                decreases set@.len() - j,
            {
                if str_eq(set[j].as_str(), lowered.as_str()) {
                    found = true;
                }
                j = j + 1;
            }
            let ghost old_set = set@;
            if !found {
                set.push(lowered);
                proof {
                    assert(set@[old_set.len() as int]@ == lower_of(machines@[i as int]@));
                    assert forall|s: Seq<char>|
                        #[trigger] holds_text(set@, s) <==> lowers_to(machines@, i + 1, s) by {
                        if holds_text(set@, s) {
                            let k = choose|k: int| 0 <= k < set@.len() && set@[k]@ == s;
                            if k < old_set.len() {
                                assert(old_set[k] == set@[k]);
                                assert(holds_text(old_set, s));
                                let k3 = choose|k: int| 0 <= k < i && lower_of(machines@[k]@) == s;
                                assert(lowers_to(machines@, i + 1, s));
                            } else {
                                assert(lower_of(machines@[i as int]@) == s);
                            }
                        }
                        if lowers_to(machines@, i + 1, s) {
                            let k = choose|k: int| 0 <= k < i + 1 && lower_of(machines@[k]@) == s;
                            if k < i {
                                assert(lowers_to(machines@, i as int, s));
                                assert(holds_text(old_set, s));
                                let k2 = choose|k: int| 0 <= k < old_set.len() && old_set[k]@ == s;
                                assert(set@[k2] == old_set[k2]);
                            }
                        }
                    }
                }
            } else {
                proof {
                    assert forall|s: Seq<char>|
                        #[trigger] holds_text(set@, s) <==> lowers_to(machines@, i + 1, s) by {
                        if lowers_to(machines@, i + 1, s) {
                            let k = choose|k: int| 0 <= k < i + 1 && lower_of(machines@[k]@) == s;
                            if k < i {
                                assert(lowers_to(machines@, i as int, s));
                            }
                        }
                        if lowers_to(machines@, i as int, s) {
                            let k = choose|k: int| 0 <= k < i && lower_of(machines@[k]@) == s;
                            assert(lowers_to(machines@, i + 1, s));
                        }
                    }
                }
            }
            i = i + 1;
        }
        if set.len() == 0 {
            None
        } else {
            Some(set)
        }
    }
}

/// Whether `v` holds `t`.
fn vec_has_event_type(v: &Vec<WatchEventType>, t: WatchEventType) -> (r: bool)
    ensures
        r == v@.contains(t),
{
    let mut i: usize = 0;
    while i < v.len()
        invariant
            0 <= i <= v@.len(),
            forall|k: int| 0 <= k < i ==> v@[k] != t,
        decreases v@.len() - i,
    {
        if v[i] == t {
            return true;
        }
        i = i + 1;
    }
    false
}

} // verus!
