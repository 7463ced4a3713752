//! Tallies of trips and people: how many are unfinished, finished or aborted, and which trips
//! start or end at a place.
use vstd::prelude::*;
use crate::ids::{AgentID, Time, TripID};
use crate::text::{decimal, decimal_string};
use crate::trips::{mode_of_agent, Person, Trip, TripEnd, TripMode, TripStart, TripView};

verus! {

pub open spec fn is_unfinished() -> spec_fn(TripView) -> bool {
    |t: TripView| !t.bus && !t.is_done()
}

pub open spec fn is_finished() -> spec_fn(TripView) -> bool {
    |t: TripView| !t.bus && t.finished_at is Some
}

pub open spec fn is_aborted() -> spec_fn(TripView) -> bool {
    |t: TripView| !t.bus && t.aborted
}

pub open spec fn is_non_bus() -> spec_fn(TripView) -> bool {
    |t: TripView| !t.bus
}

/// Bus trips whose bus has started serving its route.
pub open spec fn is_started_bus() -> spec_fn(TripView) -> bool {
    |t: TripView| t.bus && t.started
}

/// How many of the trips meet `f`.
pub open spec fn count_trips(s: Seq<TripView>, f: spec_fn(TripView) -> bool) -> nat
    decreases s.len(),
{
    if s.len() == 0 {
        0
    } else {
        count_trips(s.drop_last(), f) + if f(s.last()) {
            1nat
        } else {
            0nat
        }
    }
}

/// Adding a trip adds one to each tally that it meets.
pub proof fn lemma_count_push(s: Seq<TripView>, f: spec_fn(TripView) -> bool, x: TripView)
    ensures
        count_trips(s.push(x), f) == count_trips(s, f) + if f(x) {
            1nat
        } else {
            0nat
        },
{
    assert(s.push(x).drop_last() == s);
}

/// Replacing a trip moves each tally by what the old and the new trip meet.
pub proof fn lemma_count_update(s: Seq<TripView>, f: spec_fn(TripView) -> bool, i: int, x: TripView)
    requires
        0 <= i < s.len(),
    ensures
        count_trips(s.update(i, x), f) + (if f(s[i]) {
            1nat
        } else {
            0nat
        }) == count_trips(s, f) + (if f(x) {
            1nat
        } else {
            0nat
        }),
    decreases s.len(),
{
    if i == s.len() - 1 {
        assert(s.update(i, x).drop_last() == s.drop_last());
    } else {
        assert(s.update(i, x).drop_last() == s.drop_last().update(i, x));
        lemma_count_update(s.drop_last(), f, i, x);
    }
}

/// No tally exceeds the number of trips.
pub proof fn lemma_count_bound(s: Seq<TripView>, f: spec_fn(TripView) -> bool)
    ensures
        count_trips(s, f) <= s.len(),
    decreases s.len(),
{
    if s.len() > 0 {
        lemma_count_bound(s.drop_last(), f);
    }
}

/// With no trip both finished and aborted, every trip not of a bus is exactly one of
/// unfinished, finished and aborted.
pub proof fn lemma_count_partition(s: Seq<TripView>)
    requires
        forall|i: int| 0 <= i < s.len() ==> !(#[trigger] s[i].finished_at is Some && s[i].aborted),
    ensures
        count_trips(s, is_unfinished()) + count_trips(s, is_finished()) + count_trips(
            s,
            is_aborted(),
        ) == count_trips(s, is_non_bus()),
    decreases s.len(),
{
    if s.len() > 0 {
        let p = s.drop_last();
        assert forall|i: int| 0 <= i < p.len() implies !(#[trigger] p[i].finished_at is Some
            && p[i].aborted) by {
            assert(p[i] == s[i]);
        }
        lemma_count_partition(p);
        assert(!(s[s.len() - 1].finished_at is Some && s[s.len() - 1].aborted));
    }
}

impl TripView {
    /// The two trips count alike in every tally.
    pub open spec fn unfinished_eq(self, other: TripView) -> bool {
        self.bus == other.bus && self.started == other.started && self.finished_at == other.finished_at && self.aborted == other.aborted
    }
}

/// Trips that count alike, one by one, give the same tallies.
pub proof fn lemma_count_congruent(s1: Seq<TripView>, s2: Seq<TripView>)
    requires
        s1.len() == s2.len(),
        forall|i: int| 0 <= i < s2.len() ==> (#[trigger] s2[i]).unfinished_eq(s1[i]),
    ensures
        count_trips(s1, is_unfinished()) == count_trips(s2, is_unfinished()),
        count_trips(s1, is_started_bus()) == count_trips(s2, is_started_bus()),
        count_trips(s1, is_finished()) == count_trips(s2, is_finished()),
        count_trips(s1, is_aborted()) == count_trips(s2, is_aborted()),
        count_trips(s1, is_non_bus()) == count_trips(s2, is_non_bus()),
    decreases s1.len(),
{
    if s1.len() > 0 {
        let (init1, init2) = (s1.drop_last(), s2.drop_last());
        assert forall|i: int| 0 <= i < init2.len() implies (#[trigger] init2[i]).unfinished_eq(init1[i]) by {
            assert(init2[i] == s2[i] && init1[i] == s1[i]);
        }
        lemma_count_congruent(init1, init2);
        assert(s2[s2.len() - 1].unfinished_eq(s1[s1.len() - 1]));
    }
}

pub(crate) fn status_at(t: &Trip, now: Time) -> (r: TripStatus)
    ensures
        r == status_of(t@, now),
{
    if t.aborted {
        TripStatus::Aborted
    } else if t.finished_at.is_some() {
        TripStatus::Completed
    } else if now >= t.spawned_at {
        TripStatus::InProgress
    } else {
        TripStatus::Unstarted
    }
}

/// How far along a trip is.
#[derive(Clone, Copy, Debug, PartialEq, Eq, Structural)]
pub enum TripStatus {
    Aborted,
    Completed,
    InProgress,
    Unstarted,
}

pub open spec fn status_of(t: TripView, now: Time) -> TripStatus {
    if t.aborted {
        TripStatus::Aborted
    } else if t.finished_at is Some {
        TripStatus::Completed
    } else if now >= t.spawned_at {
        TripStatus::InProgress
    } else {
        TripStatus::Unstarted
    }
}

pub open spec fn starts_with(start: TripStart, now: Time, st: TripStatus) -> spec_fn(TripView) -> bool {
    |t: TripView| t.start == start && status_of(t, now) == st
}

pub open spec fn ends_with(end: TripEnd, now: Time, st: TripStatus) -> spec_fn(TripView) -> bool {
    |t: TripView| t.end == end && status_of(t, now) == st
}

/// The identities of the trips that meet `f`, in order.
pub open spec fn ids_where(s: Seq<TripView>, f: spec_fn(TripView) -> bool) -> Seq<TripID>
    decreases s.len(),
{
    if s.len() == 0 {
        Seq::empty()
    } else if f(s.last()) {
        ids_where(s.drop_last(), f).push(s.last().id)
    } else {
        ids_where(s.drop_last(), f)
    }
}

/// How many of the agents travel by mode `m`.
pub open spec fn count_mode(s: Seq<AgentID>, m: TripMode) -> nat
    decreases s.len(),
{
    if s.len() == 0 {
        0
    } else {
        count_mode(s.drop_last(), m) + if mode_of_agent(s.last()) == m {
            1nat
        } else {
            0nat
        }
    }
}

/// How many of the people are inside a building (`inside`), or else off the map.
pub open spec fn count_people(s: Seq<Person>, inside: bool) -> nat
    decreases s.len(),
{
    if s.len() == 0 {
        0
    } else {
        count_people(s.drop_last(), inside) + if (inside && s.last().state is Inside) || (!inside
            && s.last().state is OffMap) {
            1nat
        } else {
            0nat
        }
    }
}

/// The trips that start or end at one place, by how far along they are.
pub struct TripCount {
    pub from_aborted: Vec<TripID>,
    pub from_in_progress: Vec<TripID>,
    pub from_completed: Vec<TripID>,
    pub from_unstarted: Vec<TripID>,
    pub to_aborted: Vec<TripID>,
    pub to_in_progress: Vec<TripID>,
    pub to_completed: Vec<TripID>,
    pub to_unstarted: Vec<TripID>,
}

/// One line of a `TripCount`'s description.
pub open spec fn count_line(label: Seq<char>, from: nat, to: nat) -> Seq<char> {
    label + decimal(from) + " from here, "@ + decimal(to) + " to here"@
}

fn make_count_line(label: &str, from: usize, to: usize) -> (r: String)
    ensures
        r@ == count_line(label@, from as nat, to as nat),
{
    let mut s = String::from_str(label);
    s.append(decimal_string(from).as_str());
    s.append(" from here, ");
    s.append(decimal_string(to).as_str());
    s.append(" to here");
    s
}

/// A line for the pair of lists, where either is not empty.
pub open spec fn line_if(label: Seq<char>, from: Seq<TripID>, to: Seq<TripID>) -> Seq<Seq<char>> {
    if from.len() > 0 || to.len() > 0 {
        seq![count_line(label, from.len(), to.len())]
    } else {
        Seq::empty()
    }
}

impl TripCount {
    /// Lines saying how many trips of each status start and end here, leaving out statuses
    /// with none.
    pub fn describe(&self) -> (r: Vec<String>)
        ensures
            r@.map_values(|l: String| l@) == line_if(
                "Finished trips: "@,
                self.from_completed@,
                self.to_completed@,
            ) + line_if("In-progress trips: "@, self.from_in_progress@, self.to_in_progress@)
                + line_if("Future trips: "@, self.from_unstarted@, self.to_unstarted@) + line_if(
                "Aborted trips: "@,
                self.from_aborted@,
                self.to_aborted@,
            ),
    {
        let mut lines: Vec<String> = Vec::new();
        let ghost l1 = line_if("Finished trips: "@, self.from_completed@, self.to_completed@);
        let ghost l2 = line_if("In-progress trips: "@, self.from_in_progress@, self.to_in_progress@);
        let ghost l3 = line_if("Future trips: "@, self.from_unstarted@, self.to_unstarted@);
        let ghost l4 = line_if("Aborted trips: "@, self.from_aborted@, self.to_aborted@);
        if self.from_completed.len() > 0 || self.to_completed.len() > 0 {
            lines.push(
                make_count_line("Finished trips: ", self.from_completed.len(), self.to_completed.len()),
            );
        }
        assert(lines@.map_values(|l: String| l@) =~= l1);
        if self.from_in_progress.len() > 0 || self.to_in_progress.len() > 0 {
            lines.push(
                make_count_line(
                    "In-progress trips: ",
                    self.from_in_progress.len(),
                    self.to_in_progress.len(),
                ),
            );
        }
        assert(lines@.map_values(|l: String| l@) =~= l1 + l2);
        if self.from_unstarted.len() > 0 || self.to_unstarted.len() > 0 {
            lines.push(
                make_count_line("Future trips: ", self.from_unstarted.len(), self.to_unstarted.len()),
            );
        }
        assert(lines@.map_values(|l: String| l@) =~= l1 + l2 + l3);
        if self.from_aborted.len() > 0 || self.to_aborted.len() > 0 {
            lines.push(
                make_count_line("Aborted trips: ", self.from_aborted.len(), self.to_aborted.len()),
            );
        }
        assert(lines@.map_values(|l: String| l@) =~= l1 + l2 + l3 + l4);
        lines
    }
}

} // verus!
