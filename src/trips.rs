//! The trips and people of a run, and the state machine that moves each trip through its legs.
use vstd::prelude::*;
use crate::events::{AbortReason, Event, TripPhaseType};
use crate::ids::{
    AgentID, BuildingID, BusRouteID, BusStopID, CarID, Distance, Duration, IntersectionID, LaneID,
    PedestrianID, PersonID, Speed, Time, TripID, VehicleType,
};
use crate::model::{
    ParkedCar, ParkingSpot, Path, PathConstraints, PathRequest, Position, SidewalkPOI, SidewalkSpot,
    TripEndpoint, Vehicle,
};
use crate::scheduler::{pushed, Command, CreateCar, CreatePedestrian, Scheduler};
use crate::tally::{
    count_mode, count_people, count_trips, ids_where, is_aborted, is_started_bus, is_finished,
    is_non_bus, is_unfinished, lemma_count_bound, lemma_count_congruent, lemma_count_partition,
    lemma_count_push, lemma_count_update, ends_with, starts_with, status_at, TripCount,
    TripStatus,
};
use crate::world::{Network, Parking, Transit, Walking};

verus! {

#[derive(Clone, Copy, Debug, PartialEq, Eq, Structural, PartialOrd, Ord, Hash)]
pub enum TripMode {
    Walk,
    Bike,
    Transit,
    Drive,
}

impl TripMode {
    /// Every mode, in a fixed order.
    pub fn all() -> (r: Vec<TripMode>)
        ensures
            r@ == seq![TripMode::Walk, TripMode::Bike, TripMode::Transit, TripMode::Drive],
    {
        vec![TripMode::Walk, TripMode::Bike, TripMode::Transit, TripMode::Drive]
    }

    /// The mode in words.
    pub fn name(self) -> (r: &'static str)
        ensures
            r@ == mode_name(self),
    {
        match self {
            TripMode::Walk => {
                proof {
                    reveal_strlit("walk");
                }
                "walk"
            },
            TripMode::Bike => {
                proof {
                    reveal_strlit("bike");
                }
                "bike"
            },
            TripMode::Transit => {
                proof {
                    reveal_strlit("transit");
                }
                "transit"
            },
            TripMode::Drive => {
                proof {
                    reveal_strlit("drive");
                }
                "drive"
            },
        }
    }

    /// The mode that an agent of this kind travels by.
    pub fn from_agent(id: AgentID) -> (r: TripMode)
        ensures
            r == mode_of_agent(id),
    {
        match id {
            AgentID::Pedestrian(_) => TripMode::Walk,
            AgentID::Car(c) => match c.1 {
                VehicleType::Car => TripMode::Drive,
                VehicleType::Bike => TripMode::Bike,
                VehicleType::Bus => TripMode::Transit,
            },
        }
    }
}

/// How long a vehicle that found no room to appear waits before trying again.
pub const SPAWN_RETRY_DELAY: Duration = 1000;

/// How many times a vehicle tries again to appear before its trip is given up.
pub const MAX_SPAWN_RETRIES: u32 = 600;

pub open spec fn mode_name(m: TripMode) -> Seq<char> {
    match m {
        TripMode::Walk => "walk"@,
        TripMode::Bike => "bike"@,
        TripMode::Transit => "transit"@,
        TripMode::Drive => "drive"@,
    }
}

pub open spec fn mode_of_agent(id: AgentID) -> TripMode {
    match id {
        AgentID::Pedestrian(_) => TripMode::Walk,
        AgentID::Car(c) => match c.1 {
            VehicleType::Car => TripMode::Drive,
            VehicleType::Bike => TripMode::Bike,
            VehicleType::Bus => TripMode::Transit,
        },
    }
}

/// One mode-homogeneous part of a trip. Where it starts is left open: it is wherever the
/// previous leg ended.
#[derive(Clone, Copy, Debug, PartialEq, Eq, Structural)]
pub enum TripLeg {
    Walk(PedestrianID, Speed, SidewalkSpot),
    Drive(Vehicle, TripEndpoint),
    /// Ride a bus of the route and get off at the stop.
    RideBus(PedestrianID, BusRouteID, BusStopID),
    /// A bus serving its route, with no end.
    ServeBusRoute(CarID, BusRouteID),
}

#[derive(Clone, Copy, Debug, PartialEq, Eq, Structural)]
pub enum TripStart {
    Bldg(BuildingID),
    Border(IntersectionID),
    /// Anywhere along a lane, for trips made up on the spot.
    Lane(LaneID),
}

#[derive(Clone, Copy, Debug, PartialEq, Eq, Structural)]
pub enum TripEnd {
    Bldg(BuildingID),
    Border(IntersectionID),
    Lane(LaneID),
    /// A bus trip never ends.
    ServeBusRoute(BusRouteID),
}

/// The agent that carries out a leg.
pub open spec fn leg_agent(l: TripLeg) -> AgentID {
    match l {
        TripLeg::Walk(p, _, _) => AgentID::Pedestrian(p),
        TripLeg::Drive(v, _) => AgentID::Car(v.id),
        TripLeg::RideBus(p, _, _) => AgentID::Pedestrian(p),
        TripLeg::ServeBusRoute(c, _) => AgentID::Car(c),
    }
}

/// The mode that a leg sets for its trip, where it sets one.
pub open spec fn leg_mode(l: TripLeg) -> Option<TripMode> {
    match l {
        TripLeg::Walk(_, _, spot) => match spot.connection {
            SidewalkPOI::DeferredParkingSpot(_, _) => Some(TripMode::Drive),
            _ => None,
        },
        TripLeg::Drive(v, _) => if v.vehicle_type == VehicleType::Bike {
            Some(TripMode::Bike)
        } else {
            Some(TripMode::Drive)
        },
        TripLeg::RideBus(_, _, _) => Some(TripMode::Transit),
        TripLeg::ServeBusRoute(_, _) => Some(TripMode::Transit),
    }
}

/// A trip's mode: that of the last leg that sets one, walking where none does.
pub open spec fn mode_of_legs(legs: Seq<TripLeg>) -> TripMode
    decreases legs.len(),
{
    if legs.len() == 0 {
        TripMode::Walk
    } else {
        match leg_mode(legs.last()) {
            Some(m) => m,
            None => mode_of_legs(legs.drop_last()),
        }
    }
}

pub open spec fn goal_end(goal: TripEndpoint) -> TripEnd {
    match goal {
        TripEndpoint::Building(b) => TripEnd::Bldg(b),
        TripEndpoint::Border(i, _) => TripEnd::Border(i),
        TripEndpoint::Lane(l) => TripEnd::Lane(l),
    }
}

/// Where a trip whose last leg is `l` ends, for the legs a trip can end with.
pub open spec fn end_of_last_leg(l: TripLeg) -> Option<TripEnd> {
    match l {
        TripLeg::Walk(_, _, spot) => match spot.connection {
            SidewalkPOI::Building(b) => Some(TripEnd::Bldg(b)),
            SidewalkPOI::Border(i) => Some(TripEnd::Border(i)),
            SidewalkPOI::DeferredParkingSpot(_, goal) => Some(goal_end(goal)),
            _ => None,
        },
        TripLeg::Drive(_, goal) => Some(goal_end(goal)),
        TripLeg::ServeBusRoute(_, route) => Some(TripEnd::ServeBusRoute(route)),
        TripLeg::RideBus(_, _, _) => None,
    }
}

pub open spec fn is_bus_legs(legs: Seq<TripLeg>) -> bool {
    legs.len() == 1 && legs[0] is ServeBusRoute
}

pub struct Trip {
    pub id: TripID,
    pub spawned_at: Time,
    pub finished_at: Option<Time>,
    pub aborted: bool,
    /// The legs still to go, the current one first.
    pub legs: Vec<TripLeg>,
    pub mode: TripMode,
    pub start: TripStart,
    pub end: TripEnd,
    /// Absent for the trips of buses.
    pub person: Option<PersonID>,
    /// Whether this is the never-ending trip of a bus.
    pub bus: bool,
    /// Whether an agent has begun a leg of the trip.
    pub started: bool,
}

/// A trip as the contracts see it.
pub struct TripView {
    pub id: TripID,
    pub spawned_at: Time,
    pub finished_at: Option<Time>,
    pub aborted: bool,
    pub legs: Seq<TripLeg>,
    pub mode: TripMode,
    pub start: TripStart,
    pub end: TripEnd,
    pub person: Option<PersonID>,
    pub bus: bool,
    pub started: bool,
}

impl View for Trip {
    type V = TripView;

    open spec fn view(&self) -> TripView {
        TripView {
            id: self.id,
            spawned_at: self.spawned_at,
            finished_at: self.finished_at,
            aborted: self.aborted,
            legs: self.legs@,
            mode: self.mode,
            start: self.start,
            end: self.end,
            person: self.person,
            bus: self.bus,
            started: self.started,
        }
    }
}

impl TripView {
    /// Finished or aborted: nothing more happens to the trip.
    pub open spec fn is_done(self) -> bool {
        self.finished_at is Some || self.aborted
    }
}

#[derive(Clone, Copy, Debug, PartialEq, Eq, Structural)]
pub enum PersonState {
    Trip(TripID),
    Inside(BuildingID),
    OffMap,
    /// One of the person's trips was aborted; the person no longer counts anywhere.
    Limbo,
}

#[derive(Clone, Debug, PartialEq, Eq)]
pub struct Person {
    pub id: PersonID,
    pub trips: Vec<TripID>,
    pub state: PersonState,
}

/// A person and the trips they make, by index of trip.
#[derive(Clone, Debug, PartialEq, Eq)]
pub struct PersonSpec {
    pub id: PersonID,
    pub trips: Vec<usize>,
}

/// How long a trip took, from its spawn time to `now`.
pub open spec fn trip_duration(now: Time, spawned_at: Time) -> Time {
    if now >= spawned_at {
        (now - spawned_at) as Time
    } else {
        0
    }
}

/// The whole state of a `TripManager`, as the contracts see it.
pub struct TripManagerView {
    pub trips: Seq<TripView>,
    pub people: Seq<Person>,
    /// Which trip each live agent is carrying out.
    pub active: Map<AgentID, TripID>,
    pub unfinished: nat,
    pub num_bus_trips: nat,
    pub events: Seq<Event>,
}

impl TripManagerView {
    pub open spec fn trip(self, t: TripID) -> TripView {
        self.trips[t.0 as int]
    }

    pub open spec fn has_trip(self, t: TripID) -> bool {
        t.0 < self.trips.len()
    }

    /// The trip that a live agent is carrying out.
    pub open spec fn trip_of(self, a: AgentID) -> TripView {
        self.trip(self.active[a])
    }

    /// Whether no live agent carries out the trip.
    pub open spec fn trip_idle(self, t: TripID) -> bool {
        forall|a: AgentID| #[trigger] self.active.contains_key(a) ==> self.active[a] != t
    }

    /// Marks the trip begun; a bus trip then counts among the buses in service.
    pub open spec fn start_trip(self, t: TripID) -> TripManagerView {
        TripManagerView {
            num_bus_trips: if self.trip(t).bus {
                self.num_bus_trips + 1
            } else {
                self.num_bus_trips
            },
            ..self.with_trip(t, TripView { started: true, ..self.trip(t) })
        }
    }

    pub open spec fn log(self, e: Event) -> TripManagerView {
        TripManagerView { events: self.events.push(e), ..self }
    }

    pub open spec fn without_agent(self, a: AgentID) -> TripManagerView {
        TripManagerView { active: self.active.remove(a), ..self }
    }

    pub open spec fn with_agent(self, a: AgentID, t: TripID) -> TripManagerView {
        TripManagerView { active: self.active.insert(a, t), ..self }
    }

    pub open spec fn with_trip(self, t: TripID, tv: TripView) -> TripManagerView {
        TripManagerView { trips: self.trips.update(t.0 as int, tv), ..self }
    }

    /// Drops the current leg of the trip.
    pub open spec fn pop_leg(self, t: TripID) -> TripManagerView {
        self.with_trip(t, TripView { legs: self.trip(t).legs.skip(1), ..self.trip(t) })
    }

    pub open spec fn with_person_state(self, p: Option<PersonID>, st: PersonState) -> TripManagerView {
        match p {
            Some(p) => TripManagerView {
                people: self.people.update(p.0 as int, Person { state: st, ..self.people[p.0 as int] }),
                ..self
            },
            None => self,
        }
    }

    /// Marks the trip finished at `now` and leaves its person in `st`.
    pub open spec fn finish(self, t: TripID, now: Time, st: PersonState) -> TripManagerView {
        let tv = self.trip(t);
        TripManagerView {
            unfinished: (self.unfinished - 1) as nat,
            ..self.with_trip(t, TripView { finished_at: Some(now), ..tv }).log(
                Event::TripFinished(t, tv.mode, trip_duration(now, tv.spawned_at)),
            ).with_person_state(tv.person, st)
        }
    }

    /// Marks the trip aborted; a trip of a person leaves them in limbo.
    pub open spec fn abort(self, t: TripID, reason: AbortReason) -> TripManagerView {
        let tv = self.trip(t);
        let m = self.with_trip(t, TripView { aborted: true, ..tv }).log(
            Event::TripAborted(t, tv.mode, reason),
        );
        if tv.bus {
            m
        } else {
            TripManagerView {
                unfinished: (self.unfinished - 1) as nat,
                ..m.with_person_state(tv.person, PersonState::Limbo)
            }
        }
    }
}

/// No trip that existed before has more legs than it had.
pub open spec fn legs_not_grown(before: TripManagerView, after: TripManagerView) -> bool {
    &&& before.trips.len() <= after.trips.len()
    &&& forall|i: int|
        0 <= i < before.trips.len() ==> #[trigger] after.trips[i].legs.len() <= before.trips[i].legs.len()
}

pub struct TripManager {
    trips: Vec<Trip>,
    people: Vec<Person>,
    /// The live agents and their trips, without repeated agents.
    active: Vec<(AgentID, TripID)>,
    active_map: Ghost<Map<AgentID, TripID>>,
    num_bus_trips: usize,
    unfinished_trips: usize,
    events: Vec<Event>,
}

impl View for TripManager {
    type V = TripManagerView;

    closed spec fn view(&self) -> TripManagerView {
        TripManagerView {
            trips: self.trips@.map_values(|t: Trip| t@),
            people: self.people@,
            active: self.active_map@,
            unfinished: self.unfinished_trips as nat,
            num_bus_trips: self.num_bus_trips as nat,
            events: self.events@,
        }
    }
}

/// The invariants of a run's trips and people, on the contracts' view.
pub open spec fn model_wf(m: TripManagerView) -> bool {
    &&& forall|i: int| 0 <= i < m.trips.len() ==> (#[trigger] m.trips[i]).id == TripID(i as usize)
    &&& forall|i: int|
        0 <= i < m.trips.len() ==> !((#[trigger] m.trips[i]).finished_at is Some
            && m.trips[i].aborted)
    &&& forall|i: int|
        0 <= i < m.trips.len() ==> (#[trigger] m.trips[i]).bus ==> is_bus_legs(m.trips[i].legs)
            && m.trips[i].person is None
    &&& forall|i: int|
        0 <= i < m.trips.len() && !(#[trigger] m.trips[i]).is_done() ==> m.trips[i].legs.len() > 0
    &&& forall|i: int|
        0 <= i < m.trips.len() ==> match (#[trigger] m.trips[i]).person {
            Some(p) => p.0 < m.people.len(),
            None => true,
        }
    &&& forall|i: int| 0 <= i < m.people.len() ==> (#[trigger] m.people[i]).id == PersonID(i as usize)
    &&& m.unfinished == count_trips(m.trips, is_unfinished())
    &&& m.num_bus_trips == count_trips(m.trips, is_started_bus())
    &&& forall|a: AgentID| #[trigger]
        m.active.contains_key(a) ==> m.has_trip(m.active[a]) && !m.trip_of(a).is_done()
    &&& forall|a: AgentID, b: AgentID|
        #[trigger] m.active.contains_key(a) && #[trigger] m.active.contains_key(b) && a != b
            ==> m.active[a] != m.active[b]
}

impl TripManager {
    /// The live-agent table and its view agree.
    closed spec fn active_wf(&self) -> bool {
        &&& forall|i: int, j: int|
            0 <= i < j < self.active@.len() ==> (#[trigger] self.active@[i]).0 != (
            #[trigger] self.active@[j]).0
        &&& forall|i: int|
            0 <= i < self.active@.len() ==> self.active_map@.contains_key(
                (#[trigger] self.active@[i]).0,
            ) && self.active_map@[self.active@[i].0] == self.active@[i].1
        &&& forall|a: AgentID| #[trigger]
            self.active_map@.contains_key(a) ==> exists|i: int|
                0 <= i < self.active@.len() && (#[trigger] self.active@[i]).0 == a
    }

    pub closed spec fn wf(&self) -> bool {
        &&& self.active_wf()
        &&& model_wf(self@)
    }

    pub fn new() -> (r: TripManager)
        ensures
            r.wf(),
            r@.trips.len() == 0,
            r@.people.len() == 0,
            r@.active.is_empty(),
            r@.unfinished == 0,
            r@.num_bus_trips == 0,
            r@.events.len() == 0,
    {
        let r = TripManager {
            trips: Vec::new(),
            people: Vec::new(),
            active: Vec::new(),
            active_map: Ghost(Map::empty()),
            num_bus_trips: 0,
            unfinished_trips: 0,
            events: Vec::new(),
        };
        assert(r@.trips =~= Seq::empty());
        assert(r@.active =~= Map::empty());
        r
    }

    /// Registers a new trip, not yet linked to a person, and returns its identity.
    pub fn new_trip(&mut self, spawned_at: Time, start: TripStart, legs: Vec<TripLeg>) -> (r: TripID)
        requires
            old(self).wf(),
            legs@.len() > 0,
            end_of_last_leg(legs@.last()) is Some,
            old(self)@.trips.len() < usize::MAX,
        ensures
            final(self).wf(),
            r == TripID(old(self)@.trips.len() as usize),
            final(self)@.trip_idle(r),
            legs_not_grown(old(self)@, final(self)@),
            final(self)@ == (TripManagerView {
                trips: old(self)@.trips.push(new_trip_view(r, spawned_at, start, legs@)),
                unfinished: if is_bus_legs(legs@) {
                    old(self)@.unfinished
                } else {
                    old(self)@.unfinished + 1
                },
                ..old(self)@
            }),
    {
        let id = TripID(self.trips.len());
        let mut mode = TripMode::Walk;
        let mut i: usize = 0;
        while i < legs.len()
            invariant
                0 <= i <= legs@.len(),
                mode == mode_of_legs(legs@.take(i as int)),
            decreases legs@.len() - i,
        {
            let l = legs[i];
            assert(legs@.take(i as int + 1).drop_last() == legs@.take(i as int));
            match l {
                TripLeg::Walk(_, _, spot) => {
                    if let SidewalkPOI::DeferredParkingSpot(_, _) = spot.connection {
                        mode = TripMode::Drive;
                    }
                },
                TripLeg::Drive(vehicle, _) => {
                    mode = TripMode::Drive;
                    if vehicle.vehicle_type == VehicleType::Bike {
                        mode = TripMode::Bike;
                    }
                },
                TripLeg::RideBus(_, _, _) => {
                    mode = TripMode::Transit;
                },
                TripLeg::ServeBusRoute(_, _) => {
                    mode = TripMode::Transit;
                },
            }
            i = i + 1;
        }
        assert(legs@.take(legs@.len() as int) == legs@);
        let end = match legs[legs.len() - 1] {
            TripLeg::Walk(_, _, spot) => match spot.connection {
                SidewalkPOI::Building(b) => TripEnd::Bldg(b),
                SidewalkPOI::Border(i) => TripEnd::Border(i),
                SidewalkPOI::DeferredParkingSpot(_, goal) => match goal {
                    TripEndpoint::Building(b) => TripEnd::Bldg(b),
                    TripEndpoint::Border(i, _) => TripEnd::Border(i),
                    TripEndpoint::Lane(l) => TripEnd::Lane(l),
                },
                _ => TripEnd::Bldg(BuildingID(0)),
            },
            TripLeg::Drive(_, goal) => match goal {
                TripEndpoint::Building(b) => TripEnd::Bldg(b),
                TripEndpoint::Border(i, _) => TripEnd::Border(i),
                TripEndpoint::Lane(l) => TripEnd::Lane(l),
            },
            TripLeg::ServeBusRoute(_, route) => TripEnd::ServeBusRoute(route),
            TripLeg::RideBus(_, _, _) => TripEnd::Bldg(BuildingID(0)),
        };
        let bus = legs.len() == 1 && match legs[0] {
            TripLeg::ServeBusRoute(_, _) => true,
            _ => false,
        };
        let trip = Trip {
            id,
            spawned_at,
            finished_at: None,
            aborted: false,
            legs,
            mode,
            start,
            end,
            person: None,
            bus,
            started: false,
        };
        let ghost tv = trip@;
        proof {
            lemma_count_push(self@.trips, is_unfinished(), tv);
            lemma_count_push(self@.trips, is_started_bus(), tv);
            lemma_count_bound(self@.trips, is_unfinished());
            lemma_count_bound(self@.trips, is_started_bus());
        }
        if !bus {
            self.unfinished_trips = self.unfinished_trips + 1;
        }
        self.trips.push(trip);
        assert(self@.trips =~= old(self)@.trips.push(tv));
        assert forall|a: AgentID| #[trigger] self@.active.contains_key(a) implies self@.active[a] != id by {
            assert(old(self)@.has_trip(old(self)@.active[a]));
        }
        id
    }

    fn find_agent(&self, a: AgentID) -> (r: Option<usize>)
        requires
            self.active_wf(),
        ensures
            match r {
                Some(i) => i < self.active@.len() && self.active@[i as int].0 == a,
                None => !self.active_map@.contains_key(a),
            },
    {
        let mut i: usize = 0;
        while i < self.active.len()
            invariant
                0 <= i <= self.active@.len(),
                forall|j: int| 0 <= j < i ==> (#[trigger] self.active@[j]).0 != a,
            decreases self.active@.len() - i,
        {
            if self.active[i].0 == a {
                return Some(i);
            }
            i = i + 1;
        }
        None
    }

    /// Ends the agent's leg: the agent is no longer live.
    fn take_agent(&mut self, a: AgentID) -> (t: TripID)
        requires
            old(self).wf(),
            old(self)@.active.contains_key(a),
        ensures
            final(self).wf(),
            t == old(self)@.active[a],
            final(self)@ == old(self)@.without_agent(a),
            final(self)@.trip_idle(t),
    {
        let i = match self.find_agent(a) {
            Some(i) => i,
            None => {
                proof {
                    assert(false);
                }
                0
            },
        };
        let ghost old_active = self.active@;
        let (_, t) = self.active.remove(i);
        self.active_map = Ghost(self.active_map@.remove(a));
        assert forall|j: int| 0 <= j < self.active@.len() implies self.active_map@.contains_key(
            (#[trigger] self.active@[j]).0,
        ) && self.active_map@[self.active@[j].0] == self.active@[j].1 by {
            if j < i {
                assert(self.active@[j] == old_active[j]);
            } else {
                assert(self.active@[j] == old_active[j + 1]);
            }
        }
        assert forall|b: AgentID| #[trigger] self.active_map@.contains_key(b) implies exists|j: int|
            0 <= j < self.active@.len() && (#[trigger] self.active@[j]).0 == b by {
            let k = choose|k: int| 0 <= k < old_active.len() && (#[trigger] old_active[k]).0 == b;
            if k < i {
                assert(self.active@[k] == old_active[k]);
            } else {
                assert(self.active@[k - 1] == old_active[k]);
            }
        }
        assert(self@.active == old(self)@.active.remove(a));
        t
    }

    /// Makes the agent live, carrying out the trip.
    fn add_agent(&mut self, a: AgentID, t: TripID)
        requires
            old(self).active_wf(),
            !old(self)@.active.contains_key(a),
        ensures
            final(self).active_wf(),
            final(self)@ == old(self)@.with_agent(a, t),
    {
        let ghost old_active = self.active@;
        self.active.push((a, t));
        self.active_map = Ghost(self.active_map@.insert(a, t));
        assert forall|b: AgentID| #[trigger] self.active_map@.contains_key(b) implies exists|j: int|
            0 <= j < self.active@.len() && (#[trigger] self.active@[j]).0 == b by {
            if b == a {
                assert(self.active@[old_active.len() as int].0 == a);
            } else {
                let k = choose|k: int| 0 <= k < old_active.len() && (#[trigger] old_active[k]).0 == b;
                assert(self.active@[k] == old_active[k]);
            }
        }
        assert forall|j: int| 0 <= j < self.active@.len() implies self.active_map@.contains_key(
            (#[trigger] self.active@[j]).0,
        ) && self.active_map@[self.active@[j].0] == self.active@[j].1 by {
            if j < old_active.len() {
                assert(self.active@[j] == old_active[j]);
            }
        }
    }

    /// Records that an agent has begun a leg of the trip.
    pub fn agent_starting_trip_leg(&mut self, agent: AgentID, t: TripID)
        requires
            old(self).wf(),
            !old(self)@.active.contains_key(agent),
            old(self)@.has_trip(t),
            !old(self)@.trip(t).is_done(),
            old(self)@.trip_idle(t),
            // The one leg of a bus never ends, so a bus trip starts once.
            !(old(self)@.trip(t).bus && old(self)@.trip(t).started),
        ensures
            final(self).wf(),
            legs_not_grown(old(self)@, final(self)@),
            final(self)@ == old(self)@.start_trip(t).with_agent(agent, t).with_person_state(
                old(self)@.trip(t).person,
                PersonState::Trip(t),
            ),
    {
        self.mark_started(t);
        self.add_agent(agent, t);
        assert(model_wf(self@)) by {
            let m = self@;
            let m0 = old(self)@.start_trip(t);
            assert(m.trips == m0.trips);
            assert forall|a: AgentID| #[trigger] m.active.contains_key(a) implies m.has_trip(
                m.active[a],
            ) && !m.trip_of(a).is_done() by {
                if a != agent {
                    assert(old(self)@.active.contains_key(a));
                    assert(m.trip_of(a).is_done() == old(self)@.trip_of(a).is_done());
                }
            }
            assert forall|a: AgentID, b: AgentID|
                #[trigger] m.active.contains_key(a) && #[trigger] m.active.contains_key(b) && a != b
                    implies m.active[a] != m.active[b] by {
                if a == agent {
                    assert(old(self)@.active.contains_key(b));
                } else if b == agent {
                    assert(old(self)@.active.contains_key(a));
                } else {
                    assert(old(self)@.active.contains_key(a) && old(self)@.active.contains_key(b));
                }
            }
        }
        assert(self@.trips[t.0 as int] == self.trips@[t.0 as int]@);
        let person = self.trips[t.0].person;
        self.set_person_state(person, PersonState::Trip(t));
    }

    fn mark_started(&mut self, t: TripID)
        requires
            old(self).wf(),
            old(self)@.has_trip(t),
            !(old(self)@.trip(t).bus && old(self)@.trip(t).started),
        ensures
            final(self).wf(),
            final(self)@ == old(self)@.start_trip(t),
            final(self).active_wf(),
    {
        let ghost tv = self@.trip(t);
        let ghost nv = TripView { started: true, ..tv };
        proof {
            lemma_count_update(old(self)@.trips, is_unfinished(), t.0 as int, nv);
            lemma_count_update(old(self)@.trips, is_started_bus(), t.0 as int, nv);
            lemma_count_bound(old(self)@.trips.update(t.0 as int, nv), is_started_bus());
        }
        assert(self@.trips[t.0 as int] == self.trips@[t.0 as int]@);
        let bus = self.trips[t.0].bus;
        let n_trips: usize = self.trips.len();
        self.trips[t.0].started = true;
        if bus {
            proof {
                let s0 = old(self)@.trips;
                let s1 = s0.update(t.0 as int, nv);
                assert(s0[t.0 as int] == tv);
                assert(!tv.started);
                assert(!is_started_bus()(tv) && is_started_bus()(nv));
                assert(count_trips(s1, is_started_bus()) == count_trips(s0, is_started_bus()) + 1);
                assert(old(self).num_bus_trips == count_trips(s0, is_started_bus()));
                assert(s1.len() == n_trips);
                assert(count_trips(s1, is_started_bus()) <= s1.len());
                assert(self.num_bus_trips == old(self).num_bus_trips);
            }
            self.num_bus_trips = self.num_bus_trips + 1;
        }
        assert(self@.trips =~= old(self)@.trips.update(t.0 as int, nv));
        assert(self.active@ == old(self).active@);
        assert(self.active_map@ == old(self).active_map@);
        assert(model_wf(self@));
    }

    fn set_person_state(&mut self, p: Option<PersonID>, st: PersonState)
        requires
            old(self).wf(),
            match p {
                Some(p) => p.0 < old(self)@.people.len(),
                None => true,
            },
        ensures
            final(self).wf(),
            final(self)@ == old(self)@.with_person_state(p, st),
    {
        if let Some(p) = p {
            let mut person = self.people.remove(p.0);
            person.state = st;
            self.people.insert(p.0, person);
        }
        assert(self.active@ == old(self).active@);
        assert(self.active_map@ == old(self).active_map@);
        assert(self.trips@ == old(self).trips@);
        assert(self@.people == old(self)@.with_person_state(p, st).people);
        assert forall|i: int| 0 <= i < self@.people.len() implies (#[trigger] self@.people[i]).id
            == PersonID(i as usize) by {
            assert(self@.people[i].id == old(self)@.people[i].id);
        }
    }

    /// Drops the current leg of a trip that has more to go.
    fn pop_front(&mut self, t: TripID) -> (l: TripLeg)
        requires
            old(self).wf(),
            old(self)@.has_trip(t),
            old(self)@.trip(t).legs.len() >= 2,
        ensures
            final(self).wf(),
            l == old(self)@.trip(t).legs[0],
            final(self)@ == old(self)@.pop_leg(t),
    {
        let ghost tv = self.trips@[t.0 as int]@;
        let l = self.trips[t.0].legs.remove(0);
        let ghost nv = self.trips@[t.0 as int]@;
        assert(nv == TripView { legs: tv.legs.skip(1), ..tv });
        assert(self@.trips =~= old(self)@.trips.update(t.0 as int, nv));
        proof {
            lemma_count_update(old(self)@.trips, is_unfinished(), t.0 as int, nv);
            lemma_count_update(old(self)@.trips, is_started_bus(), t.0 as int, nv);
        }
        assert(self.active@ == old(self).active@);
        assert(self.active_map@ == old(self).active_map@);
        assert(!tv.bus);
        assert(model_wf(self@));
        l
    }

    /// Marks a trip finished, first dropping its last leg where `pop` says so.
    fn finish_trip(&mut self, t: TripID, now: Time, st: PersonState, pop: bool)
        requires
            old(self).wf(),
            old(self)@.has_trip(t),
            !old(self)@.trip(t).is_done(),
            !old(self)@.trip(t).bus,
            old(self)@.trip_idle(t),
            pop ==> old(self)@.trip(t).legs.len() == 1,
        ensures
            final(self).wf(),
            final(self)@ == (if pop {
                old(self)@.pop_leg(t)
            } else {
                old(self)@
            }).finish(t, now, st),
    {
        let ghost m0 = if pop {
            self@.pop_leg(t)
        } else {
            self@
        };
        let ghost tv = m0.trip(t);
        proof {
            lemma_count_update(old(self)@.trips, is_unfinished(), t.0 as int, TripView { finished_at: Some(now), ..tv });
            lemma_count_update(old(self)@.trips, is_started_bus(), t.0 as int, TripView { finished_at: Some(now), ..tv });
        }
        if pop {
            self.trips[t.0].legs.remove(0);
        }
        self.trips[t.0].finished_at = Some(now);
        assert(self@.trips =~= old(self)@.trips.update(t.0 as int, TripView { finished_at: Some(now), ..tv }));
        self.unfinished_trips = self.unfinished_trips - 1;
        let spawned_at = self.trips[t.0].spawned_at;
        let dur = if now >= spawned_at {
            now - spawned_at
        } else {
            0
        };
        let mode = self.trips[t.0].mode;
        self.events.push(Event::TripFinished(t, mode, dur));
        assert(self.active@ == old(self).active@);
        assert(self.active_map@ == old(self).active_map@);
        let person = self.trips[t.0].person;
        proof {
            assert(model_wf(self@)) by {
                assert(self@.active == old(self)@.active);
                assert forall|a: AgentID| #[trigger] self@.active.contains_key(a) implies self@.has_trip(
                    self@.active[a],
                ) && !self@.trip_of(a).is_done() by {
                    assert(self@.active[a] != t);
                }
            }
        }
        self.set_person_state(person, st);
        assert(self@.trips =~= m0.finish(t, now, st).trips);
        assert(self@.events =~= m0.finish(t, now, st).events);
        assert(self@.people =~= m0.finish(t, now, st).people);
        assert(self@ == m0.finish(t, now, st));
    }

    /// Marks a trip aborted; a trip of a person leaves them in limbo.
    pub(crate) fn abort_trip(&mut self, t: TripID, reason: AbortReason)
        requires
            old(self).wf(),
            old(self)@.has_trip(t),
            !old(self)@.trip(t).is_done(),
            old(self)@.trip_idle(t),
        ensures
            final(self).wf(),
            final(self)@ == old(self)@.abort(t, reason),
    {
        let ghost tv = self@.trip(t);
        let ghost nv = TripView { aborted: true, ..tv };
        proof {
            lemma_count_update(old(self)@.trips, is_unfinished(), t.0 as int, nv);
            lemma_count_update(old(self)@.trips, is_started_bus(), t.0 as int, nv);
        }
        self.trips[t.0].aborted = true;
        assert(self@.trips =~= old(self)@.trips.update(t.0 as int, nv));
        let bus = self.trips[t.0].bus;
        if !bus {
            self.unfinished_trips = self.unfinished_trips - 1;
        }
        let mode = self.trips[t.0].mode;
        self.events.push(Event::TripAborted(t, mode, reason));
        assert(self.active@ == old(self).active@);
        assert(self.active_map@ == old(self).active_map@);
        let person = self.trips[t.0].person;
        proof {
            assert(model_wf(self@)) by {
                assert forall|a: AgentID| #[trigger] self@.active.contains_key(a) implies self@.has_trip(
                    self@.active[a],
                ) && !self@.trip_of(a).is_done() by {
                    assert(self@.active[a] != t);
                }
            }
        }
        if !bus {
            self.set_person_state(person, PersonState::Limbo);
        }
    }

    fn log(&mut self, e: Event)
        requires
            old(self).wf(),
        ensures
            final(self).wf(),
            final(self)@ == old(self)@.log(e),
    {
        self.events.push(e);
        assert(self.active@ == old(self).active@);
        assert(self.active_map@ == old(self).active_map@);
        assert(self.trips@ == old(self).trips@);
        assert(self@.events == old(self)@.events.push(e));
    }

    /// Starts the walking leg at the front of the trip from `start`, given the path that the
    /// network found for it, or gives the trip up where it found none.
    pub fn spawn_ped_with_path(
        &mut self,
        t: TripID,
        now: Time,
        start: SidewalkSpot,
        path: Option<crate::model::Path>,
        scheduler: &mut Scheduler,
    )
        requires
            old(self).wf(),
            old(self)@.has_trip(t),
            !old(self)@.trip(t).is_done(),
            old(self)@.trip_idle(t),
            old(self)@.trip(t).legs[0] is Walk,
            old(scheduler).wf(),
            now >= old(scheduler).current_time(),
        ensures
            final(self).wf(),
            match path {
                None => final(self)@ == old(self)@.abort(t, AbortReason::NoPath) && *final(scheduler)
                    == *old(scheduler),
                Some(p) => final(self)@ == old(self)@ && match old(self)@.trip(t).legs[0] {
                    TripLeg::Walk(ped, speed, goal) => pushed(
                        *old(scheduler),
                        *final(scheduler),
                        now,
                        Command::SpawnPed(
                            CreatePedestrian {
                                id: ped,
                                start,
                                speed,
                                goal,
                                path: p,
                                req: walk_request(start, goal),
                                trip: t,
                            },
                        ),
                    ),
                    _ => false,
                },
            },
    {
        let (ped, speed, goal) = match self.trips[t.0].legs[0] {
            TripLeg::Walk(ped, speed, goal) => (ped, speed, goal),
            _ => {
                proof {
                    assert(false);
                }
                return ;
            },
        };
        match path {
            None => {
                self.abort_trip(t, AbortReason::NoPath);
            },
            Some(path) => {
                let req = PathRequest {
                    start: start.sidewalk_pos,
                    end: goal.sidewalk_pos,
                    constraints: PathConstraints::Pedestrian,
                };
                scheduler.push(
                    now,
                    Command::SpawnPed(
                        CreatePedestrian { id: ped, start, speed, goal, path, req, trip: t },
                    ),
                );
            },
        }
    }

    /// Starts the walking leg at the front of the trip from `start`, or gives the trip up
    /// where the network finds no path for it.
    fn spawn_ped<N: Network>(
        &mut self,
        t: TripID,
        now: Time,
        start: SidewalkSpot,
        map: &N,
        scheduler: &mut Scheduler,
    )
        requires
            old(self).wf(),
            old(self)@.has_trip(t),
            !old(self)@.trip(t).is_done(),
            old(self)@.trip_idle(t),
            old(self)@.trip(t).legs[0] is Walk,
            old(scheduler).wf(),
            now >= old(scheduler).current_time(),
        ensures
            final(self).wf(),
            walk_spawned(old(self)@, final(self)@, *old(scheduler), *final(scheduler), t, now, start),
    {
        let goal = match self.trips[t.0].legs[0] {
            TripLeg::Walk(_, _, goal) => goal,
            _ => {
                proof {
                    assert(false);
                }
                return ;
            },
        };
        let req = PathRequest {
            start: start.sidewalk_pos,
            end: goal.sidewalk_pos,
            constraints: PathConstraints::Pedestrian,
        };
        let path = map.pathfind(&req);
        self.spawn_ped_with_path(t, now, start, path, scheduler);
    }

    /// A pedestrian reached the building that ends their trip.
    pub fn ped_reached_building(&mut self, now: Time, ped: PedestrianID, bldg: BuildingID)
        requires
            old(self).wf(),
            old(self)@.active.contains_key(AgentID::Pedestrian(ped)),
            old(self)@.trip_of(AgentID::Pedestrian(ped)).legs.len() == 1,
            walks_to(
                old(self)@.trip_of(AgentID::Pedestrian(ped)).legs[0],
                ped,
                SidewalkPOI::Building(bldg),
            ),
        ensures
            final(self).wf(),
            legs_not_grown(old(self)@, final(self)@),
            final(self)@ == ({
                let a = AgentID::Pedestrian(ped);
                let t = old(self)@.active[a];
                old(self)@.log(Event::PedReachedBuilding(ped, bldg)).without_agent(a).pop_leg(
                    t,
                ).finish(t, now, PersonState::Inside(bldg))
            }),
    {
        self.log(Event::PedReachedBuilding(ped, bldg));
        let t = self.take_agent(AgentID::Pedestrian(ped));
        self.finish_trip(t, now, PersonState::Inside(bldg), true);
    }

    /// A pedestrian reached the border of the map that ends their trip.
    pub fn ped_reached_border(&mut self, now: Time, ped: PedestrianID, i: IntersectionID)
        requires
            old(self).wf(),
            old(self)@.active.contains_key(AgentID::Pedestrian(ped)),
            old(self)@.trip_of(AgentID::Pedestrian(ped)).legs.len() == 1,
            walks_to(
                old(self)@.trip_of(AgentID::Pedestrian(ped)).legs[0],
                ped,
                SidewalkPOI::Border(i),
            ),
        ensures
            final(self).wf(),
            legs_not_grown(old(self)@, final(self)@),
            final(self)@ == ({
                let a = AgentID::Pedestrian(ped);
                let t = old(self)@.active[a];
                old(self)@.log(Event::PedReachedBorder(ped, i)).without_agent(a).pop_leg(t).finish(
                    t,
                    now,
                    PersonState::OffMap,
                )
            }),
    {
        self.log(Event::PedReachedBorder(ped, i));
        let t = self.take_agent(AgentID::Pedestrian(ped));
        self.finish_trip(t, now, PersonState::OffMap, true);
    }

    /// A car or bike reached the border, or the end of the lane, that ends its trip.
    pub fn car_or_bike_reached_border(&mut self, now: Time, car: CarID, i: IntersectionID)
        requires
            old(self).wf(),
            old(self)@.active.contains_key(AgentID::Car(car)),
            old(self)@.trip_of(AgentID::Car(car)).legs.len() == 1,
            drives_to_edge(old(self)@.trip_of(AgentID::Car(car)).legs[0], car, i),
        ensures
            final(self).wf(),
            legs_not_grown(old(self)@, final(self)@),
            final(self)@ == ({
                let a = AgentID::Car(car);
                let t = old(self)@.active[a];
                old(self)@.log(Event::CarOrBikeReachedBorder(car, i)).without_agent(a).pop_leg(
                    t,
                ).finish(t, now, PersonState::OffMap)
            }),
    {
        self.log(Event::CarOrBikeReachedBorder(car, i));
        let t = self.take_agent(AgentID::Car(car));
        self.finish_trip(t, now, PersonState::OffMap, true);
    }

    /// The first agent of a trip could not be created: the trip never began.
    pub fn abort_trip_failed_start(&mut self, id: TripID)
        requires
            old(self).wf(),
            old(self)@.has_trip(id),
            !old(self)@.trip(id).is_done(),
            old(self)@.trip_idle(id),
        ensures
            final(self).wf(),
            legs_not_grown(old(self)@, final(self)@),
            final(self)@ == old(self)@.abort(id, AbortReason::FailedStart),
    {
        self.abort_trip(id, AbortReason::FailedStart);
    }

    /// A car found no way to park: its trip is given up.
    pub fn abort_trip_impossible_parking(&mut self, car: CarID)
        requires
            old(self).wf(),
            old(self)@.active.contains_key(AgentID::Car(car)),
            !old(self)@.trip_of(AgentID::Car(car)).bus,
        ensures
            final(self).wf(),
            legs_not_grown(old(self)@, final(self)@),
            !final(self)@.active.contains_key(AgentID::Car(car)),
            final(self)@ == ({
                let a = AgentID::Car(car);
                old(self)@.without_agent(a).abort(old(self)@.active[a], AbortReason::ImpossibleParking)
            }),
    {
        let t = self.take_agent(AgentID::Car(car));
        self.abort_trip(t, AbortReason::ImpossibleParking);
    }

    /// The trip that a live agent is carrying out.
    fn trip_of_agent(&self, a: AgentID) -> (t: TripID)
        requires
            self.wf(),
            self@.active.contains_key(a),
        ensures
            t == self@.active[a],
    {
        match self.find_agent(a) {
            Some(i) => self.active[i].1,
            None => {
                proof {
                    assert(false);
                }
                TripID(0)
            },
        }
    }

    /// A bike reached the spot where its rider gets off near the goal; the rider walks on
    /// from the rack.
    pub fn bike_reached_end<N: Network>(
        &mut self,
        now: Time,
        bike: CarID,
        bike_rack: SidewalkSpot,
        map: &N,
        scheduler: &mut Scheduler,
    )
        requires
            old(self).wf(),
            old(self)@.active.contains_key(AgentID::Car(bike)),
            old(self)@.trip_of(AgentID::Car(bike)).legs.len() >= 2,
            drives_to_building(old(self)@.trip_of(AgentID::Car(bike)).legs[0], bike),
            old(self)@.trip_of(AgentID::Car(bike)).legs[1] is Walk,
            old(scheduler).wf(),
            now >= old(scheduler).current_time(),
        ensures
            final(self).wf(),
            legs_not_grown(old(self)@, final(self)@),
            ({
                let a = AgentID::Car(bike);
                let t = old(self)@.active[a];
                let m = old(self)@.log(
                    Event::BikeStoppedAtSidewalk(bike, bike_rack.sidewalk_pos.lane),
                ).without_agent(a).pop_leg(t);
                walk_spawned(m, final(self)@, *old(scheduler), *final(scheduler), t, now, bike_rack)
            }),
    {
        self.log(Event::BikeStoppedAtSidewalk(bike, bike_rack.sidewalk_pos.lane));
        let t = self.take_agent(AgentID::Car(bike));
        self.pop_front(t);
        self.spawn_ped(t, now, bike_rack, map, scheduler);
    }

    /// A pedestrian got off a bus at the stop of their leg and walks on from there.
    pub fn ped_left_bus<N: Network>(
        &mut self,
        now: Time,
        ped: PedestrianID,
        map: &N,
        scheduler: &mut Scheduler,
    )
        requires
            old(self).wf(),
            old(self)@.active.contains_key(AgentID::Pedestrian(ped)),
            old(self)@.trip_of(AgentID::Pedestrian(ped)).legs.len() >= 2,
            old(self)@.trip_of(AgentID::Pedestrian(ped)).legs[0] is RideBus,
            old(self)@.trip_of(AgentID::Pedestrian(ped)).legs[1] is Walk,
            old(scheduler).wf(),
            now >= old(scheduler).current_time(),
        ensures
            final(self).wf(),
            legs_not_grown(old(self)@, final(self)@),
            ({
                let a = AgentID::Pedestrian(ped);
                let t = old(self)@.active[a];
                let m = old(self)@.without_agent(a).pop_leg(t);
                exists|pos: Position|
                    walk_spawned(
                        m,
                        final(self)@,
                        *old(scheduler),
                        *final(scheduler),
                        t,
                        now,
                        SidewalkSpot {
                            connection: SidewalkPOI::BusStop(
                                old(self)@.trip(t).legs[0]->RideBus_2,
                            ),
                            sidewalk_pos: pos,
                        },
                    )
            }),
    {
        let t = self.take_agent(AgentID::Pedestrian(ped));
        let stop = match self.pop_front(t) {
            TripLeg::RideBus(_, _, stop) => stop,
            _ => {
                proof {
                    assert(false);
                }
                return ;
            },
        };
        self.spawn_ped(t, now, SidewalkSpot::bus_stop(stop, map), map, scheduler);
    }

    /// A car parked at the end of its drive. Parked inside the building that its driver is
    /// bound for, the trip is over; otherwise the driver walks on from the spot.
    pub fn car_reached_parking_spot<N: Network, P: Parking>(
        &mut self,
        now: Time,
        car: CarID,
        spot: ParkingSpot,
        map: &N,
        parking: &P,
        scheduler: &mut Scheduler,
    )
        requires
            old(self).wf(),
            old(self)@.active.contains_key(AgentID::Car(car)),
            old(self)@.trip_of(AgentID::Car(car)).legs.len() >= 2,
            drives_to_building(old(self)@.trip_of(AgentID::Car(car)).legs[0], car),
            old(self)@.trip_of(AgentID::Car(car)).legs[1] is Walk,
            // Parked inside the goal building, only the walk into it is left.
            parked_at_goal(spot, old(self)@.trip_of(AgentID::Car(car)).legs[1]) is Some
                ==> old(self)@.trip_of(AgentID::Car(car)).legs.len() == 2,
            old(scheduler).wf(),
            now >= old(scheduler).current_time(),
        ensures
            final(self).wf(),
            legs_not_grown(old(self)@, final(self)@),
            ({
                let a = AgentID::Car(car);
                let t = old(self)@.active[a];
                let m = old(self)@.log(Event::CarReachedParkingSpot(car, spot)).without_agent(
                    a,
                ).pop_leg(t);
                match parked_at_goal(spot, m.trip(t).legs[0]) {
                    Some(b) => final(self)@ == m.finish(t, now, PersonState::Inside(b))
                        && *final(scheduler) == *old(scheduler),
                    None => exists|pos: Position|
                        walk_spawned(
                            m,
                            final(self)@,
                            *old(scheduler),
                            *final(scheduler),
                            t,
                            now,
                            SidewalkSpot { connection: SidewalkPOI::ParkingSpot(spot), sidewalk_pos: pos },
                        ),
                }
            }),
    {
        self.log(Event::CarReachedParkingSpot(car, spot));
        let t = self.take_agent(AgentID::Car(car));
        self.pop_front(t);
        let walk_to = match self.trips[t.0].legs[0] {
            TripLeg::Walk(_, _, to) => to,
            _ => {
                proof {
                    assert(false);
                }
                return ;
            },
        };
        if let ParkingSpot::Offstreet(b1, _) = spot {
            if walk_to.connection == SidewalkPOI::Building(b1) {
                self.finish_trip(t, now, PersonState::Inside(b1), false);
                return ;
            }
        }
        self.spawn_ped(t, now, SidewalkSpot::parking_spot(spot, parking), map, scheduler);
    }

    /// A pedestrian reached the parked car of their next leg. The car drives off, unless it is
    /// not there, another car is there, or no path leads from its spot; then the trip is given
    /// up. What happens for each answer of the parking and network layers is
    /// `drive_parked_car`'s contract.
    pub fn ped_reached_parking_spot<N: Network, P: Parking>(
        &mut self,
        now: Time,
        ped: PedestrianID,
        spot: ParkingSpot,
        map: &N,
        parking: &P,
        scheduler: &mut Scheduler,
    )
        requires
            old(self).wf(),
            old(self)@.active.contains_key(AgentID::Pedestrian(ped)),
            old(self)@.trip_of(AgentID::Pedestrian(ped)).legs.len() >= 2,
            walks_to(
                old(self)@.trip_of(AgentID::Pedestrian(ped)).legs[0],
                ped,
                SidewalkPOI::ParkingSpot(spot),
            ),
            old(self)@.trip_of(AgentID::Pedestrian(ped)).legs[1] is Drive,
            old(scheduler).wf(),
            now >= old(scheduler).current_time(),
        ensures
            final(self).wf(),
            legs_not_grown(old(self)@, final(self)@),
            ({
                let a = AgentID::Pedestrian(ped);
                let t = old(self)@.active[a];
                let m = old(self)@.log(Event::PedReachedParkingSpot(ped, spot)).without_agent(
                    a,
                ).pop_leg(t);
                exists|found: Option<ParkedCar>, pos: Position, end: Position, path: Option<Path>|
                    car_left_spot(
                        m,
                        final(self)@,
                        *old(scheduler),
                        *final(scheduler),
                        t,
                        now,
                        spot,
                        found,
                        pos,
                        end,
                        path,
                    )
            }),
    {
        self.log(Event::PedReachedParkingSpot(ped, spot));
        let t = self.take_agent(AgentID::Pedestrian(ped));
        self.pop_front(t);
        assert(self@.trips[t.0 as int] == self.trips@[t.0 as int]@);
        let goal = match self.trips[t.0].legs[0] {
            TripLeg::Drive(_, goal) => goal,
            _ => {
                proof {
                    assert(false);
                }
                return ;
            },
        };
        let found = parking.car_at_spot(spot);
        let end = goal.goal_pos_for_vehicle(map);
        match found {
            None => {
                let pos = Position::new(end.lane, 0);
                self.drive_parked_car(now, t, spot, None, pos, end, None, scheduler);
            },
            Some(pc) => {
                let pos = parking.spot_driving_pos(pc.spot, &pc.vehicle);
                let path = match leaving_position(spot, pos, pc.vehicle.length) {
                    Some(start) => map.pathfind(&PathRequest { start, end, constraints: PathConstraints::Car }),
                    None => None,
                };
                self.drive_parked_car(now, t, spot, found, pos, end, path, scheduler);
            },
        }
    }

    /// The car found at `spot` (`found`), standing at `pos` on its lane, drives off to `end`
    /// along `path`, where it is the car of the trip's current leg; otherwise the trip is given
    /// up as unable to park.
    pub fn drive_parked_car(
        &mut self,
        now: Time,
        t: TripID,
        spot: ParkingSpot,
        found: Option<ParkedCar>,
        pos: Position,
        end: Position,
        path: Option<Path>,
        scheduler: &mut Scheduler,
    )
        requires
            old(self).wf(),
            old(self)@.has_trip(t),
            !old(self)@.trip(t).is_done(),
            old(self)@.trip_idle(t),
            old(self)@.trip(t).legs[0] is Drive,
            old(scheduler).wf(),
            now >= old(scheduler).current_time(),
        ensures
            final(self).wf(),
            car_left_spot(
                old(self)@,
                final(self)@,
                *old(scheduler),
                *final(scheduler),
                t,
                now,
                spot,
                found,
                pos,
                end,
                path,
            ),
    {
        assert(self@.trips[t.0 as int] == self.trips@[t.0 as int]@);
        let (car, goal) = match self.trips[t.0].legs[0] {
            TripLeg::Drive(v, goal) => (v.id, goal),
            _ => {
                proof {
                    assert(false);
                }
                return ;
            },
        };
        let pc = match found {
            Some(pc) => pc,
            None => {
                self.abort_trip(t, AbortReason::ImpossibleParking);
                return ;
            },
        };
        if pc.vehicle.id != car {
            self.abort_trip(t, AbortReason::ImpossibleParking);
            return ;
        }
        let start = match leaving_position(spot, pos, pc.vehicle.length) {
            Some(start) => start,
            None => {
                self.abort_trip(t, AbortReason::ImpossibleParking);
                return ;
            },
        };
        match path {
            None => {
                self.abort_trip(t, AbortReason::ImpossibleParking);
            },
            Some(path) => {
                let req = PathRequest { start, end, constraints: PathConstraints::Car };
                let create = CreateCar::for_parked_car(pc, start.dist_along, goal, path, req, t);
                scheduler.push(now, Command::SpawnCar(create, true));
            },
        }
    }

    /// A pedestrian reached a bike rack and gets on the bike of their next leg, unless no
    /// path leads from there, and then the trip is given up. What happens for each answer of
    /// the network layer is `ride_bike_with_path`'s contract.
    pub fn ped_ready_to_bike<N: Network>(
        &mut self,
        now: Time,
        ped: PedestrianID,
        spot: SidewalkSpot,
        map: &N,
        scheduler: &mut Scheduler,
    )
        requires
            old(self).wf(),
            old(self)@.active.contains_key(AgentID::Pedestrian(ped)),
            old(self)@.trip_of(AgentID::Pedestrian(ped)).legs.len() >= 2,
            walks_to(old(self)@.trip_of(AgentID::Pedestrian(ped)).legs[0], ped, spot.connection),
            old(self)@.trip_of(AgentID::Pedestrian(ped)).legs[0]->Walk_2 == spot,
            spot.connection is BikeRack,
            old(self)@.trip_of(AgentID::Pedestrian(ped)).legs[1] is Drive,
            old(scheduler).wf(),
            now >= old(scheduler).current_time(),
        ensures
            final(self).wf(),
            legs_not_grown(old(self)@, final(self)@),
            ({
                let a = AgentID::Pedestrian(ped);
                let t = old(self)@.active[a];
                let m = old(self)@.without_agent(a).pop_leg(t);
                exists|end: Position, path: Option<Path>|
                    bike_started(
                        m,
                        final(self)@,
                        *old(scheduler),
                        *final(scheduler),
                        t,
                        now,
                        spot.connection->BikeRack_0,
                        end,
                        path,
                    )
            }),
    {
        let t = self.take_agent(AgentID::Pedestrian(ped));
        self.pop_front(t);
        assert(self@.trips[t.0 as int] == self.trips@[t.0 as int]@);
        let goal = match self.trips[t.0].legs[0] {
            TripLeg::Drive(_, goal) => goal,
            _ => {
                proof {
                    assert(false);
                }
                return ;
            },
        };
        let driving_pos = match spot.connection {
            SidewalkPOI::BikeRack(p) => p,
            _ => {
                proof {
                    assert(false);
                }
                return ;
            },
        };
        let end = goal.goal_pos_for_vehicle(map);
        let req = PathRequest { start: driving_pos, end, constraints: PathConstraints::Bike };
        let path = map.pathfind(&req);
        self.ride_bike_with_path(now, t, driving_pos, end, path, scheduler);
    }

    /// The bike of trip `t`'s current leg sets off from `pos` to `end` along `path`; with no
    /// path the trip is given up.
    pub fn ride_bike_with_path(
        &mut self,
        now: Time,
        t: TripID,
        pos: Position,
        end: Position,
        path: Option<Path>,
        scheduler: &mut Scheduler,
    )
        requires
            old(self).wf(),
            old(self)@.has_trip(t),
            !old(self)@.trip(t).is_done(),
            old(self)@.trip_idle(t),
            old(self)@.trip(t).legs[0] is Drive,
            old(scheduler).wf(),
            now >= old(scheduler).current_time(),
        ensures
            final(self).wf(),
            bike_started(
                old(self)@,
                final(self)@,
                *old(scheduler),
                *final(scheduler),
                t,
                now,
                pos,
                end,
                path,
            ),
    {
        assert(self@.trips[t.0 as int] == self.trips@[t.0 as int]@);
        let (vehicle, goal) = match self.trips[t.0].legs[0] {
            TripLeg::Drive(v, goal) => (v, goal),
            _ => {
                proof {
                    assert(false);
                }
                return ;
            },
        };
        match path {
            None => {
                self.abort_trip(t, AbortReason::NoPath);
            },
            Some(path) => {
                let req = PathRequest { start: pos, end, constraints: PathConstraints::Bike };
                let create = CreateCar::for_appearing(vehicle, pos.dist_along, goal, path, req, t);
                scheduler.push(now, Command::SpawnCar(create, true));
            },
        }
    }

    /// A pedestrian reached the bus stop of their next ride. Where a bus of the route is there
    /// already they board it at once and `None` comes back; otherwise they wait for the route
    /// that comes back.
    pub fn ped_reached_bus_stop<T: Transit>(
        &mut self,
        now: Time,
        ped: PedestrianID,
        stop: BusStopID,
        transit: &mut T,
    ) -> (r: Option<BusRouteID>)
        requires
            old(self).wf(),
            old(self)@.active.contains_key(AgentID::Pedestrian(ped)),
            old(self)@.trip_of(AgentID::Pedestrian(ped)).legs.len() >= 2,
            walks_to(
                old(self)@.trip_of(AgentID::Pedestrian(ped)).legs[0],
                ped,
                SidewalkPOI::BusStop(stop),
            ),
            old(self)@.trip_of(AgentID::Pedestrian(ped)).legs[1] is RideBus,
        ensures
            final(self).wf(),
            legs_not_grown(old(self)@, final(self)@),
            ({
                let t = old(self)@.active[AgentID::Pedestrian(ped)];
                let tv = old(self)@.trip(t);
                let route = tv.legs[1]->RideBus_1;
                let m = old(self)@.log(Event::PedReachedBusStop(ped, stop, route));
                match r {
                    None => final(self)@ == m.log(
                        Event::TripPhaseStarting(t, tv.mode, None, TripPhaseType::RidingBus(route)),
                    ).pop_leg(t),
                    Some(x) => x == route && final(self)@ == m.log(
                        Event::TripPhaseStarting(
                            t,
                            tv.mode,
                            None,
                            TripPhaseType::WaitingForBus(route),
                        ),
                    ),
                }
            }),
    {
        let t = self.trip_of_agent(AgentID::Pedestrian(ped));
        assert(self@.trips[t.0 as int] == self.trips@[t.0 as int]@);
        let (route, stop2) = match self.trips[t.0].legs[1] {
            TripLeg::RideBus(_, route, stop2) => (route, stop2),
            _ => {
                proof {
                    assert(false);
                }
                return None;
            },
        };
        let bus_here = transit.ped_waiting_for_bus(now, ped, stop, route, stop2);
        self.wait_or_board(ped, stop, bus_here)
    }

    /// A pedestrian at the bus stop of their next ride boards at once where a bus of the route
    /// is there (`bus_here`), and `None` comes back; otherwise they wait for the route that
    /// comes back.
    pub fn wait_or_board(&mut self, ped: PedestrianID, stop: BusStopID, bus_here: bool) -> (r: Option<BusRouteID>)
        requires
            old(self).wf(),
            old(self)@.active.contains_key(AgentID::Pedestrian(ped)),
            old(self)@.trip_of(AgentID::Pedestrian(ped)).legs.len() >= 2,
            walks_to(
                old(self)@.trip_of(AgentID::Pedestrian(ped)).legs[0],
                ped,
                SidewalkPOI::BusStop(stop),
            ),
            old(self)@.trip_of(AgentID::Pedestrian(ped)).legs[1] is RideBus,
        ensures
            final(self).wf(),
            legs_not_grown(old(self)@, final(self)@),
            r is None <==> bus_here,
            ({
                let t = old(self)@.active[AgentID::Pedestrian(ped)];
                let tv = old(self)@.trip(t);
                let route = tv.legs[1]->RideBus_1;
                let m = old(self)@.log(Event::PedReachedBusStop(ped, stop, route));
                match r {
                    None => final(self)@ == m.log(
                        Event::TripPhaseStarting(t, tv.mode, None, TripPhaseType::RidingBus(route)),
                    ).pop_leg(t),
                    Some(x) => x == route && final(self)@ == m.log(
                        Event::TripPhaseStarting(
                            t,
                            tv.mode,
                            None,
                            TripPhaseType::WaitingForBus(route),
                        ),
                    ),
                }
            }),
    {
        let t = self.trip_of_agent(AgentID::Pedestrian(ped));
        assert(self@.trips[t.0 as int] == self.trips@[t.0 as int]@);
        let route = match self.trips[t.0].legs[1] {
            TripLeg::RideBus(_, route, _) => route,
            _ => {
                proof {
                    assert(false);
                }
                return None;
            },
        };
        let mode = self.trips[t.0].mode;
        self.log(Event::PedReachedBusStop(ped, stop, route));
        if bus_here {
            self.log(Event::TripPhaseStarting(t, mode, None, TripPhaseType::RidingBus(route)));
            self.pop_front(t);
            None
        } else {
            self.log(Event::TripPhaseStarting(t, mode, None, TripPhaseType::WaitingForBus(route)));
            Some(route)
        }
    }

    /// A waiting pedestrian boarded a bus of their route; the walking layer learns of it.
    pub fn ped_boarded_bus<W: Walking>(&mut self, now: Time, ped: PedestrianID, walking: &mut W) -> (r: TripID)
        requires
            old(self).wf(),
            old(self)@.active.contains_key(AgentID::Pedestrian(ped)),
            old(self)@.trip_of(AgentID::Pedestrian(ped)).legs.len() >= 2,
            old(self)@.trip_of(AgentID::Pedestrian(ped)).legs[0] is Walk,
            old(self)@.trip_of(AgentID::Pedestrian(ped)).legs[1] is RideBus,
        ensures
            final(self).wf(),
            legs_not_grown(old(self)@, final(self)@),
            r == old(self)@.active[AgentID::Pedestrian(ped)],
            final(self)@ == old(self)@.log(
                Event::TripPhaseStarting(
                    r,
                    old(self)@.trip(r).mode,
                    None,
                    TripPhaseType::RidingBus(old(self)@.trip(r).legs[1]->RideBus_1),
                ),
            ).pop_leg(r),
    {
        let t = self.trip_of_agent(AgentID::Pedestrian(ped));
        let route = match self.trips[t.0].legs[1] {
            TripLeg::RideBus(_, route, _) => route,
            _ => {
                proof {
                    assert(false);
                }
                return t;
            },
        };
        let mode = self.trips[t.0].mode;
        self.log(Event::TripPhaseStarting(t, mode, None, TripPhaseType::RidingBus(route)));
        self.pop_front(t);
        walking.ped_boarded_bus(now, ped);
        t
    }

    /// Replaces the legs of a trip that waited to learn which parked car it would use, now
    /// that this is known. This is the one change that may lengthen a trip.
    pub fn dynamically_override_legs(&mut self, id: TripID, legs: Vec<TripLeg>)
        requires
            old(self).wf(),
            old(self)@.has_trip(id),
            !old(self)@.trip(id).is_done(),
            awaits_car_choice(old(self)@.trip(id).legs),
            legs@.len() > 0,
            !awaits_car_choice(legs@),
        ensures
            final(self).wf(),
            final(self)@ == old(self)@.with_trip(
                id,
                TripView { legs: legs@, mode: TripMode::Drive, ..old(self)@.trip(id) },
            ),
    {
        let ghost tv = self@.trip(id);
        let ghost nv = TripView { legs: legs@, mode: TripMode::Drive, ..tv };
        proof {
            lemma_count_update(old(self)@.trips, is_unfinished(), id.0 as int, nv);
            lemma_count_update(old(self)@.trips, is_started_bus(), id.0 as int, nv);
        }
        self.trips[id.0].legs = legs;
        self.trips[id.0].mode = TripMode::Drive;
        assert(self@.trips =~= old(self)@.trips.update(id.0 as int, nv));
        assert(self.active@ == old(self).active@);
        assert(self.active_map@ == old(self).active_map@);
        assert(!tv.bus);
        assert(model_wf(self@));
    }

    /// Links a person to their trips; the trips must all be registered already, and the person
    /// identities handed out in order.
    pub fn new_person(&mut self, spec: &PersonSpec)
        requires
            old(self).wf(),
            spec.id.0 == old(self)@.people.len(),
            old(self)@.people.len() < usize::MAX,
            spec.trips@.len() > 0,
            spec.trips@.no_duplicates(),
            forall|k: int|
                0 <= k < spec.trips@.len() ==> #[trigger] spec.trips@[k] < old(self)@.trips.len()
                    && old(self)@.trips[spec.trips@[k] as int].person is None
                    && !old(self)@.trips[spec.trips@[k] as int].bus,
        ensures
            final(self).wf(),
            final(self)@.trips.len() == old(self)@.trips.len(),
            forall|i: int|
                0 <= i < old(self)@.trips.len() ==> #[trigger] final(self)@.trips[i] == if spec.trips@.contains(
                    i as usize,
                ) {
                    TripView { person: Some(spec.id), ..old(self)@.trips[i] }
                } else {
                    old(self)@.trips[i]
                },
            final(self)@.people.len() == old(self)@.people.len() + 1,
            final(self)@.people.drop_last() == old(self)@.people,
            final(self)@.people.last().id == spec.id,
            final(self)@.people.last().trips@ == spec.trips@.map_values(|t: usize| TripID(t)),
            final(self)@.people.last().state == initial_state(
                old(self)@.trips[spec.trips@[0] as int],
            ),
            final(self)@.active == old(self)@.active,
            final(self)@.unfinished == old(self)@.unfinished,
            final(self)@.num_bus_trips == old(self)@.num_bus_trips,
            final(self)@.events == old(self)@.events,
    {
        let ghost t0 = self@.trips;
        let n_trips: usize = self.trips.len();
        let mut ids: Vec<TripID> = Vec::new();
        let mut k: usize = 0;
        while k < spec.trips.len()
            invariant
                0 <= k <= spec.trips@.len(),
                self.active_wf(),
                old(self).active_wf(),
                self.active@ == old(self).active@,
                self.active_map@ == old(self).active_map@,
                self.people@ == old(self).people@,
                self.unfinished_trips == old(self).unfinished_trips,
                self.num_bus_trips == old(self).num_bus_trips,
                self.events@ == old(self).events@,
                self@.trips.len() == t0.len(),
                t0.len() == n_trips,
                ids@ == spec.trips@.take(k as int).map_values(|t: usize| TripID(t)),
                spec.trips@.no_duplicates(),
                forall|j: int|
                    0 <= j < spec.trips@.len() ==> #[trigger] spec.trips@[j] < t0.len() && t0[spec.trips@[j] as int].person is None
                        && !t0[spec.trips@[j] as int].bus,
                forall|i: int|
                    0 <= i < t0.len() ==> #[trigger] self@.trips[i] == if spec.trips@.take(
                        k as int,
                    ).contains(i as usize) {
                        TripView { person: Some(spec.id), ..t0[i] }
                    } else {
                        t0[i]
                    },
            decreases spec.trips@.len() - k,
        {
            let t = spec.trips[k];
            let ghost before = self@.trips;
            assert(!spec.trips@.take(k as int).contains(t)) by {
                if spec.trips@.take(k as int).contains(t) {
                    let j = choose|j: int| 0 <= j < k && spec.trips@.take(k as int)[j] == t;
                    assert(spec.trips@[j] == spec.trips@[k as int]);
                }
            }
            assert(before[t as int] == t0[t as int]);
            assert(self@.trips[t as int] == self.trips@[t as int]@);
            self.trips[t].person = Some(spec.id);
            ids.push(TripID(t));
            assert(self@.trips =~= before.update(t as int, TripView { person: Some(spec.id), ..t0[t as int] }));
            assert(spec.trips@.take(k as int + 1) == spec.trips@.take(k as int).push(t));
            assert forall|i: int| 0 <= i < t0.len() implies #[trigger] spec.trips@.take(k as int + 1).contains(i as usize)
                == (spec.trips@.take(k as int).contains(i as usize) || i == t) by {
                let s0 = spec.trips@.take(k as int);
                let s1 = spec.trips@.take(k as int + 1);
                if i == t {
                    assert(s1[k as int] == t);
                }
                if s0.contains(i as usize) {
                    let j = choose|j: int| 0 <= j < s0.len() && s0[j] == i as usize;
                    assert(s1[j] == s0[j]);
                }
                if s1.contains(i as usize) {
                    let j = choose|j: int| 0 <= j < s1.len() && s1[j] == i as usize;
                    if j < k {
                        assert(s0[j] == s1[j]);
                    }
                }
            }
            k = k + 1;
            assert(ids@ =~= spec.trips@.take(k as int).map_values(|t: usize| TripID(t)));
            proof {
                lemma_active_wf_same(old(self), self);
            }
        }
        assert(spec.trips@.take(k as int) == spec.trips@);
        let first = spec.trips[0];
        assert(spec.trips@.contains(first)) by {
            assert(spec.trips@[0] == first);
        }
        assert(self@.trips[first as int] == self.trips@[first as int]@);
        let state = if self.trips[first].aborted {
            PersonState::Limbo
        } else {
            match self.trips[first].start {
                TripStart::Bldg(b) => PersonState::Inside(b),
                _ => PersonState::OffMap,
            }
        };
        let ghost t1 = self@.trips;
        assert(t1.len() == n_trips);
        proof {
            assert forall|i: int| 0 <= i < t1.len() implies (#[trigger] t1[i]).unfinished_eq(t0[i]) by {}
            lemma_count_congruent(t0, t1);
        }
        self.people.push(Person { id: spec.id, trips: ids, state });
        assert(self.active@ == old(self).active@);
        assert(self.active_map@ == old(self).active_map@);
        proof {
            lemma_active_wf_same(old(self), self);
        }
        assert(self@.trips == t1);
        assert forall|i: int| 0 <= i < t1.len() implies t1[i] == t0[i] || (t1[i] == TripView {
            person: Some(spec.id),
            ..t0[i]
        } && !t0[i].bus) by {
            if spec.trips@.contains(i as usize) {
                let j = choose|j: int| 0 <= j < spec.trips@.len() && spec.trips@[j] == i as usize;
                assert(!t0[spec.trips@[j] as int].bus);
            }
        }
        assert(self@.people.drop_last() == old(self)@.people);
        assert(model_wf(self@)) by {
            assert forall|i: int| 0 <= i < self@.people.len() implies (#[trigger] self@.people[i]).id
                == PersonID(i as usize) by {
                if i < old(self)@.people.len() {
                    assert(self@.people[i] == old(self)@.people[i]);
                }
            }
            assert forall|i: int| 0 <= i < self@.trips.len() implies match (#[trigger] self@.trips[i]).person {
                Some(p) => p.0 < self@.people.len(),
                None => true,
            } by {
                assert(t1[i] == t0[i] || t1[i].person == Some(spec.id));
            }
        }
    }

    /// Whether every trip but those of buses belongs to a person.
    pub fn check_trips_have_people(&self) -> (r: bool)
        requires
            self.wf(),
        ensures
            r == forall|i: int|
                0 <= i < self@.trips.len() ==> #[trigger] self@.trips[i].bus || self@.trips[i].person is Some,
    {
        let mut i: usize = 0;
        while i < self.trips.len()
            invariant
                0 <= i <= self.trips@.len(),
                forall|j: int| 0 <= j < i ==> #[trigger] self@.trips[j].bus || self@.trips[j].person is Some,
            decreases self.trips@.len() - i,
        {
            assert(self@.trips[i as int] == self.trips@[i as int]@);
            if !self.trips[i].bus && self.trips[i].person.is_none() {
                assert(!(self@.trips[i as int].bus || self@.trips[i as int].person is Some));
                return false;
            }
            i = i + 1;
        }
        true
    }

    /// The agent carrying out the trip's current leg.
    pub fn trip_to_agent(&self, id: TripID) -> (r: TripResult<AgentID>)
        requires
            self.wf(),
        ensures
            !self@.has_trip(id) ==> r is TripDoesntExist,
            self@.has_trip(id) && self@.trip(id).is_done() ==> r is TripDone,
            self@.has_trip(id) && !self@.trip(id).is_done() ==> r == TripResult::Found(
                leg_agent(self@.trip(id).legs[0]),
            ),
    {
        if id.0 >= self.trips.len() {
            return TripResult::TripDoesntExist;
        }
        assert(self@.trips[id.0 as int] == self.trips@[id.0 as int]@);
        let trip = &self.trips[id.0];
        if trip.finished_at.is_some() || trip.aborted {
            return TripResult::TripDone;
        }
        match trip.legs[0] {
            TripLeg::Walk(p, _, _) => TripResult::Found(AgentID::Pedestrian(p)),
            TripLeg::Drive(v, _) => TripResult::Found(AgentID::Car(v.id)),
            TripLeg::RideBus(p, _, _) => TripResult::Found(AgentID::Pedestrian(p)),
            TripLeg::ServeBusRoute(c, _) => TripResult::Found(AgentID::Car(c)),
        }
    }

    /// The trip of a live agent; `None` for any other, such as a parked car.
    pub fn agent_to_trip(&self, id: AgentID) -> (r: Option<TripID>)
        requires
            self.wf(),
        ensures
            r == if self@.active.contains_key(id) {
                Some(self@.active[id])
            } else {
                None
            },
    {
        match self.find_agent(id) {
            Some(i) => Some(self.active[i].1),
            None => None,
        }
    }

    /// The live agents, each once.
    pub fn active_agents(&self) -> (r: Vec<AgentID>)
        requires
            self.wf(),
        ensures
            r@.no_duplicates(),
            forall|a: AgentID| r@.contains(a) <==> self@.active.contains_key(a),
    {
        let mut r: Vec<AgentID> = Vec::new();
        let mut i: usize = 0;
        while i < self.active.len()
            invariant
                0 <= i <= self.active@.len(),
                self.active_wf(),
                r@ == self.active@.take(i as int).map_values(|e: (AgentID, TripID)| e.0),
            decreases self.active@.len() - i,
        {
            r.push(self.active[i].0);
            i = i + 1;
            assert(r@ =~= self.active@.take(i as int).map_values(|e: (AgentID, TripID)| e.0));
        }
        assert(self.active@.take(i as int) == self.active@);
        assert forall|j: int, k: int| 0 <= j < r@.len() && 0 <= k < r@.len() && j != k implies r@[j] != r@[k] by {
            if j < k {
                assert((self.active@[j]).0 != (self.active@[k]).0);
            } else {
                assert((self.active@[k]).0 != (self.active@[j]).0);
            }
        }
        assert forall|a: AgentID| r@.contains(a) <==> self@.active.contains_key(a) by {
            if self@.active.contains_key(a) {
                let k = choose|k: int| 0 <= k < self.active@.len() && (#[trigger] self.active@[k]).0 == a;
                assert(r@[k] == a);
            }
            if r@.contains(a) {
                let k = choose|k: int| 0 <= k < r@.len() && r@[k] == a;
                assert(self.active@[k].0 == a);
            }
        }
        r
    }

    /// The trips that live agents carry out, each once.
    pub fn get_active_trips(&self) -> (r: Vec<TripID>)
        requires
            self.wf(),
        ensures
            r@.no_duplicates(),
            forall|t: TripID|
                r@.contains(t) <==> exists|a: AgentID|
                    self@.active.contains_key(a) && #[trigger] self@.active[a] == t,
    {
        let mut r: Vec<TripID> = Vec::new();
        let mut i: usize = 0;
        while i < self.active.len()
            invariant
                0 <= i <= self.active@.len(),
                self.active_wf(),
                r@ == self.active@.take(i as int).map_values(|e: (AgentID, TripID)| e.1),
            decreases self.active@.len() - i,
        {
            r.push(self.active[i].1);
            i = i + 1;
            assert(r@ =~= self.active@.take(i as int).map_values(|e: (AgentID, TripID)| e.1));
        }
        assert(self.active@.take(i as int) == self.active@);
        assert forall|j: int, k: int| 0 <= j < r@.len() && 0 <= k < r@.len() && j != k implies r@[j] != r@[k] by {
            let (a, b) = (self.active@[j].0, self.active@[k].0);
            assert(a != b) by {
                if j < k {
                    assert((self.active@[j]).0 != (self.active@[k]).0);
                } else {
                    assert((self.active@[k]).0 != (self.active@[j]).0);
                }
            }
            assert(self@.active.contains_key(a) && self@.active.contains_key(b));
        }
        assert forall|t: TripID| r@.contains(t) <==> exists|a: AgentID|
            self@.active.contains_key(a) && #[trigger] self@.active[a] == t by {
            if r@.contains(t) {
                let k = choose|k: int| 0 <= k < r@.len() && r@[k] == t;
                assert(self@.active.contains_key(self.active@[k].0));
            }
            if exists|a: AgentID| self@.active.contains_key(a) && #[trigger] self@.active[a] == t {
                let a = choose|a: AgentID| self@.active.contains_key(a) && #[trigger] self@.active[a] == t;
                let k = choose|k: int| 0 <= k < self.active@.len() && (#[trigger] self.active@[k]).0 == a;
                assert(r@[k] == t);
            }
        }
        r
    }

    /// Whether every trip but those of buses has finished or been aborted.
    pub fn is_done(&self) -> (r: bool)
        ensures
            r == (self@.unfinished == 0),
    {
        self.unfinished_trips == 0
    }

    /// Hands out the events recorded since the last call, oldest first.
    pub fn collect_events(&mut self) -> (r: Vec<Event>)
        requires
            old(self).wf(),
        ensures
            final(self).wf(),
            r@ == old(self)@.events,
            final(self)@ == (TripManagerView { events: Seq::empty(), ..old(self)@ }),
    {
        let mut r = Vec::new();
        std::mem::swap(&mut r, &mut self.events);
        assert(self.active@ == old(self).active@);
        assert(self.active_map@ == old(self).active_map@);
        assert(self.trips@ == old(self).trips@);
        assert(self@.events =~= Seq::empty());
        r
    }

    /// Where the trip starts and ends.
    pub fn trip_endpoints(&self, id: TripID) -> (r: (TripStart, TripEnd))
        requires
            self.wf(),
            self@.has_trip(id),
        ensures
            r == (self@.trip(id).start, self@.trip(id).end),
    {
        assert(self@.trips[id.0 as int] == self.trips@[id.0 as int]@);
        (self.trips[id.0].start, self.trips[id.0].end)
    }

    /// The first trip that uses the car, or waits to choose a car parked at `home`, with the
    /// time it starts.
    pub fn find_trip_using_car(&self, id: CarID, home: BuildingID) -> (r: Option<(TripID, Time)>)
        requires
            self.wf(),
        ensures
            match r {
                Some((t, time)) => self@.has_trip(t) && uses_car(self@.trip(t), id, home)
                    && time == self@.trip(t).spawned_at && forall|j: int|
                    0 <= j < t.0 ==> !uses_car(#[trigger] self@.trips[j], id, home),
                None => forall|j: int|
                    0 <= j < self@.trips.len() ==> !uses_car(#[trigger] self@.trips[j], id, home),
            },
    {
        let mut i: usize = 0;
        while i < self.trips.len()
            invariant
                0 <= i <= self@.trips.len(),
                self.wf(),
                forall|j: int| 0 <= j < i ==> !uses_car(#[trigger] self@.trips[j], id, home),
            decreases self@.trips.len() - i,
        {
            assert(self@.trips[i as int] == self.trips@[i as int]@);
            let trip = &self.trips[i];
            let mut k: usize = 0;
            while k < trip.legs.len()
                invariant
                    0 <= k <= trip.legs@.len(),
                    i < self@.trips.len(),
                    self.wf(),
                    self@.trips[i as int] == trip@,
                    forall|j: int| 0 <= j < i ==> !uses_car(#[trigger] self@.trips[j], id, home),
                    forall|j: int| 0 <= j < k ==> !leg_uses_car(#[trigger] trip.legs@[j], id, home),
                decreases trip.legs@.len() - k,
            {
                let hit = match trip.legs[k] {
                    TripLeg::Walk(_, _, spot) => match spot.connection {
                        SidewalkPOI::DeferredParkingSpot(b, _) => b == home,
                        _ => false,
                    },
                    TripLeg::Drive(v, _) => v.id == id,
                    _ => false,
                };
                if hit {
                    assert(leg_uses_car(trip.legs@[k as int], id, home));
                    assert(self@.trips[i as int].id == TripID(i));
                    return Some((TripID(i), trip.spawned_at));
                }
                k = k + 1;
            }
            assert(!uses_car(self@.trips[i as int], id, home));
            i = i + 1;
        }
        None
    }

    /// The trips that start at `start` or end at `end`, sorted by how far along they are at
    /// `now`. A trip may count on both sides.
    fn count_trips(&self, start: TripStart, end: TripEnd, now: Time) -> (r: TripCount)
        requires
            self.wf(),
        ensures
            r.from_aborted@ == ids_where(self@.trips, starts_with(start, now, TripStatus::Aborted)),
            r.from_completed@ == ids_where(self@.trips, starts_with(start, now, TripStatus::Completed)),
            r.from_in_progress@ == ids_where(self@.trips, starts_with(start, now, TripStatus::InProgress)),
            r.from_unstarted@ == ids_where(self@.trips, starts_with(start, now, TripStatus::Unstarted)),
            r.to_aborted@ == ids_where(self@.trips, ends_with(end, now, TripStatus::Aborted)),
            r.to_completed@ == ids_where(self@.trips, ends_with(end, now, TripStatus::Completed)),
            r.to_in_progress@ == ids_where(self@.trips, ends_with(end, now, TripStatus::InProgress)),
            r.to_unstarted@ == ids_where(self@.trips, ends_with(end, now, TripStatus::Unstarted)),
    {
        let mut cnt = TripCount {
            from_aborted: Vec::new(),
            from_in_progress: Vec::new(),
            from_completed: Vec::new(),
            from_unstarted: Vec::new(),
            to_aborted: Vec::new(),
            to_in_progress: Vec::new(),
            to_completed: Vec::new(),
            to_unstarted: Vec::new(),
        };
        let mut i: usize = 0;
        while i < self.trips.len()
            invariant
                0 <= i <= self@.trips.len(),
                self.wf(),
                cnt.from_aborted@ == ids_where(self@.trips.take(i as int), starts_with(start, now, TripStatus::Aborted)),
                cnt.from_completed@ == ids_where(self@.trips.take(i as int), starts_with(start, now, TripStatus::Completed)),
                cnt.from_in_progress@ == ids_where(self@.trips.take(i as int), starts_with(start, now, TripStatus::InProgress)),
                cnt.from_unstarted@ == ids_where(self@.trips.take(i as int), starts_with(start, now, TripStatus::Unstarted)),
                cnt.to_aborted@ == ids_where(self@.trips.take(i as int), ends_with(end, now, TripStatus::Aborted)),
                cnt.to_completed@ == ids_where(self@.trips.take(i as int), ends_with(end, now, TripStatus::Completed)),
                cnt.to_in_progress@ == ids_where(self@.trips.take(i as int), ends_with(end, now, TripStatus::InProgress)),
                cnt.to_unstarted@ == ids_where(self@.trips.take(i as int), ends_with(end, now, TripStatus::Unstarted)),
            decreases self@.trips.len() - i,
        {
            assert(self@.trips[i as int] == self.trips@[i as int]@);
            assert(self@.trips.take(i as int + 1).drop_last() == self@.trips.take(i as int));
            assert(self@.trips.take(i as int + 1).last() == self@.trips[i as int]);
            let trip = &self.trips[i];
            let status = status_at(trip, now);
            if trip.start == start {
                match status {
                    TripStatus::Aborted => cnt.from_aborted.push(trip.id),
                    TripStatus::Completed => cnt.from_completed.push(trip.id),
                    TripStatus::InProgress => cnt.from_in_progress.push(trip.id),
                    TripStatus::Unstarted => cnt.from_unstarted.push(trip.id),
                }
            }
            if trip.end == end {
                match status {
                    TripStatus::Aborted => cnt.to_aborted.push(trip.id),
                    TripStatus::Completed => cnt.to_completed.push(trip.id),
                    TripStatus::InProgress => cnt.to_in_progress.push(trip.id),
                    TripStatus::Unstarted => cnt.to_unstarted.push(trip.id),
                }
            }
            i = i + 1;
        }
        assert(self@.trips.take(i as int) == self@.trips);
        cnt
    }

    /// The trips that start or end at the building, by how far along they are at `now`.
    pub fn count_trips_involving_bldg(&self, b: BuildingID, now: Time) -> (r: TripCount)
        requires
            self.wf(),
        ensures
            r.from_aborted@ == ids_where(self@.trips, starts_with(TripStart::Bldg(b), now, TripStatus::Aborted)),
            r.from_completed@ == ids_where(self@.trips, starts_with(TripStart::Bldg(b), now, TripStatus::Completed)),
            r.from_in_progress@ == ids_where(self@.trips, starts_with(TripStart::Bldg(b), now, TripStatus::InProgress)),
            r.from_unstarted@ == ids_where(self@.trips, starts_with(TripStart::Bldg(b), now, TripStatus::Unstarted)),
            r.to_aborted@ == ids_where(self@.trips, ends_with(TripEnd::Bldg(b), now, TripStatus::Aborted)),
            r.to_completed@ == ids_where(self@.trips, ends_with(TripEnd::Bldg(b), now, TripStatus::Completed)),
            r.to_in_progress@ == ids_where(self@.trips, ends_with(TripEnd::Bldg(b), now, TripStatus::InProgress)),
            r.to_unstarted@ == ids_where(self@.trips, ends_with(TripEnd::Bldg(b), now, TripStatus::Unstarted)),
    {
        self.count_trips(TripStart::Bldg(b), TripEnd::Bldg(b), now)
    }

    /// The trips that start or end at the border, by how far along they are at `now`.
    pub fn count_trips_involving_border(&self, i: IntersectionID, now: Time) -> (r: TripCount)
        requires
            self.wf(),
        ensures
            r.from_aborted@ == ids_where(self@.trips, starts_with(TripStart::Border(i), now, TripStatus::Aborted)),
            r.from_completed@ == ids_where(self@.trips, starts_with(TripStart::Border(i), now, TripStatus::Completed)),
            r.from_in_progress@ == ids_where(self@.trips, starts_with(TripStart::Border(i), now, TripStatus::InProgress)),
            r.from_unstarted@ == ids_where(self@.trips, starts_with(TripStart::Border(i), now, TripStatus::Unstarted)),
            r.to_aborted@ == ids_where(self@.trips, ends_with(TripEnd::Border(i), now, TripStatus::Aborted)),
            r.to_completed@ == ids_where(self@.trips, ends_with(TripEnd::Border(i), now, TripStatus::Completed)),
            r.to_in_progress@ == ids_where(self@.trips, ends_with(TripEnd::Border(i), now, TripStatus::InProgress)),
            r.to_unstarted@ == ids_where(self@.trips, ends_with(TripEnd::Border(i), now, TripStatus::Unstarted)),
    {
        self.count_trips(TripStart::Border(i), TripEnd::Border(i), now)
    }

    /// Finished trips (aborted ones included), unfinished trips, live agents by mode, people
    /// inside buildings, and people off the map.
    pub fn num_trips(&self) -> (r: (usize, usize, Vec<(TripMode, usize)>, usize, usize))
        requires
            self.wf(),
        ensures
            r.0 == self@.trips.len() - self@.unfinished,
            r.1 == self@.unfinished,
            r.2@ == seq![
                (TripMode::Walk, count_mode(self.live_agents(), TripMode::Walk) as usize),
                (TripMode::Bike, count_mode(self.live_agents(), TripMode::Bike) as usize),
                (TripMode::Transit, count_mode(self.live_agents(), TripMode::Transit) as usize),
                (TripMode::Drive, count_mode(self.live_agents(), TripMode::Drive) as usize),
            ],
            r.3 == count_people(self@.people, true),
            r.4 == count_people(self@.people, false),
    {
        let mut walk: usize = 0;
        let mut bike: usize = 0;
        let mut transit: usize = 0;
        let mut drive: usize = 0;
        let mut i: usize = 0;
        while i < self.active.len()
            invariant
                0 <= i <= self.active@.len(),
                walk == count_mode(self.live_agents().take(i as int), TripMode::Walk),
                bike == count_mode(self.live_agents().take(i as int), TripMode::Bike),
                transit == count_mode(self.live_agents().take(i as int), TripMode::Transit),
                drive == count_mode(self.live_agents().take(i as int), TripMode::Drive),
                walk + bike + transit + drive == i,
            decreases self.active@.len() - i,
        {
            let ghost s = self.live_agents();
            assert(s.take(i as int + 1).drop_last() == s.take(i as int));
            assert(s.take(i as int + 1).last() == self.active@[i as int].0);
            match TripMode::from_agent(self.active[i].0) {
                TripMode::Walk => walk = walk + 1,
                TripMode::Bike => bike = bike + 1,
                TripMode::Transit => transit = transit + 1,
                TripMode::Drive => drive = drive + 1,
            }
            i = i + 1;
        }
        assert(self.live_agents().take(i as int) == self.live_agents());
        let mut inside: usize = 0;
        let mut off_map: usize = 0;
        let mut j: usize = 0;
        while j < self.people.len()
            invariant
                0 <= j <= self.people@.len(),
                inside == count_people(self.people@.take(j as int), true),
                off_map == count_people(self.people@.take(j as int), false),
                inside + off_map <= j,
            decreases self.people@.len() - j,
        {
            assert(self.people@.take(j as int + 1).drop_last() == self.people@.take(j as int));
            assert(self.people@.take(j as int + 1).last() == self.people@[j as int]);
            match self.people[j].state {
                PersonState::Inside(_) => inside = inside + 1,
                PersonState::OffMap => off_map = off_map + 1,
                _ => {},
            }
            j = j + 1;
        }
        assert(self.people@.take(j as int) == self.people@);
        proof {
            lemma_count_bound(self@.trips, is_unfinished());
        }
        let per_mode = vec![
            (TripMode::Walk, walk),
            (TripMode::Bike, bike),
            (TripMode::Transit, transit),
            (TripMode::Drive, drive),
        ];
        (self.trips.len() - self.unfinished_trips, self.unfinished_trips, per_mode, inside, off_map)
    }

    /// The live agents, in the order their legs began.
    pub closed spec fn live_agents(&self) -> Seq<AgentID> {
        self.active@.map_values(|e: (AgentID, TripID)| e.0)
    }

    /// The last leg, that is the goal, of a live agent's trip; `None` for any other agent,
    /// such as a parked car.
    pub fn debug_trip(&self, id: AgentID) -> (r: Option<TripLeg>)
        requires
            self.wf(),
        ensures
            r == if self@.active.contains_key(id) {
                Some(self@.trip_of(id).legs.last())
            } else {
                None
            },
    {
        match self.find_agent(id) {
            Some(i) => {
                let t = self.active[i].1;
                assert(self@.trips[t.0 as int] == self.trips@[t.0 as int]@);
                let trip = &self.trips[t.0];
                Some(trip.legs[trip.legs.len() - 1])
            },
            None => None,
        }
    }

    /// How many legs the trip has still to go.
    pub fn legs_left(&self, id: TripID) -> (r: usize)
        requires
            self.wf(),
            self@.has_trip(id),
        ensures
            r == self@.trip(id).legs.len(),
    {
        assert(self@.trips[id.0 as int] == self.trips@[id.0 as int]@);
        self.trips[id.0].legs.len()
    }

    /// A vehicle found no room to appear. Where its command allows it, and it has tries left,
    /// it tries again a little later; otherwise its trip is given up, as failing to start
    /// where this was the trip's first vehicle.
    pub fn car_spawn_blocked(
        &mut self,
        now: Time,
        create: CreateCar,
        retry_if_no_room: bool,
        first_leg: bool,
        scheduler: &mut Scheduler,
    )
        requires
            old(self).wf(),
            old(self)@.has_trip(create.trip),
            !old(self)@.trip(create.trip).is_done(),
            old(self)@.trip_idle(create.trip),
            old(scheduler).wf(),
            now >= old(scheduler).current_time(),
        ensures
            final(self).wf(),
            legs_not_grown(old(self)@, final(self)@),
            ({
                let t = create.trip;
                if retry_if_no_room && create.retries < MAX_SPAWN_RETRIES && now + SPAWN_RETRY_DELAY
                    <= u64::MAX {
                    final(self)@ == old(self)@ && pushed(
                        *old(scheduler),
                        *final(scheduler),
                        (now + SPAWN_RETRY_DELAY) as Time,
                        Command::SpawnCar(CreateCar { retries: (create.retries + 1) as u32, ..create }, true),
                    )
                } else {
                    *final(scheduler) == *old(scheduler) && final(self)@ == old(self)@.abort(
                        t,
                        if first_leg {
                            AbortReason::FailedStart
                        } else {
                            AbortReason::NoRoom
                        },
                    )
                }
            }),
    {
        let t = create.trip;
        if retry_if_no_room && create.retries < MAX_SPAWN_RETRIES && now <= u64::MAX - SPAWN_RETRY_DELAY {
            let retries = create.retries + 1;
            let again = CreateCar { retries, ..create };
            scheduler.push(now + SPAWN_RETRY_DELAY, Command::SpawnCar(again, true));
        } else {
            let reason = if first_leg {
                AbortReason::FailedStart
            } else {
                AbortReason::NoRoom
            };
            self.abort_trip(t, reason);
        }
    }

    /// A pedestrian who was to use whichever car of their building is parked nearby has
    /// looked for one. Found, the trip's legs become the walk to it, the drive, and the walk
    /// from where it parks, and the walk to the car starts from the building; not found, the
    /// trip is given up.
    pub fn resolve_deferred_car<N: Network, P: Parking>(
        &mut self,
        now: Time,
        ped: PedestrianID,
        found: Option<ParkedCar>,
        map: &N,
        parking: &P,
        scheduler: &mut Scheduler,
    )
        requires
            old(self).wf(),
            old(self)@.active.contains_key(AgentID::Pedestrian(ped)),
            old(self)@.trip_of(AgentID::Pedestrian(ped)).legs.len() == 1,
            old(self)@.trip_of(AgentID::Pedestrian(ped)).legs[0] is Walk,
            old(self)@.trip_of(AgentID::Pedestrian(ped)).legs[0]->Walk_2.connection is DeferredParkingSpot,
            old(scheduler).wf(),
            now >= old(scheduler).current_time(),
        ensures
            final(self).wf(),
            ({
                let a = AgentID::Pedestrian(ped);
                let t = old(self)@.active[a];
                let leg = old(self)@.trip(t).legs[0];
                let speed = leg->Walk_1;
                let b = leg->Walk_2.connection->DeferredParkingSpot_0;
                let goal = leg->Walk_2.connection->DeferredParkingSpot_1;
                let m = old(self)@.without_agent(a);
                match found {
                    None => final(self)@ == m.abort(t, AbortReason::ImpossibleParking)
                        && *final(scheduler) == *old(scheduler),
                    Some(pc) => exists|legs: Seq<TripLeg>|
                        #[trigger] car_legs(legs, ped, speed, pc, goal) && exists|pos: Position|
                        walk_spawned(
                            m.with_trip(t, TripView { legs, mode: TripMode::Drive, ..m.trip(t) }),
                            final(self)@,
                            *old(scheduler),
                            *final(scheduler),
                            t,
                            now,
                            SidewalkSpot { connection: SidewalkPOI::Building(b), sidewalk_pos: pos },
                        ),
                }
            }),
    {
        let t = self.take_agent(AgentID::Pedestrian(ped));
        assert(self@.trips[t.0 as int] == self.trips@[t.0 as int]@);
        let (speed, b, goal) = match self.trips[t.0].legs[0] {
            TripLeg::Walk(_, speed, spot) => match spot.connection {
                SidewalkPOI::DeferredParkingSpot(b, goal) => (speed, b, goal),
                _ => {
                    proof {
                        assert(false);
                    }
                    return ;
                },
            },
            _ => {
                proof {
                    assert(false);
                }
                return ;
            },
        };
        match found {
            None => {
                self.abort_trip(t, AbortReason::ImpossibleParking);
            },
            Some(pc) => {
                let mut legs: Vec<TripLeg> = Vec::new();
                legs.push(TripLeg::Walk(ped, speed, SidewalkSpot::parking_spot(pc.spot, parking)));
                legs.push(TripLeg::Drive(pc.vehicle, goal));
                if let TripEndpoint::Building(g) = goal {
                    legs.push(TripLeg::Walk(ped, speed, SidewalkSpot::building(g, map)));
                }
                let ghost lv = legs@;
                assert(car_legs(lv, ped, speed, pc, goal));
                assert(awaits_car_choice(self@.trip(t).legs)) by {
                    assert(self@.trip(t).legs[0]->Walk_2.connection is DeferredParkingSpot);
                }
                assert(!awaits_car_choice(lv)) by {
                    assert forall|i: int| 0 <= i < lv.len() implies !match #[trigger] lv[i] {
                        TripLeg::Walk(_, _, spot) => spot.connection is DeferredParkingSpot,
                        _ => false,
                    } by {}
                }
                self.dynamically_override_legs(t, legs);
                let start = SidewalkSpot::building(b, map);
                self.spawn_ped(t, now, start, map, scheduler);
            },
        }
    }

    /// How many bus trips have started serving their route.
    pub fn buses_in_service(&self) -> (r: usize)
        ensures
            r == self@.num_bus_trips,
    {
        self.num_bus_trips
    }

    /// The trips not of buses that finished, that are unfinished, and that were aborted.
    pub fn trip_totals(&self) -> (r: (usize, usize, usize))
        requires
            self.wf(),
        ensures
            r.0 == count_trips(self@.trips, is_finished()),
            r.1 == self@.unfinished,
            r.2 == count_trips(self@.trips, is_aborted()),
    {
        let mut finished: usize = 0;
        let mut aborted: usize = 0;
        let mut i: usize = 0;
        while i < self.trips.len()
            invariant
                0 <= i <= self@.trips.len(),
                self.wf(),
                finished == count_trips(self@.trips.take(i as int), is_finished()),
                aborted == count_trips(self@.trips.take(i as int), is_aborted()),
                finished + aborted <= i,
            decreases self@.trips.len() - i,
        {
            assert(self@.trips[i as int] == self.trips@[i as int]@);
            assert(self@.trips.take(i as int + 1).drop_last() == self@.trips.take(i as int));
            assert(self@.trips.take(i as int + 1).last() == self@.trips[i as int]);
            let trip = &self.trips[i];
            if !trip.bus {
                if trip.finished_at.is_some() {
                    finished = finished + 1;
                }
                if trip.aborted {
                    aborted = aborted + 1;
                }
            }
            proof {
                assert(!(self@.trips[i as int].finished_at is Some && self@.trips[i as int].aborted));
            }
            i = i + 1;
        }
        assert(self@.trips.take(i as int) == self@.trips);
        (finished, self.unfinished_trips, aborted)
    }
}

/// The leg uses the car, or waits to choose a car parked at `home`.
pub open spec fn leg_uses_car(l: TripLeg, id: CarID, home: BuildingID) -> bool {
    match l {
        TripLeg::Walk(_, _, spot) => match spot.connection {
            SidewalkPOI::DeferredParkingSpot(b, _) => b == home,
            _ => false,
        },
        TripLeg::Drive(v, _) => v.id == id,
        _ => false,
    }
}

pub open spec fn uses_car(t: TripView, id: CarID, home: BuildingID) -> bool {
    exists|k: int| 0 <= k < t.legs.len() && leg_uses_car(#[trigger] t.legs[k], id, home)
}

/// What a question about a trip found.
pub enum TripResult<T> {
    Found(T),
    ModeChange,
    TripDone,
    TripDoesntExist,
}

impl<T> TripResult<T> {
    /// The value found, if any.
    pub fn ok(self) -> (r: Option<T>)
        ensures
            r == match self {
                TripResult::Found(x) => Some(x),
                _ => None,
            },
    {
        match self {
            TripResult::Found(data) => Some(data),
            _ => None,
        }
    }

    /// The same failure, for a question about something else.
    pub fn propagate_error<X>(self) -> (r: TripResult<X>)
        requires
            !(self is Found),
        ensures
            self is ModeChange ==> r is ModeChange,
            self is TripDone ==> r is TripDone,
            self is TripDoesntExist ==> r is TripDoesntExist,
    {
        match self {
            TripResult::Found(_) => {
                proof {
                    assert(false);
                }
                TripResult::TripDoesntExist
            },
            TripResult::ModeChange => TripResult::ModeChange,
            TripResult::TripDone => TripResult::TripDone,
            TripResult::TripDoesntExist => TripResult::TripDoesntExist,
        }
    }

}

/// The leg is `ped` walking to the point of interest.
pub open spec fn walks_to(l: TripLeg, ped: PedestrianID, poi: SidewalkPOI) -> bool {
    match l {
        TripLeg::Walk(p, _, spot) => p == ped && spot.connection == poi,
        _ => false,
    }
}

proof fn lemma_active_wf_same(a: &TripManager, b: &TripManager)
    requires
        a.active_wf(),
        a.active@ == b.active@,
        a.active_map@ == b.active_map@,
    ensures
        b.active_wf(),
{
}

/// The trip waits to learn which parked car it will use.
pub open spec fn awaits_car_choice(legs: Seq<TripLeg>) -> bool {
    exists|i: int|
        0 <= i < legs.len() && match #[trigger] legs[i] {
            TripLeg::Walk(_, _, spot) => spot.connection is DeferredParkingSpot,
            _ => false,
        }
}

/// Where a person is before their first trip.
pub open spec fn initial_state(first: TripView) -> PersonState {
    if first.aborted {
        PersonState::Limbo
    } else {
        match first.start {
            TripStart::Bldg(b) => PersonState::Inside(b),
            _ => PersonState::OffMap,
        }
    }
}

/// The legs of a trip that found its car: walk to it, drive it, and walk into the goal where
/// the goal is a building.
pub open spec fn car_legs(
    legs: Seq<TripLeg>,
    ped: PedestrianID,
    speed: Speed,
    pc: ParkedCar,
    goal: TripEndpoint,
) -> bool {
    &&& legs.len() == (if goal is Building {
        3int
    } else {
        2int
    })
    &&& match legs[0] {
        TripLeg::Walk(w, sp, to) => w == ped && sp == speed && to.connection
            == SidewalkPOI::ParkingSpot(pc.spot),
        _ => false,
    }
    &&& legs[1] == TripLeg::Drive(pc.vehicle, goal)
    &&& match goal {
        TripEndpoint::Building(g) => match legs[2] {
            TripLeg::Walk(w, sp, to) => w == ped && sp == speed && to.connection
                == SidewalkPOI::Building(g),
            _ => false,
        },
        _ => true,
    }
}

/// Where a car parked at `spot`, standing at `pos` on its lane, starts to drive: to leave a
/// building its front has to be where it joins the lane. `None` where that is past any
/// distance.
pub open spec fn leave_pos(spot: ParkingSpot, pos: Position, length: Distance) -> Option<Position> {
    match spot {
        ParkingSpot::Offstreet(_, _) => if pos.dist_along + length <= u64::MAX {
            Some(Position { lane: pos.lane, dist_along: (pos.dist_along + length) as Distance })
        } else {
            None
        },
        ParkingSpot::Onstreet(_, _) => Some(pos),
    }
}

pub fn leaving_position(spot: ParkingSpot, pos: Position, length: Distance) -> (r: Option<Position>)
    ensures
        r == leave_pos(spot, pos, length),
{
    match spot {
        ParkingSpot::Offstreet(_, _) => match pos.dist_along.checked_add(length) {
            Some(d) => Some(Position::new(pos.lane, d)),
            None => None,
        },
        ParkingSpot::Onstreet(_, _) => Some(pos),
    }
}

/// After the car of trip `t`'s current leg was looked for at `spot`: where the right car was
/// found and a path leads from where it leaves, it is queued to drive off at `now`; otherwise
/// the trip was aborted as unable to park.
pub open spec fn car_left_spot(
    before: TripManagerView,
    after: TripManagerView,
    sb: Scheduler,
    sa: Scheduler,
    t: TripID,
    now: Time,
    spot: ParkingSpot,
    found: Option<ParkedCar>,
    pos: Position,
    end: Position,
    path: Option<Path>,
) -> bool {
    let (v, goal) = (before.trip(t).legs[0]->Drive_0, before.trip(t).legs[0]->Drive_1);
    let pc = found->Some_0;
    if found is Some && pc.vehicle.id == v.id && leave_pos(spot, pos, pc.vehicle.length) is Some
        && path is Some {
        let start = leave_pos(spot, pos, pc.vehicle.length)->Some_0;
        after == before && pushed(
            sb,
            sa,
            now,
            Command::SpawnCar(
                CreateCar {
                    vehicle: pc.vehicle,
                    path: path->Some_0,
                    goal,
                    req: PathRequest { start, end, constraints: PathConstraints::Car },
                    start_dist: start.dist_along,
                    maybe_parked_car: Some(pc),
                    trip: t,
                    retries: 0,
                },
                true,
            ),
        )
    } else {
        after == before.abort(t, AbortReason::ImpossibleParking) && sa == sb
    }
}

/// After the bike of trip `t`'s current leg was to set off from `pos` to `end`: with no path
/// the trip was aborted; with one, the bike was queued to appear at `now`.
pub open spec fn bike_started(
    before: TripManagerView,
    after: TripManagerView,
    sb: Scheduler,
    sa: Scheduler,
    t: TripID,
    now: Time,
    pos: Position,
    end: Position,
    path: Option<Path>,
) -> bool {
    let (v, goal) = (before.trip(t).legs[0]->Drive_0, before.trip(t).legs[0]->Drive_1);
    match path {
        None => after == before.abort(t, AbortReason::NoPath) && sa == sb,
        Some(p) => after == before && pushed(
            sb,
            sa,
            now,
            Command::SpawnCar(
                CreateCar {
                    vehicle: v,
                    path: p,
                    goal,
                    req: PathRequest { start: pos, end, constraints: PathConstraints::Bike },
                    start_dist: pos.dist_along,
                    maybe_parked_car: None,
                    trip: t,
                    retries: 0,
                },
                true,
            ),
        ),
    }
}

/// The leg is `car` driving to park near a building.
pub open spec fn drives_to_building(l: TripLeg, car: CarID) -> bool {
    match l {
        TripLeg::Drive(v, TripEndpoint::Building(_)) => v.id == car,
        _ => false,
    }
}

/// The building that a car parked at `spot` has reached, where the walk `l` that follows
/// would only lead into it.
pub open spec fn parked_at_goal(spot: ParkingSpot, l: TripLeg) -> Option<BuildingID> {
    match spot {
        ParkingSpot::Offstreet(b, _) => match l {
            TripLeg::Walk(_, _, to) => if to.connection == SidewalkPOI::Building(b) {
                Some(b)
            } else {
                None
            },
            _ => None,
        },
        ParkingSpot::Onstreet(_, _) => None,
    }
}

/// The leg is `car` driving out of the map at border `i`, or to the end of a lane.
pub open spec fn drives_to_edge(l: TripLeg, car: CarID, i: IntersectionID) -> bool {
    match l {
        TripLeg::Drive(v, TripEndpoint::Border(j, _)) => v.id == car && j == i,
        TripLeg::Drive(v, TripEndpoint::Lane(_)) => v.id == car,
        _ => false,
    }
}

/// The request for a walk from `start` to `goal`.
pub open spec fn walk_request(start: SidewalkSpot, goal: SidewalkSpot) -> PathRequest {
    PathRequest {
        start: start.sidewalk_pos,
        end: goal.sidewalk_pos,
        constraints: PathConstraints::Pedestrian,
    }
}

/// After the walking leg at the front of trip `t` was to start from `start`: either no path
/// was found and the trip was aborted, or a pedestrian for that leg was queued for `now`.
pub open spec fn walk_spawned(
    before: TripManagerView,
    after: TripManagerView,
    sb: Scheduler,
    sa: Scheduler,
    t: TripID,
    now: Time,
    start: SidewalkSpot,
) -> bool {
    ||| after == before.abort(t, AbortReason::NoPath) && sa == sb
    ||| after == before && match before.trip(t).legs[0] {
        TripLeg::Walk(ped, speed, goal) => exists|c: CreatePedestrian|
            pushed(sb, sa, now, Command::SpawnPed(c)) && c.id == ped && c.start == start && c.speed
                == speed && c.goal == goal && c.req == walk_request(start, goal) && c.trip == t,
        _ => false,
    }
}

/// A trip as `new_trip` registers it.
pub open spec fn new_trip_view(id: TripID, spawned_at: Time, start: TripStart, legs: Seq<TripLeg>) -> TripView {
    TripView {
        id,
        spawned_at,
        finished_at: None,
        aborted: false,
        legs,
        mode: mode_of_legs(legs),
        start,
        end: end_of_last_leg(legs.last()).unwrap(),
        person: None,
        bus: is_bus_legs(legs),
        started: false,
    }
}

/// At every moment, each trip not of a bus is exactly one of unfinished, finished and
/// aborted: the unfinished count plus the finished and aborted trips make up all of them.
pub proof fn lemma_trip_totals(tm: &TripManager)
    requires
        tm.wf(),
    ensures
        tm@.unfinished + count_trips(tm@.trips, is_finished()) + count_trips(
            tm@.trips,
            is_aborted(),
        ) == count_trips(tm@.trips, is_non_bus()),
{
    lemma_count_partition(tm@.trips);
}

/// What a well-formed `TripManager` keeps true, on its view: trip identities are their
/// positions, the counters match the trips, people are in range, and live agents are carrying
/// out unfinished trips, one agent per trip.
pub proof fn lemma_wf_model(tm: &TripManager)
    requires
        tm.wf(),
    ensures
        model_wf(tm@),
{
}

/// Every live agent carries out a trip that is neither finished nor aborted.
pub proof fn lemma_live_trips_in_progress(tm: &TripManager)
    requires
        tm.wf(),
    ensures
        forall|a: AgentID| #[trigger]
            tm@.active.contains_key(a) ==> tm@.has_trip(tm@.active[a]) && !tm@.trip_of(
                a,
            ).is_done(),
{
}

/// No live agent carries out a trip that has finished or been aborted, so no milestone, each
/// of which names a live agent, can reach such a trip: a trip is aborted at most once.
pub proof fn lemma_done_trip_unreachable(tm: &TripManager, t: TripID)
    requires
        tm.wf(),
        tm@.has_trip(t),
        tm@.trip(t).is_done(),
    ensures
        tm@.trip_idle(t),
{
    assert forall|a: AgentID| #[trigger] tm@.active.contains_key(a) implies tm@.active[a] != t by {
        assert(!tm@.trip_of(a).is_done());
    }
}

/// Once a trip knows which car it uses, dropping legs never makes it wait for a choice again:
/// the rewrite of a trip's legs happens at most once.
pub proof fn lemma_choice_made_stays(legs: Seq<TripLeg>)
    requires
        legs.len() > 0,
        !awaits_car_choice(legs),
    ensures
        !awaits_car_choice(legs.skip(1)),
{
    if awaits_car_choice(legs.skip(1)) {
        let i = choose|i: int|
            0 <= i < legs.skip(1).len() && match #[trigger] legs.skip(1)[i] {
                TripLeg::Walk(_, _, spot) => spot.connection is DeferredParkingSpot,
                _ => false,
            };
        assert(legs.skip(1)[i] == legs[i + 1]);
        assert(awaits_car_choice(legs));
    }
}

} // verus!
