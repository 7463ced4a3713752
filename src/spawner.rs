//! Checks trip specifications as they come in, then finds each one's first path and starts it.
use vstd::prelude::*;
use crate::ids::{
    BuildingID, BusRouteID, BusStopID, CarID, Distance, PedestrianID, Speed, Time, EPSILON_DIST,
    MAX_CAR_LENGTH,
};
use crate::model::{
    ParkedCar, ParkingSpot, Path, PathConstraints, PathRequest, Position, SidewalkPOI,
    SidewalkSpot, TripEndpoint, VehicleSpec,
};
use crate::scheduler::{queue_insert_all, Command, CreateCar, CreatePedestrian, Scheduler};
use crate::trips::{
    mode_of_legs, new_trip_view, TripLeg, TripMode, TripManager, TripManagerView, TripStart, TripView,
};
use crate::events::{AbortReason, Event};
use crate::world::{Network, Parking};

verus! {

/// What a traveler wants to do, before any path is known.
#[derive(Clone, Copy, Debug, PartialEq, Eq, Structural)]
pub enum TripSpec {
    /// A vehicle appears on a lane, at a border or anywhere for testing, and drives to the goal.
    CarAppearing {
        start_pos: Position,
        goal: TripEndpoint,
        vehicle_spec: VehicleSpec,
        ped_speed: Speed,
    },
    /// Walk to the car parked at the spot, then drive it to the goal.
    UsingParkedCar { start: SidewalkSpot, spot: ParkingSpot, goal: TripEndpoint, ped_speed: Speed },
    /// Leave the building and use whichever of its cars is parked nearby at the time.
    MaybeUsingParkedCar { start_bldg: BuildingID, goal: TripEndpoint, ped_speed: Speed },
    JustWalking { start: SidewalkSpot, goal: SidewalkSpot, ped_speed: Speed },
    /// Walk to a bike rack near the start, then bike to the goal.
    UsingBike { start: SidewalkSpot, goal: TripEndpoint, vehicle: VehicleSpec, ped_speed: Speed },
    /// Walk to a stop, ride the route to another, and walk on to the goal.
    UsingTransit {
        start: SidewalkSpot,
        goal: SidewalkSpot,
        route: BusRouteID,
        stop1: BusStopID,
        stop2: BusStopID,
        ped_speed: Speed,
    },
}

/// Why a trip specification cannot be run: each is a fault in the input, not in the run.
#[derive(Clone, Copy, Debug, PartialEq, Eq, Structural)]
pub enum ScheduleError {
    /// The trip needs a pedestrian and none was given.
    MissingPedestrian,
    /// The trip needs a vehicle and none was given.
    MissingCar,
    /// A car would start closer to the start of its lane than its own length.
    TooCloseToLaneStart,
    /// A car would start at or past the end of its lane.
    PastLaneEnd,
    /// The parked car is already claimed by another trip.
    CarAlreadyClaimed(CarID),
    /// A walk would start where it ends.
    WalkToSelf,
    /// No lane that bikes can use is near the start.
    NoBikeRack,
    /// No sidewalk is near where the bike would stop.
    NoSidewalkNearGoal,
    /// The trip cannot start from this kind of place.
    BadStart,
    /// The walk cannot end at this kind of place.
    BadGoal,
}

/// A trip that passed the checks, with what the checks found out about it.
#[derive(Clone, Copy, Debug, PartialEq, Eq, Structural)]
pub struct PendingTrip {
    pub start_time: Time,
    pub ped: Option<PedestrianID>,
    pub car: Option<CarID>,
    pub spec: TripSpec,
    /// For a trip using a parked car: the car found at the spot, if any.
    pub parked: Option<ParkedCar>,
    /// For a bike trip: the rack where the bike is taken out.
    pub rack: Option<SidewalkSpot>,
}

/// A walk can start from a building, a border, or anywhere along a sidewalk.
pub open spec fn valid_start(s: SidewalkSpot) -> bool {
    s.connection is Building || s.connection is SuddenlyAppear || s.connection is Border
}

/// A trip on foot can end at a building or a border.
pub open spec fn valid_walk_goal(s: SidewalkSpot) -> bool {
    s.connection is Building || s.connection is Border
}

pub open spec fn needs_ped(spec: TripSpec) -> bool {
    match spec {
        TripSpec::CarAppearing { goal, .. } => goal is Building,
        _ => true,
    }
}

pub open spec fn needs_car(spec: TripSpec) -> bool {
    spec is CarAppearing || spec is UsingBike
}

/// The checks that need nothing but the specification itself, in the order they are made.
pub open spec fn spec_error(ped: Option<PedestrianID>, car: Option<CarID>, spec: TripSpec) -> Option<ScheduleError> {
    if needs_ped(spec) && ped is None {
        Some(ScheduleError::MissingPedestrian)
    } else if needs_car(spec) && car is None {
        Some(ScheduleError::MissingCar)
    } else {
        match spec {
            TripSpec::CarAppearing { start_pos, vehicle_spec, .. } => if start_pos.dist_along
                < vehicle_spec.length {
                Some(ScheduleError::TooCloseToLaneStart)
            } else {
                None
            },
            TripSpec::UsingParkedCar { start, .. } => if start.connection is Building {
                None
            } else {
                Some(ScheduleError::BadStart)
            },
            TripSpec::MaybeUsingParkedCar { .. } => None,
            TripSpec::JustWalking { start, goal, .. } => if !valid_start(start) {
                Some(ScheduleError::BadStart)
            } else if !valid_walk_goal(goal) {
                Some(ScheduleError::BadGoal)
            } else if start == goal {
                Some(ScheduleError::WalkToSelf)
            } else {
                None
            },
            TripSpec::UsingBike { start, .. } => if !valid_start(start) {
                Some(ScheduleError::BadStart)
            } else {
                None
            },
            TripSpec::UsingTransit { start, goal, .. } => if !valid_start(start) {
                Some(ScheduleError::BadStart)
            } else if !valid_walk_goal(goal) {
                Some(ScheduleError::BadGoal)
            } else {
                None
            },
        }
    }
}

/// Makes the checks that need nothing but the specification itself.
pub fn check_spec(ped: Option<PedestrianID>, car: Option<CarID>, spec: &TripSpec) -> (r: Option<ScheduleError>)
    ensures
        r == spec_error(ped, car, *spec),
{
    let needs_ped = match spec {
        TripSpec::CarAppearing { goal, .. } => match goal {
            TripEndpoint::Building(_) => true,
            _ => false,
        },
        _ => true,
    };
    if needs_ped && ped.is_none() {
        return Some(ScheduleError::MissingPedestrian);
    }
    let needs_car = match spec {
        TripSpec::CarAppearing { .. } => true,
        TripSpec::UsingBike { .. } => true,
        _ => false,
    };
    if needs_car && car.is_none() {
        return Some(ScheduleError::MissingCar);
    }
    match *spec {
        TripSpec::CarAppearing { start_pos, vehicle_spec, .. } => {
            if start_pos.dist_along < vehicle_spec.length {
                Some(ScheduleError::TooCloseToLaneStart)
            } else {
                None
            }
        },
        TripSpec::UsingParkedCar { start, .. } => match start.connection {
            SidewalkPOI::Building(_) => None,
            _ => Some(ScheduleError::BadStart),
        },
        TripSpec::MaybeUsingParkedCar { .. } => None,
        TripSpec::JustWalking { start, goal, .. } => {
            if !is_valid_start(&start) {
                Some(ScheduleError::BadStart)
            } else if !is_valid_walk_goal(&goal) {
                Some(ScheduleError::BadGoal)
            } else if start == goal {
                Some(ScheduleError::WalkToSelf)
            } else {
                None
            }
        },
        TripSpec::UsingBike { start, .. } => {
            if !is_valid_start(&start) {
                Some(ScheduleError::BadStart)
            } else {
                None
            }
        },
        TripSpec::UsingTransit { start, goal, .. } => {
            if !is_valid_start(&start) {
                Some(ScheduleError::BadStart)
            } else if !is_valid_walk_goal(&goal) {
                Some(ScheduleError::BadGoal)
            } else {
                None
            }
        },
    }
}

fn is_valid_start(s: &SidewalkSpot) -> (r: bool)
    ensures
        r == valid_start(*s),
{
    match s.connection {
        SidewalkPOI::Building(_) => true,
        SidewalkPOI::SuddenlyAppear => true,
        SidewalkPOI::Border(_) => true,
        _ => false,
    }
}

fn is_valid_walk_goal(s: &SidewalkSpot) -> (r: bool)
    ensures
        r == valid_walk_goal(*s),
{
    match s.connection {
        SidewalkPOI::Building(_) => true,
        SidewalkPOI::Border(_) => true,
        _ => false,
    }
}

/// The fault of a specification, given the length of a car's starting lane, the car parked at
/// a car trip's spot, a bike trip's rack, and whether a sidewalk is near where a bike stops.
pub open spec fn schedule_fault(
    ped: Option<PedestrianID>,
    car: Option<CarID>,
    spec: TripSpec,
    claimed: Set<CarID>,
    lane_len: Distance,
    parked: Option<ParkedCar>,
    rack: Option<SidewalkSpot>,
    near: bool,
) -> Option<ScheduleError> {
    match spec_error(ped, car, spec) {
        Some(e) => Some(e),
        None => match spec {
            TripSpec::CarAppearing { start_pos, .. } => if start_pos.dist_along >= lane_len {
                Some(ScheduleError::PastLaneEnd)
            } else {
                None
            },
            TripSpec::UsingParkedCar { .. } => match parked {
                Some(pc) => if claimed.contains(pc.vehicle.id) {
                    Some(ScheduleError::CarAlreadyClaimed(pc.vehicle.id))
                } else {
                    None
                },
                None => None,
            },
            TripSpec::UsingBike { goal, .. } => if !(rack is Some && rack->Some_0.connection is BikeRack) {
                Some(ScheduleError::NoBikeRack)
            } else if goal is Building && !near {
                Some(ScheduleError::NoSidewalkNearGoal)
            } else {
                None
            },
            _ => None,
        },
    }
}

/// A checked trip: its specification passed, and a bike trip knows its rack.
pub open spec fn pending_ok(p: PendingTrip) -> bool {
    &&& spec_error(p.ped, p.car, p.spec) is None
    &&& p.spec is UsingBike ==> match p.rack {
        Some(r) => r.connection is BikeRack,
        None => false,
    }
}

pub struct TripSpawner {
    /// The parked cars that scheduled trips will use, each once.
    parked_cars_claimed: Vec<CarID>,
    trips: Vec<PendingTrip>,
}

/// What scheduling a trip did, given what the checks found: a fault leaves the spawner as it
/// was; otherwise the trip is kept, with the parked car it claimed or the rack it uses.
pub open spec fn scheduled(
    before: TripSpawner,
    after: TripSpawner,
    r: Result<(), ScheduleError>,
    start_time: Time,
    ped: Option<PedestrianID>,
    car: Option<CarID>,
    spec: TripSpec,
    lane_len: Distance,
    parked: Option<ParkedCar>,
    rack: Option<SidewalkSpot>,
    near: bool,
) -> bool {
    match schedule_fault(ped, car, spec, before.claimed(), lane_len, parked, rack, near) {
        Some(e) => r == Err::<(), ScheduleError>(e) && after == before,
        None => {
            &&& r is Ok
            &&& after.pending() == before.pending().push(
                PendingTrip {
                    start_time,
                    ped,
                    car,
                    spec,
                    parked: if spec is UsingParkedCar {
                        parked
                    } else {
                        None
                    },
                    rack: if spec is UsingBike {
                        rack
                    } else {
                        None
                    },
                },
            )
            &&& after.claimed() == if spec is UsingParkedCar && parked is Some {
                before.claimed().insert(parked->Some_0.vehicle.id)
            } else {
                before.claimed()
            }
        },
    }
}

impl TripSpawner {
    pub closed spec fn claimed(&self) -> Set<CarID> {
        self.parked_cars_claimed@.to_set()
    }

    /// The checked trips waiting for `spawn_all`, in the order they came.
    pub closed spec fn pending(&self) -> Seq<PendingTrip> {
        self.trips@
    }

    pub closed spec fn wf(&self) -> bool {
        forall|i: int| 0 <= i < self.trips@.len() ==> pending_ok(#[trigger] self.trips@[i])
    }

    pub fn new() -> (r: TripSpawner)
        ensures
            r.wf(),
            r.claimed().is_empty(),
            r.pending().len() == 0,
    {
        let r = TripSpawner { parked_cars_claimed: Vec::new(), trips: Vec::new() };
        assert(r.claimed() =~= Set::empty());
        r
    }

    /// Claims the car found parked at a spot for one trip; a car can be claimed once.
    pub fn claim_parked_car(&mut self, found: Option<ParkedCar>) -> (r: Result<(), ScheduleError>)
        ensures
            final(self).pending() == old(self).pending(),
            r is Err ==> *final(self) == *old(self),
            found is None ==> r is Ok && final(self).claimed() == old(self).claimed(),
            found is Some && old(self).claimed().contains(found->Some_0.vehicle.id) ==> r == Err::<
                (),
                ScheduleError,
            >(ScheduleError::CarAlreadyClaimed(found->Some_0.vehicle.id)),
            found is Some && !old(self).claimed().contains(found->Some_0.vehicle.id) ==> r is Ok
                && final(self).claimed() == old(self).claimed().insert(found->Some_0.vehicle.id),
    {
        if found.is_none() {
            return Ok(());
        }
        let pc = found.unwrap();
        assert(found == Some(pc));
        let id = pc.vehicle.id;
        let mut i: usize = 0;
        while i < self.parked_cars_claimed.len()
            invariant
                0 <= i <= self.parked_cars_claimed@.len(),
                self.parked_cars_claimed@ == old(self).parked_cars_claimed@,
                self.trips@ == old(self).trips@,
                found == Some(pc),
                id == pc.vehicle.id,
                forall|j: int| 0 <= j < i ==> self.parked_cars_claimed@[j] != id,
            decreases self.parked_cars_claimed@.len() - i,
        {
            if self.parked_cars_claimed[i] == id {
                assert(self.parked_cars_claimed@.to_set().contains(self.parked_cars_claimed@[i as int]));
                assert(old(self).claimed().contains(id));
                assert(self.parked_cars_claimed@ =~= old(self).parked_cars_claimed@);
                assert(self.trips@ =~= old(self).trips@);
                return Err(ScheduleError::CarAlreadyClaimed(id));
            }
            i = i + 1;
        }
        assert(!self.claimed().contains(id)) by {
            if self.parked_cars_claimed@.to_set().contains(id) {
                let j = choose|j: int| 0 <= j < self.parked_cars_claimed@.len() && self.parked_cars_claimed@[j] == id;
            }
        }
        self.parked_cars_claimed.push(id);
        assert(self.claimed() =~= old(self).claimed().insert(id)) by {
            assert forall|c: CarID| self.claimed().contains(c) <==> old(self).claimed().contains(c) || c == id by {
                let s = self.parked_cars_claimed@;
                let o = old(self).parked_cars_claimed@;
                if c == id {
                    assert(s[o.len() as int] == id);
                }
                if o.to_set().contains(c) {
                    let j = choose|j: int| 0 <= j < o.len() && o[j] == c;
                    assert(s[j] == c);
                }
                if s.to_set().contains(c) && c != id {
                    let j = choose|j: int| 0 <= j < s.len() && s[j] == c;
                    assert(o[j] == c);
                }
            }
        }
        Ok(())
    }

    /// Checks a trip specification and keeps it for `spawn_all`. A failed check is a fault in
    /// the input; nothing is kept then. What the map and parking layers answer is weighed as
    /// `schedule_trip_with` says.
    pub fn schedule_trip<N: Network, P: Parking>(
        &mut self,
        start_time: Time,
        ped: Option<PedestrianID>,
        car: Option<CarID>,
        spec: TripSpec,
        map: &N,
        parking: &P,
    ) -> (r: Result<(), ScheduleError>)
        requires
            old(self).wf(),
        ensures
            final(self).wf(),
            spec_error(ped, car, spec) is Some ==> r == Err::<(), ScheduleError>(
                spec_error(ped, car, spec)->Some_0,
            ),
            exists|lane_len: Distance, parked: Option<ParkedCar>, rack: Option<SidewalkSpot>, near: bool|
                scheduled(
                    *old(self),
                    *final(self),
                    r,
                    start_time,
                    ped,
                    car,
                    spec,
                    lane_len,
                    parked,
                    rack,
                    near,
                ),
    {
        let mut lane_len: Distance = 0;
        let mut parked: Option<ParkedCar> = None;
        let mut rack: Option<SidewalkSpot> = None;
        let mut near = true;
        match spec {
            TripSpec::CarAppearing { start_pos, .. } => {
                lane_len = map.lane_length(start_pos.lane);
            },
            TripSpec::UsingParkedCar { spot, .. } => {
                parked = parking.car_at_spot(spot);
            },
            TripSpec::UsingBike { start, goal, .. } => {
                rack = SidewalkSpot::bike_from_bike_rack(start.sidewalk_pos.lane, map);
                if let TripEndpoint::Building(_) = goal {
                    let last_lane = goal.goal_pos_for_vehicle(map).lane;
                    // Where bikes can stop by a sidewalk, a rack there can be found too.
                    near = map.bike_to_sidewalk(last_lane).is_some();
                }
            },
            _ => {},
        }
        self.schedule_trip_with(start_time, ped, car, spec, lane_len, parked, rack, near)
    }

    /// Checks a trip specification given what the map and parking layers say of it: the
    /// length of a car's starting lane, the car parked at a car trip's spot, the rack where a
    /// bike trip takes its bike, and whether a sidewalk is near where a bike stops.
    pub fn schedule_trip_with(
        &mut self,
        start_time: Time,
        ped: Option<PedestrianID>,
        car: Option<CarID>,
        spec: TripSpec,
        lane_len: Distance,
        parked: Option<ParkedCar>,
        rack: Option<SidewalkSpot>,
        near: bool,
    ) -> (r: Result<(), ScheduleError>)
        requires
            old(self).wf(),
        ensures
            final(self).wf(),
            scheduled(
                *old(self),
                *final(self),
                r,
                start_time,
                ped,
                car,
                spec,
                lane_len,
                parked,
                rack,
                near,
            ),
    {
        if let Some(e) = check_spec(ped, car, &spec) {
            return Err(e);
        }
        let mut kept_parked: Option<ParkedCar> = None;
        let mut kept_rack: Option<SidewalkSpot> = None;
        match spec {
            TripSpec::CarAppearing { start_pos, .. } => {
                if start_pos.dist_along >= lane_len {
                    return Err(ScheduleError::PastLaneEnd);
                }
            },
            TripSpec::UsingParkedCar { .. } => {
                match self.claim_parked_car(parked) {
                    Ok(()) => {},
                    Err(e) => {
                        return Err(e);
                    },
                }
                kept_parked = parked;
            },
            TripSpec::UsingBike { goal, .. } => {
                match rack {
                    Some(r) => match r.connection {
                        SidewalkPOI::BikeRack(_) => {
                            kept_rack = rack;
                        },
                        _ => return Err(ScheduleError::NoBikeRack),
                    },
                    None => return Err(ScheduleError::NoBikeRack),
                }
                if let TripEndpoint::Building(_) = goal {
                    if !near {
                        return Err(ScheduleError::NoSidewalkNearGoal);
                    }
                }
            },
            _ => {},
        }
        let p = PendingTrip { start_time, ped, car, spec, parked: kept_parked, rack: kept_rack };
        self.trips.push(p);
        assert(self.pending() == old(self).pending().push(p));
        Ok(())
    }

    /// Whether no checked trip waits to be started.
    pub fn is_done(&self) -> (r: bool)
        ensures
            r == (self.pending().len() == 0),
    {
        self.trips.len() == 0
    }
}

/// Where a trip that leaves from `s` starts.
pub open spec fn start_of(s: SidewalkSpot) -> TripStart {
    match s.connection {
        SidewalkPOI::Building(b) => TripStart::Bldg(b),
        SidewalkPOI::Border(i) => TripStart::Border(i),
        _ => TripStart::Lane(s.sidewalk_pos.lane),
    }
}

fn start_from(s: SidewalkSpot) -> (r: TripStart)
    ensures
        r == start_of(s),
{
    match s.connection {
        SidewalkPOI::Building(b) => TripStart::Bldg(b),
        SidewalkPOI::Border(i) => TripStart::Border(i),
        _ => TripStart::Lane(s.sidewalk_pos.lane),
    }
}

/// Where the trip of a checked specification starts.
pub open spec fn trip_start(spec: TripSpec) -> TripStart {
    match spec {
        TripSpec::CarAppearing { start_pos, .. } => TripStart::Lane(start_pos.lane),
        TripSpec::UsingParkedCar { start, .. } => start_of(start),
        TripSpec::MaybeUsingParkedCar { start_bldg, .. } => TripStart::Bldg(start_bldg),
        TripSpec::JustWalking { start, .. } => start_of(start),
        TripSpec::UsingBike { start, .. } => start_of(start),
        TripSpec::UsingTransit { start, .. } => start_of(start),
    }
}

/// `l` is `ped` walking into the building `b`.
pub open spec fn walk_into(l: TripLeg, ped: PedestrianID, speed: Speed, b: BuildingID) -> bool {
    match l {
        TripLeg::Walk(p, sp, to) => p == ped && sp == speed && to.connection == SidewalkPOI::Building(b),
        _ => false,
    }
}

/// `legs` ends with `drive`, then a walk into the goal where the goal is a building.
pub open spec fn drive_then_arrive(
    legs: Seq<TripLeg>,
    drive: TripLeg,
    goal: TripEndpoint,
    ped: PedestrianID,
    speed: Speed,
) -> bool {
    match goal {
        TripEndpoint::Building(b) => legs.len() >= 2 && legs[legs.len() - 2] == drive && walk_into(
            legs.last(),
            ped,
            speed,
            b,
        ),
        _ => legs.len() >= 1 && legs.last() == drive,
    }
}

/// The legs that a checked trip starts with.
pub open spec fn legs_fit(p: PendingTrip, legs: Seq<TripLeg>) -> bool {
    let ped = p.ped->Some_0;
    match p.spec {
        TripSpec::CarAppearing { goal, vehicle_spec, ped_speed, .. } => {
            let owner = match goal {
                TripEndpoint::Building(b) => Some(b),
                _ => None,
            };
            let drive = TripLeg::Drive(vehicle_spec.spec_make(p.car->Some_0, owner), goal);
            legs.len() == (if goal is Building { 2int } else { 1int }) && drive_then_arrive(
                legs,
                drive,
                goal,
                ped,
                ped_speed,
            )
        },
        TripSpec::UsingParkedCar { spot, goal, ped_speed, start } => match p.parked {
            Some(pc) => legs.len() == (if goal is Building { 3int } else { 2int }) && match legs[0] {
                TripLeg::Walk(w, sp, to) => w == ped && sp == ped_speed && to.connection
                    == SidewalkPOI::ParkingSpot(spot),
                _ => false,
            } && drive_then_arrive(legs, TripLeg::Drive(pc.vehicle, goal), goal, ped, ped_speed),
            None => legs.len() == 1 && match legs[0] {
                TripLeg::Walk(w, sp, to) => w == ped && sp == ped_speed && to.connection
                    == SidewalkPOI::DeferredParkingSpot(start.connection->Building_0, goal),
                _ => false,
            },
        },
        TripSpec::MaybeUsingParkedCar { start_bldg, goal, ped_speed } => legs.len() == 1
            && match legs[0] {
            TripLeg::Walk(w, sp, to) => w == ped && sp == ped_speed && to.connection
                == SidewalkPOI::DeferredParkingSpot(start_bldg, goal),
            _ => false,
        },
        TripSpec::JustWalking { goal, ped_speed, .. } => legs == seq![TripLeg::Walk(ped, ped_speed, goal)],
        TripSpec::UsingBike { goal, vehicle, ped_speed, .. } => legs.len() == (if goal is Building {
            3int
        } else {
            2int
        }) && legs[0] == TripLeg::Walk(ped, ped_speed, p.rack->Some_0) && drive_then_arrive(
            legs,
            TripLeg::Drive(vehicle.spec_make(p.car->Some_0, None), goal),
            goal,
            ped,
            ped_speed,
        ),
        TripSpec::UsingTransit { goal, route, stop1, stop2, ped_speed, .. } => legs.len() == 3
            && match legs[0] {
            TripLeg::Walk(w, sp, to) => w == ped && sp == ped_speed && to.connection
                == SidewalkPOI::BusStop(stop1),
            _ => false,
        } && legs[1] == TripLeg::RideBus(ped, route, stop2) && legs[2] == TripLeg::Walk(
            ped,
            ped_speed,
            goal,
        ),
    }
}

/// A trip of kind `p` whose parked car was missing at scheduling time: it starts aborted.
pub open spec fn missing_car(p: PendingTrip) -> bool {
    p.spec is UsingParkedCar && p.parked is None
}

/// Where the first walk of a checked trip starts and leads, and at what speed.
pub open spec fn first_walk_fits(p: PendingTrip, start: SidewalkSpot, goal: SidewalkSpot, speed: Speed) -> bool {
    match p.spec {
        TripSpec::UsingParkedCar { start: s, spot, ped_speed, .. } => start == s && goal.connection
            == SidewalkPOI::ParkingSpot(spot) && speed == ped_speed,
        TripSpec::MaybeUsingParkedCar { start_bldg, goal: g, ped_speed } => start.connection
            == SidewalkPOI::Building(start_bldg) && goal.connection
            == SidewalkPOI::DeferredParkingSpot(start_bldg, g) && speed == ped_speed,
        TripSpec::JustWalking { start: s, goal: g, ped_speed } => start == s && goal == g && speed
            == ped_speed,
        TripSpec::UsingBike { start: s, ped_speed, .. } => start == s && goal == p.rack->Some_0
            && speed == ped_speed,
        TripSpec::UsingTransit { start: s, stop1, ped_speed, .. } => start == s && goal.connection
            == SidewalkPOI::BusStop(stop1) && speed == ped_speed,
        TripSpec::CarAppearing { .. } => false,
    }
}

/// The first command of a started trip, given the request and path of its first leg: its
/// first agent appears at the trip's start time.
pub open spec fn first_command_fits(
    p: PendingTrip,
    req: PathRequest,
    path: Path,
    cmd: Command,
    t: crate::ids::TripID,
    retry: bool,
) -> bool {
    match p.spec {
        TripSpec::CarAppearing { start_pos, goal, vehicle_spec, .. } => {
            let owner = match goal {
                TripEndpoint::Building(b) => Some(b),
                _ => None,
            };
            cmd == Command::SpawnCar(
                CreateCar {
                    vehicle: vehicle_spec.spec_make(p.car->Some_0, owner),
                    path,
                    goal,
                    req,
                    start_dist: start_pos.dist_along,
                    maybe_parked_car: None,
                    trip: t,
                    retries: 0,
                },
                retry,
            )
        },
        _ => match cmd {
            Command::SpawnPed(c) => c.id == p.ped->Some_0 && c.path == path && c.req == req
                && c.trip == t && first_walk_fits(p, c.start, c.goal, c.speed),
            _ => false,
        },
    }
}

impl VehicleSpec {
    pub open spec fn spec_make(self, id: CarID, owner: Option<BuildingID>) -> crate::model::Vehicle {
        crate::model::Vehicle {
            id,
            owner,
            vehicle_type: self.vehicle_type,
            length: self.length,
            max_speed: self.max_speed,
        }
    }
}

/// What the request for the first path of a checked trip holds.
pub open spec fn request_fits(p: PendingTrip, r: PathRequest) -> bool {
    match p.spec {
        TripSpec::CarAppearing { start_pos, vehicle_spec, .. } => r.start == start_pos
            && r.constraints == match vehicle_spec.vehicle_type {
            crate::ids::VehicleType::Bus => PathConstraints::Bus,
            crate::ids::VehicleType::Bike => PathConstraints::Bike,
            crate::ids::VehicleType::Car => PathConstraints::Car,
        },
        TripSpec::MaybeUsingParkedCar { .. } => r.start == r.end && r.constraints
            == PathConstraints::Pedestrian,
        TripSpec::JustWalking { start, goal, .. } => r == PathRequest {
            start: start.sidewalk_pos,
            end: goal.sidewalk_pos,
            constraints: PathConstraints::Pedestrian,
        },
        TripSpec::UsingBike { start, .. } => r == PathRequest {
            start: start.sidewalk_pos,
            end: p.rack->Some_0.sidewalk_pos,
            constraints: PathConstraints::Pedestrian,
        },
        TripSpec::UsingParkedCar { start, .. } => r.start == start.sidewalk_pos
            && r.constraints == PathConstraints::Pedestrian,
        TripSpec::UsingTransit { start, .. } => r.start == start.sidewalk_pos
            && r.constraints == PathConstraints::Pedestrian,
    }
}

impl PendingTrip {
    /// The request for the path of the trip's first leg.
    pub fn get_pathfinding_request<N: Network, P: Parking>(&self, map: &N, parking: &P) -> (r: PathRequest)
        requires
            pending_ok(*self),
        ensures
            request_fits(*self, r),
    {
        match self.spec {
            TripSpec::CarAppearing { start_pos, vehicle_spec, goal, .. } => {
                let constraints = match vehicle_spec.vehicle_type {
                    crate::ids::VehicleType::Bus => PathConstraints::Bus,
                    crate::ids::VehicleType::Bike => PathConstraints::Bike,
                    crate::ids::VehicleType::Car => PathConstraints::Car,
                };
                PathRequest { start: start_pos, end: goal.goal_pos_for_vehicle(map), constraints }
            },
            TripSpec::UsingParkedCar { start, spot, .. } => PathRequest {
                start: start.sidewalk_pos,
                end: parking.spot_sidewalk_pos(spot),
                constraints: PathConstraints::Pedestrian,
            },
            // Which car will be used is not known yet: a path that goes nowhere cannot fail.
            TripSpec::MaybeUsingParkedCar { start_bldg, .. } => {
                let pos = map.building_sidewalk(start_bldg);
                PathRequest { start: pos, end: pos, constraints: PathConstraints::Pedestrian }
            },
            TripSpec::JustWalking { start, goal, .. } => PathRequest {
                start: start.sidewalk_pos,
                end: goal.sidewalk_pos,
                constraints: PathConstraints::Pedestrian,
            },
            TripSpec::UsingBike { start, .. } => {
                let rack = match self.rack {
                    Some(r) => r,
                    None => {
                        proof {
                            assert(false);
                        }
                        start
                    },
                };
                PathRequest {
                    start: start.sidewalk_pos,
                    end: rack.sidewalk_pos,
                    constraints: PathConstraints::Pedestrian,
                }
            },
            TripSpec::UsingTransit { start, stop1, .. } => PathRequest {
                start: start.sidewalk_pos,
                end: map.bus_stop_sidewalk(stop1),
                constraints: PathConstraints::Pedestrian,
            },
        }
    }
}

/// Trip `p` was registered in `after` with legs that fit it and, unless its parked car was
/// missing and it was aborted, its first command was added to the scheduler's batch.
pub open spec fn started(
    p: PendingTrip,
    req: PathRequest,
    path: Path,
    before: TripManagerView,
    after: TripManagerView,
    sb: Scheduler,
    sa: Scheduler,
    retry: bool,
) -> bool {
    let t = crate::ids::TripID(before.trips.len() as usize);
    exists|legs: Seq<TripLeg>|
        #[trigger] legs_fit(p, legs) && {
            let m = TripManagerView {
                trips: before.trips.push(new_trip_view(t, p.start_time, trip_start(p.spec), legs)),
                unfinished: before.unfinished + 1,
                ..before
            };
            if missing_car(p) {
                after == m.abort(t, AbortReason::ImpossibleParking) && sa == sb
            } else {
                after == m && exists|cmd: Command|
                    #[trigger] first_command_fits(p, req, path, cmd, t, retry) && sa.wf() && sa.queued()
                        == sb.queued() && sa.batched() == sb.batched().push((p.start_time, cmd))
                        && sa.current_time() == sb.current_time()
            }
        }
}

/// Registers a checked trip and queues its first command, given the path found for its first
/// leg; where none was found the trip is dropped and false comes back.
fn start_trip<N: Network, P: Parking>(
    p: PendingTrip,
    req: PathRequest,
    path: Option<Path>,
    map: &N,
    parking: &P,
    trips: &mut TripManager,
    scheduler: &mut Scheduler,
    retry_if_no_room: bool,
) -> (r: bool)
    requires
        pending_ok(p),
        old(trips).wf(),
        old(scheduler).wf(),
        old(trips)@.trips.len() + 1 < usize::MAX,
    ensures
        final(trips).wf(),
        final(scheduler).wf(),
        final(scheduler).queued() == old(scheduler).queued(),
        final(trips)@.active == old(trips)@.active,
        r == path is Some,
        path is None ==> *final(trips) == *old(trips) && *final(scheduler) == *old(scheduler),
        path is Some ==> final(trips)@.trips.len() == old(trips)@.trips.len() + 1
            && final(trips)@.trips.take(old(trips)@.trips.len() as int) == old(trips)@.trips
            && started(
                p,
                req,
                path->Some_0,
                old(trips)@,
                final(trips)@,
                *old(scheduler),
                *final(scheduler),
                retry_if_no_room,
            ),
        path is Some && missing_car(p) ==> final(scheduler).batched() == old(scheduler).batched(),
        path is Some && !missing_car(p) ==> exists|cmd: Command|
            #[trigger] first_command_fits(
                p,
                req,
                path->Some_0,
                cmd,
                crate::ids::TripID(old(trips)@.trips.len() as usize),
                retry_if_no_room,
            ) && final(scheduler).batched() == old(scheduler).batched().push((p.start_time, cmd)),
        final(trips)@.people == old(trips)@.people,
        path is Some && !missing_car(p) ==> final(trips)@.events == old(trips)@.events,
        path is Some && missing_car(p) ==> final(trips)@.events == old(trips)@.events.push(
            Event::TripAborted(
                crate::ids::TripID(old(trips)@.trips.len() as usize),
                TripMode::Drive,
                AbortReason::ImpossibleParking,
            ),
        ),
{
    let ghost found = path;
    let path = match path {
        None => return false,
        Some(path) => path,
    };
    let ped = match p.ped {
        Some(ped) => ped,
        None => PedestrianID(0),
    };
    let ghost before = trips@;
    let ghost t = crate::ids::TripID(before.trips.len() as usize);
    let mut legs: Vec<TripLeg> = Vec::new();
    match p.spec {
        TripSpec::CarAppearing { start_pos, goal, vehicle_spec, ped_speed } => {
            let car = p.car.unwrap();
            let owner = match goal {
                TripEndpoint::Building(b) => Some(b),
                _ => None,
            };
            let vehicle = vehicle_spec.make(car, owner);
            legs.push(TripLeg::Drive(vehicle, goal));
            if let TripEndpoint::Building(b) = goal {
                legs.push(TripLeg::Walk(ped, ped_speed, SidewalkSpot::building(b, map)));
            }
            let ghost lv = legs@;
            assert(legs_fit(p, lv));
            let trip = trips.new_trip(p.start_time, TripStart::Lane(start_pos.lane), legs);
            let create = CreateCar::for_appearing(vehicle, start_pos.dist_along, goal, path, req, trip);
            let ghost cmd = Command::SpawnCar(create, retry_if_no_room);
            scheduler.quick_push(p.start_time, Command::SpawnCar(create, retry_if_no_room));
            assert(first_command_fits(p, req, found->Some_0, cmd, t, retry_if_no_room));
        },
        TripSpec::UsingParkedCar { start, spot, goal, ped_speed } => {
            let b_start = match start.connection {
                SidewalkPOI::Building(b) => b,
                _ => {
                    proof {
                        assert(false);
                    }
                    return false;
                },
            };
            match p.parked {
                Some(pc) => {
                    let parking_spot = SidewalkSpot::parking_spot(spot, parking);
                    legs.push(TripLeg::Walk(ped, ped_speed, parking_spot));
                    legs.push(TripLeg::Drive(pc.vehicle, goal));
                    if let TripEndpoint::Building(b) = goal {
                        legs.push(TripLeg::Walk(ped, ped_speed, SidewalkSpot::building(b, map)));
                    }
                    let ghost lv = legs@;
                    assert(legs_fit(p, lv));
                    let trip = trips.new_trip(p.start_time, TripStart::Bldg(b_start), legs);
                    let create = CreatePedestrian {
                        id: ped,
                        start,
                        speed: ped_speed,
                        goal: parking_spot,
                        path,
                        req,
                        trip,
                    };
                    let ghost cmd = Command::SpawnPed(create);
                    scheduler.quick_push(p.start_time, Command::SpawnPed(create));
                    assert(first_command_fits(p, req, found->Some_0, cmd, t, retry_if_no_room));
                },
                None => {
                    // No car is parked at the spot: the trip cannot begin.
                    let walk_to = SidewalkSpot {
                        connection: SidewalkPOI::DeferredParkingSpot(b_start, goal),
                        sidewalk_pos: start.sidewalk_pos,
                    };
                    legs.push(TripLeg::Walk(ped, ped_speed, walk_to));
                    let ghost lv = legs@;
                    assert(legs_fit(p, lv));
                    assert(mode_of_legs(lv) == TripMode::Drive) by {
                        assert(lv.last() == lv[0]);
                    }
                    let trip = trips.new_trip(p.start_time, TripStart::Bldg(b_start), legs);
                    trips.abort_trip(trip, AbortReason::ImpossibleParking);
                },
            }
        },
        TripSpec::MaybeUsingParkedCar { start_bldg, goal, ped_speed } => {
            let start = SidewalkSpot::building(start_bldg, map);
            let walk_to = SidewalkSpot::deferred_parking_spot(start_bldg, goal, map);
            legs.push(TripLeg::Walk(ped, ped_speed, walk_to));
            let ghost lv = legs@;
            assert(legs_fit(p, lv));
            let trip = trips.new_trip(p.start_time, TripStart::Bldg(start_bldg), legs);
            let create = CreatePedestrian {
                id: ped,
                start,
                speed: ped_speed,
                goal: walk_to,
                path,
                req,
                trip,
            };
            let ghost cmd = Command::SpawnPed(create);
            scheduler.quick_push(p.start_time, Command::SpawnPed(create));
            assert(first_command_fits(p, req, found->Some_0, cmd, t, retry_if_no_room));
        },
        TripSpec::JustWalking { start, goal, ped_speed } => {
            legs.push(TripLeg::Walk(ped, ped_speed, goal));
            let ghost lv = legs@;
            assert(lv =~= seq![TripLeg::Walk(ped, ped_speed, goal)]);
            assert(legs_fit(p, lv));
            let trip = trips.new_trip(p.start_time, start_from(start), legs);
            let create = CreatePedestrian { id: ped, start, speed: ped_speed, goal, path, req, trip };
            let ghost cmd = Command::SpawnPed(create);
            scheduler.quick_push(p.start_time, Command::SpawnPed(create));
            assert(first_command_fits(p, req, found->Some_0, cmd, t, retry_if_no_room));
        },
        TripSpec::UsingBike { start, goal, vehicle, ped_speed } => {
            let car = p.car.unwrap();
            let walk_to = p.rack.unwrap();
            legs.push(TripLeg::Walk(ped, ped_speed, walk_to));
            legs.push(TripLeg::Drive(vehicle.make(car, None), goal));
            if let TripEndpoint::Building(b) = goal {
                legs.push(TripLeg::Walk(ped, ped_speed, SidewalkSpot::building(b, map)));
            }
            let ghost lv = legs@;
            assert(legs_fit(p, lv));
            let trip = trips.new_trip(p.start_time, start_from(start), legs);
            let create = CreatePedestrian {
                id: ped,
                start,
                speed: ped_speed,
                goal: walk_to,
                path,
                req,
                trip,
            };
            let ghost cmd = Command::SpawnPed(create);
            scheduler.quick_push(p.start_time, Command::SpawnPed(create));
            assert(first_command_fits(p, req, found->Some_0, cmd, t, retry_if_no_room));
        },
        TripSpec::UsingTransit { start, goal, route, stop1, stop2, ped_speed } => {
            let walk_to = SidewalkSpot::bus_stop(stop1, map);
            legs.push(TripLeg::Walk(ped, ped_speed, walk_to));
            legs.push(TripLeg::RideBus(ped, route, stop2));
            legs.push(TripLeg::Walk(ped, ped_speed, goal));
            let ghost lv = legs@;
            assert(legs_fit(p, lv));
            let trip = trips.new_trip(p.start_time, start_from(start), legs);
            let create = CreatePedestrian {
                id: ped,
                start,
                speed: ped_speed,
                goal: walk_to,
                path,
                req,
                trip,
            };
            let ghost cmd = Command::SpawnPed(create);
            scheduler.quick_push(p.start_time, Command::SpawnPed(create));
            assert(first_command_fits(p, req, found->Some_0, cmd, t, retry_if_no_room));
        },
    }
    assert(trips@.trips.take(before.trips.len() as int) =~= before.trips);
    true
}

impl TripSpawner {
    /// The request for the first path of each checked trip, in order.
    pub fn path_requests<N: Network, P: Parking>(&self, map: &N, parking: &P) -> (r: Vec<PathRequest>)
        requires
            self.wf(),
        ensures
            r@.len() == self.pending().len(),
            forall|i: int| 0 <= i < r@.len() ==> request_fits(self.pending()[i], #[trigger] r@[i]),
    {
        let mut r: Vec<PathRequest> = Vec::new();
        let mut i: usize = 0;
        while i < self.trips.len()
            invariant
                0 <= i <= self.trips@.len(),
                self.wf(),
                r@.len() == i,
                forall|j: int| 0 <= j < i ==> request_fits(self.pending()[j], #[trigger] r@[j]),
            decreases self.trips@.len() - i,
        {
            assert(pending_ok(self.trips@[i as int]));
            let req = self.trips[i].get_pathfinding_request(map, parking);
            r.push(req);
            i = i + 1;
        }
        r
    }

    /// Starts every checked trip, given the first path found for each, in order, with the
    /// request it answers. The trips are registered and their first commands queued in the
    /// order they were scheduled; those with no path are dropped, and their requests come back.
    pub fn spawn_all_with_paths<N: Network, P: Parking>(
        &mut self,
        found: Vec<(PathRequest, Option<Path>)>,
        map: &N,
        parking: &P,
        trips: &mut TripManager,
        scheduler: &mut Scheduler,
        retry_if_no_room: bool,
    ) -> (unreachable: Vec<PathRequest>)
        requires
            old(self).wf(),
            old(trips).wf(),
            old(scheduler).wf(),
            found@.len() == old(self).pending().len(),
            old(trips)@.trips.len() + old(self).pending().len() + 1 < usize::MAX,
        ensures
            final(self).wf(),
            final(self).pending().len() == 0,
            final(self).claimed() == old(self).claimed(),
            final(trips).wf(),
            final(scheduler).wf(),
            final(scheduler).batched().len() == 0,
            final(scheduler).current_time() == old(scheduler).current_time(),
            final(trips)@.active == old(trips)@.active,
            final(trips)@.trips.take(old(trips)@.trips.len() as int) == old(trips)@.trips,
            unreachable@ == requests_without_path(found@),
            final(trips)@.trips.len() + unreachable@.len() == old(trips)@.trips.len() + old(
                self,
            ).pending().len(),
            spawn_outcome(
                old(self).pending(),
                found@,
                old(trips)@.trips,
                final(trips)@.trips,
                unreachable@,
                old(scheduler).queued(),
                old(scheduler).batched(),
                final(scheduler).queued(),
                old(trips)@.events,
                final(trips)@.events,
                retry_if_no_room,
            ),
            final(trips)@.people == old(trips)@.people,
    {
        let mut batch: Vec<PendingTrip> = Vec::new();
        std::mem::swap(&mut batch, &mut self.trips);
        let ghost b0 = batch@;
        let ghost f0 = found@;
        assert(forall|j: int| 0 <= j < b0.len() ==> pending_ok(#[trigger] b0[j]));
        let mut found = found;
        let ghost t0 = trips@.trips;
        let ghost mut origin: Seq<int> = Seq::empty();
        let ghost mut dropped: Seq<int> = Seq::empty();
        let ghost mut firsts: Seq<(Time, Command)> = Seq::empty();
        let ghost mut slots: Seq<int> = Seq::empty();
        let mut unreachable: Vec<PathRequest> = Vec::new();
        let mut k: usize = 0;
        while found.len() > 0
            invariant
                batch@ == b0,
                0 <= k <= b0.len(),
                k + found@.len() == b0.len(),
                found@ == f0.skip(k as int),
                f0.len() == b0.len(),
                unreachable@ == requests_without_path(f0.take(k as int)),
                forall|j: int| 0 <= j < b0.len() ==> pending_ok(#[trigger] b0[j]),
                trips.wf(),
                scheduler.wf(),
                scheduler.current_time() == old(scheduler).current_time(),
                trips@.active == old(trips)@.active,
                trips@.trips.take(t0.len() as int) == t0,
                trips@.trips.len() >= t0.len(),
                t0 == old(trips)@.trips,
                trips@.trips.len() + unreachable@.len() == t0.len() + k,
                t0.len() + b0.len() + 1 < usize::MAX,
                spawned_in_order(b0, t0, trips@.trips, origin),
                forall|j: int| 0 <= j < origin.len() ==> origin[j] < k,
                forall|j: int| 0 <= j < origin.len() ==> (#[trigger] f0[origin[j]]).1 is Some,
                dropped_fit(f0, dropped, unreachable@),
                forall|j: int| 0 <= j < dropped.len() ==> dropped[j] < k,
                origin.len() + dropped.len() == k,
                firsts_fit(b0, f0, origin, t0.len() as int, firsts, slots, retry_if_no_room),
                scheduler.queued() == old(scheduler).queued(),
                scheduler.batched() == old(scheduler).batched() + firsts,
                trips@.people == old(trips)@.people,
                trips@.events == old(trips)@.events + abort_events(b0, origin, t0.len() as int),
            decreases found@.len(),
        {
            let (req, path) = found.remove(0);
            assert(f0.take(k as int + 1).drop_last() == f0.take(k as int));
            assert(f0.take(k as int + 1).last() == (req, path));
            let p = batch[k];
            let ghost before = trips@.trips;
            let ghost trips_before = trips@;
            let ghost fpath = path;
            let ghost batched_before = scheduler.batched();
            let started = start_trip(p, req, path, map, parking, trips, scheduler, retry_if_no_room);
            if !started {
                proof {
                    assert(f0[k as int] == (req, fpath));
                    lemma_dropped_added(f0, dropped, unreachable@, k as int);
                    dropped = dropped.push(k as int);
                }
                unreachable.push(req);
            } else {
                proof {
                    assert(f0[k as int] == (req, fpath));
                    assert(before.len() == t0.len() + origin.len());
                    assert(origin.push(k as int).drop_last() == origin);
                    assert(trips@.events =~= old(trips)@.events + abort_events(b0, origin.push(k as int), t0.len() as int));
                    if missing_car(p) {
                        lemma_first_missing(b0, f0, origin, t0.len() as int, firsts, slots, retry_if_no_room, k as int);
                    } else {
                        let cmd = choose|cmd: Command|
                            #[trigger] first_command_fits(
                                p,
                                req,
                                fpath->Some_0,
                                cmd,
                                crate::ids::TripID(before.len() as usize),
                                retry_if_no_room,
                            ) && scheduler.batched() == batched_before.push((p.start_time, cmd));
                        lemma_first_added(b0, f0, origin, t0.len() as int, firsts, slots, retry_if_no_room, k as int, cmd);
                        assert(scheduler.batched() =~= old(scheduler).batched() + firsts.push((p.start_time, cmd)));
                        firsts = firsts.push((p.start_time, cmd));
                        slots = slots.push(origin.len() as int);
                    }
                }
                proof {
                    let t = crate::ids::TripID(before.len() as usize);
                    let legs = choose|legs: Seq<TripLeg>|
                        #[trigger] legs_fit(p, legs) && {
                            let m = TripManagerView {
                                trips: before.push(new_trip_view(t, p.start_time, trip_start(p.spec), legs)),
                                unfinished: trips_before.unfinished + 1,
                                ..trips_before
                            };
                            if missing_car(p) {
                                trips@ == m.abort(t, AbortReason::ImpossibleParking)
                            } else {
                                trips@ == m
                            }
                        };
                    let tv = trips@.trips[before.len() as int];
                    assert(before.len() == t0.len() + origin.len());
                    assert(trip_from(p, tv, t));
                    let o2 = origin.push(k as int);
                    assert forall|j: int| 0 <= j < o2.len() implies 0 <= #[trigger] o2[j] < b0.len()
                        && trip_from(b0[o2[j]], trips@.trips[t0.len() + j], crate::ids::TripID((t0.len() + j) as usize)) by {
                        if j < origin.len() {
                            assert(trips@.trips.take(before.len() as int)[t0.len() + j] == before[t0.len() + j]);
                        }
                    }
                    assert(f0[k as int] == (req, path));
                    origin = o2;
                }
            }
            assert(trips@.trips.take(t0.len() as int) =~= t0) by {
                if started {
                    assert forall|j: int| 0 <= j < t0.len() implies trips@.trips[j] == t0[j] by {
                        assert(trips@.trips.take(before.len() as int)[j] == trips@.trips[j]);
                        assert(before.take(t0.len() as int)[j] == before[j]);
                    }
                }
            }
            k = k + 1;
            assert(found@ =~= f0.skip(k as int));
        }
        assert(f0.take(k as int) == f0);
        scheduler.finalize_batch();
        assert(spawned_in_order(b0, t0, trips@.trips, origin) && dropped_fit(f0, dropped, unreachable@)
            && firsts_fit(b0, f0, origin, t0.len() as int, firsts, slots, retry_if_no_room)
            && scheduler.queued() == queue_insert_all(old(scheduler).queued(), old(scheduler).batched() + firsts)
            && trips@.events == old(trips)@.events + abort_events(b0, origin, t0.len() as int));
        unreachable
    }

    /// Starts every checked trip. The first path of each is found before any trip is
    /// registered; then as `spawn_all_with_paths`.
    pub fn spawn_all<N: Network, P: Parking>(
        &mut self,
        map: &N,
        parking: &P,
        trips: &mut TripManager,
        scheduler: &mut Scheduler,
        retry_if_no_room: bool,
    ) -> (unreachable: Vec<PathRequest>)
        requires
            old(self).wf(),
            old(trips).wf(),
            old(scheduler).wf(),
            old(trips)@.trips.len() + old(self).pending().len() + 1 < usize::MAX,
        ensures
            final(self).wf(),
            final(self).pending().len() == 0,
            final(self).claimed() == old(self).claimed(),
            final(trips).wf(),
            final(scheduler).wf(),
            final(scheduler).batched().len() == 0,
            final(scheduler).current_time() == old(scheduler).current_time(),
            final(trips)@.active == old(trips)@.active,
            final(trips)@.trips.take(old(trips)@.trips.len() as int) == old(trips)@.trips,
            final(trips)@.trips.len() + unreachable@.len() == old(trips)@.trips.len() + old(
                self,
            ).pending().len(),
            exists|found: Seq<(PathRequest, Option<Path>)>|
                {
                    &&& found.len() == old(self).pending().len()
                    &&& forall|i: int|
                        0 <= i < found.len() ==> request_fits(old(self).pending()[i], #[trigger] found[i].0)
                    &&& unreachable@ == requests_without_path(found)
                    &&& spawn_outcome(
                        old(self).pending(),
                        found,
                        old(trips)@.trips,
                        final(trips)@.trips,
                        unreachable@,
                        old(scheduler).queued(),
                        old(scheduler).batched(),
                        final(scheduler).queued(),
                        old(trips)@.events,
                        final(trips)@.events,
                        retry_if_no_room,
                    )
                },
            final(trips)@.people == old(trips)@.people,
    {
        let requests = self.path_requests(map, parking);
        let mut found: Vec<(PathRequest, Option<Path>)> = Vec::new();
        let mut i: usize = 0;
        while i < requests.len()
            invariant
                0 <= i <= requests@.len(),
                found@.len() == i,
                forall|j: int| 0 <= j < i ==> (#[trigger] found@[j]).0 == requests@[j],
            decreases requests@.len() - i,
        {
            let req = requests[i];
            found.push((req, map.pathfind(&req)));
            i = i + 1;
        }
        self.spawn_all_with_paths(found, map, parking, trips, scheduler, retry_if_no_room)
    }
}

/// The requests among `found` that got no path, in order.
pub open spec fn requests_without_path(found: Seq<(PathRequest, Option<Path>)>) -> Seq<PathRequest>
    decreases found.len(),
{
    if found.len() == 0 {
        Seq::empty()
    } else if found.last().1 is None {
        requests_without_path(found.drop_last()).push(found.last().0)
    } else {
        requests_without_path(found.drop_last())
    }
}

/// The trip as `spawn_all` registers it for the checked trip `p`.
pub open spec fn trip_from(p: PendingTrip, t: TripView, id: crate::ids::TripID) -> bool {
    &&& t.id == id
    &&& t.spawned_at == p.start_time
    &&& t.start == trip_start(p.spec)
    &&& legs_fit(p, t.legs)
    &&& t.mode == mode_of_legs(t.legs)
    &&& t.finished_at is None
    &&& t.aborted == missing_car(p)
    &&& !t.bus
    &&& !t.started
    &&& t.person is None
}

/// The trips added after `before` came, in order, from the checked trips at the increasing
/// positions `origin` of `pending`.
pub open spec fn spawned_in_order(
    pending: Seq<PendingTrip>,
    before: Seq<TripView>,
    after: Seq<TripView>,
    origin: Seq<int>,
) -> bool {
    &&& after.len() == before.len() + origin.len()
    &&& forall|j: int, l: int| 0 <= j < l < origin.len() ==> origin[j] < origin[l]
    &&& forall|j: int|
        0 <= j < origin.len() ==> 0 <= #[trigger] origin[j] < pending.len() && trip_from(
            pending[origin[j]],
            after[before.len() + j],
            crate::ids::TripID((before.len() + j) as usize),
        )
}

/// `firsts` are the first commands of the started trips, in order, each for the trip at
/// position `slots[i]` among those started after `base` trips; only the trips aborted for a
/// missing parked car have none.
pub open spec fn firsts_fit(
    pending: Seq<PendingTrip>,
    found: Seq<(PathRequest, Option<Path>)>,
    origin: Seq<int>,
    base: int,
    firsts: Seq<(Time, Command)>,
    slots: Seq<int>,
    retry: bool,
) -> bool {
    &&& slots.len() == firsts.len()
    &&& forall|i: int, l: int| 0 <= i < l < slots.len() ==> slots[i] < slots[l]
    &&& forall|i: int|
        0 <= i < slots.len() ==> 0 <= #[trigger] slots[i] < origin.len() && {
            let k = origin[slots[i]];
            &&& firsts[i].0 == pending[k].start_time
            &&& first_command_fits(
                pending[k],
                found[k].0,
                found[k].1->Some_0,
                firsts[i].1,
                crate::ids::TripID((base + slots[i]) as usize),
                retry,
            )
        }
    &&& forall|j: int|
        0 <= j < origin.len() && !missing_car(pending[#[trigger] origin[j]]) ==> exists|i: int|
            0 <= i < slots.len() && slots[i] == j
}

/// `unreachable` holds the requests of the positions `dropped` of `found`, in order, each of
/// which found no path.
pub open spec fn dropped_fit(
    found: Seq<(PathRequest, Option<Path>)>,
    dropped: Seq<int>,
    unreachable: Seq<PathRequest>,
) -> bool {
    &&& dropped.len() == unreachable.len()
    &&& forall|j: int, l: int| 0 <= j < l < dropped.len() ==> dropped[j] < dropped[l]
    &&& forall|j: int|
        0 <= j < dropped.len() ==> 0 <= #[trigger] dropped[j] < found.len() && found[dropped[j]].1 is None
            && unreachable[j] == found[dropped[j]].0
}

/// The events of the trips started from the positions `origin` of `pending`, numbered from
/// `base`: each whose parked car was missing was aborted at once.
pub open spec fn abort_events(pending: Seq<PendingTrip>, origin: Seq<int>, base: int) -> Seq<Event>
    decreases origin.len(),
{
    if origin.len() == 0 {
        Seq::empty()
    } else {
        let j = origin.len() - 1;
        abort_events(pending, origin.drop_last(), base) + if missing_car(pending[origin[j]]) {
            seq![
                Event::TripAborted(
                    crate::ids::TripID((base + j) as usize),
                    TripMode::Drive,
                    AbortReason::ImpossibleParking,
                ),
            ]
        } else {
            Seq::empty()
        }
    }
}

/// What starting the checked trips `pending`, with the first paths `found`, did: the trips with
/// a path were registered in order, those without were dropped with their requests returned,
/// the first commands were queued as if pushed one after the other after the batch, and the
/// trips aborted for a missing parked car were logged.
pub open spec fn spawn_outcome(
    pending: Seq<PendingTrip>,
    found: Seq<(PathRequest, Option<Path>)>,
    trips_before: Seq<TripView>,
    trips_after: Seq<TripView>,
    unreachable: Seq<PathRequest>,
    queued_before: Seq<(Time, Command)>,
    batched_before: Seq<(Time, Command)>,
    queued_after: Seq<(Time, Command)>,
    events_before: Seq<Event>,
    events_after: Seq<Event>,
    retry: bool,
) -> bool {
    exists|origin: Seq<int>, dropped: Seq<int>, firsts: Seq<(Time, Command)>, slots: Seq<int>|
        {
            &&& events_after == events_before + abort_events(pending, origin, trips_before.len() as int)
            &&& spawned_in_order(pending, trips_before, trips_after, origin)
            &&& forall|j: int| 0 <= j < origin.len() ==> (#[trigger] found[origin[j]]).1 is Some
            &&& dropped_fit(found, dropped, unreachable)
            &&& origin.len() + dropped.len() == pending.len()
            &&& firsts_fit(pending, found, origin, trips_before.len() as int, firsts, slots, retry)
            &&& queued_after == queue_insert_all(queued_before, batched_before + firsts)
        }
}

proof fn lemma_first_added(
    pending: Seq<PendingTrip>,
    found: Seq<(PathRequest, Option<Path>)>,
    origin: Seq<int>,
    base: int,
    firsts: Seq<(Time, Command)>,
    slots: Seq<int>,
    retry: bool,
    k: int,
    cmd: Command,
)
    requires
        firsts_fit(pending, found, origin, base, firsts, slots, retry),
        0 <= k < pending.len(),
        first_command_fits(
            pending[k],
            found[k].0,
            found[k].1->Some_0,
            cmd,
            crate::ids::TripID((base + origin.len()) as usize),
            retry,
        ),
    ensures
        firsts_fit(
            pending,
            found,
            origin.push(k),
            base,
            firsts.push((pending[k].start_time, cmd)),
            slots.push(origin.len() as int),
            retry,
        ),
{
    let o2 = origin.push(k);
    let f2 = firsts.push((pending[k].start_time, cmd));
    let s2 = slots.push(origin.len() as int);
    assert forall|i: int| 0 <= i < s2.len() implies 0 <= #[trigger] s2[i] < o2.len() && {
        let kk = o2[s2[i]];
        &&& f2[i].0 == pending[kk].start_time
        &&& first_command_fits(
            pending[kk],
            found[kk].0,
            found[kk].1->Some_0,
            f2[i].1,
            crate::ids::TripID((base + s2[i]) as usize),
            retry,
        )
    } by {
        if i < slots.len() {
            assert(s2[i] == slots[i]);
            assert(o2[slots[i]] == origin[slots[i]]);
        }
    }
    assert forall|j: int| 0 <= j < o2.len() && !missing_car(pending[#[trigger] o2[j]]) implies exists|i: int|
        0 <= i < s2.len() && s2[i] == j by {
        if j < origin.len() {
            assert(o2[j] == origin[j]);
            let i = choose|i: int| 0 <= i < slots.len() && slots[i] == j;
            assert(s2[i] == j);
        } else {
            assert(s2[slots.len() as int] == j);
        }
    }
}

proof fn lemma_first_missing(
    pending: Seq<PendingTrip>,
    found: Seq<(PathRequest, Option<Path>)>,
    origin: Seq<int>,
    base: int,
    firsts: Seq<(Time, Command)>,
    slots: Seq<int>,
    retry: bool,
    k: int,
)
    requires
        firsts_fit(pending, found, origin, base, firsts, slots, retry),
        0 <= k < pending.len(),
        missing_car(pending[k]),
    ensures
        firsts_fit(pending, found, origin.push(k), base, firsts, slots, retry),
{
    let o2 = origin.push(k);
    assert forall|i: int| 0 <= i < slots.len() implies 0 <= #[trigger] slots[i] < o2.len() && {
        let kk = o2[slots[i]];
        &&& firsts[i].0 == pending[kk].start_time
        &&& first_command_fits(
            pending[kk],
            found[kk].0,
            found[kk].1->Some_0,
            firsts[i].1,
            crate::ids::TripID((base + slots[i]) as usize),
            retry,
        )
    } by {
        assert(o2[slots[i]] == origin[slots[i]]);
    }
    assert forall|j: int| 0 <= j < o2.len() && !missing_car(pending[#[trigger] o2[j]]) implies exists|i: int|
        0 <= i < slots.len() && slots[i] == j by {
        if j < origin.len() {
            assert(o2[j] == origin[j]);
        }
    }
}

proof fn lemma_dropped_added(
    found: Seq<(PathRequest, Option<Path>)>,
    dropped: Seq<int>,
    unreachable: Seq<PathRequest>,
    k: int,
)
    requires
        dropped_fit(found, dropped, unreachable),
        0 <= k < found.len(),
        found[k].1 is None,
        forall|j: int| 0 <= j < dropped.len() ==> dropped[j] < k,
    ensures
        dropped_fit(found, dropped.push(k), unreachable.push(found[k].0)),
{
    let d2 = dropped.push(k);
    let u2 = unreachable.push(found[k].0);
    assert forall|j: int| 0 <= j < d2.len() implies 0 <= #[trigger] d2[j] < found.len()
        && found[d2[j]].1 is None && u2[j] == found[d2[j]].0 by {
        if j < dropped.len() {
            assert(d2[j] == dropped[j]);
        }
    }
}

/// The runs tile the positions `0..n`: consecutive, none empty, in order.
pub open spec fn runs_tile(runs: Seq<(usize, usize)>, n: nat) -> bool {
    &&& (runs.len() == 0) == (n == 0)
    &&& runs.len() > 0 ==> runs[0].0 == 0 && runs.last().1 == n
    &&& forall|i: int| 0 <= i < runs.len() ==> (#[trigger] runs[i]).0 < runs[i].1
    &&& forall|i: int| 0 <= i < runs.len() - 1 ==> (#[trigger] runs[i]).1 == runs[i + 1].0
    &&& forall|i: int, l: int| 0 <= i < l < runs.len() ==> (#[trigger] runs[i]).1 <= (#[trigger] runs[l]).0
}

/// The consecutive runs of positions `[start, end)` in which `n` path requests are handed out
/// to at most `workers` workers, in order.
pub fn work_runs(n: usize, workers: usize) -> (r: Vec<(usize, usize)>)
    requires
        workers > 0,
    ensures
        runs_tile(r@, n as nat),
{
    // Runs of at most the ceiling of n / workers, so that there are no more than workers.
    let mut size: usize = 1;
    if n > 0 {
        assert((n - 1) as int / workers as int <= (n - 1) as int) by (nonlinear_arith)
            requires
                workers >= 1,
                n >= 1,
        ;
        size = (n - 1) / workers + 1;
    }
    let mut runs: Vec<(usize, usize)> = Vec::new();
    let mut start: usize = 0;
    while start < n
        invariant
            size > 0,
            start <= n,
            (runs@.len() == 0) == (start == 0),
            runs@.len() > 0 ==> runs@[0].0 == 0 && runs@.last().1 == start,
            forall|i: int| 0 <= i < runs@.len() ==> (#[trigger] runs@[i]).0 < runs@[i].1,
            forall|i: int| 0 <= i < runs@.len() - 1 ==> (#[trigger] runs@[i]).1 == runs@[i + 1].0,
            forall|i: int, l: int| 0 <= i < l < runs@.len() ==> (#[trigger] runs@[i]).1 <= (#[trigger] runs@[l]).0,
            forall|i: int| 0 <= i < runs@.len() ==> (#[trigger] runs@[i]).1 <= start,
        decreases n - start,
    {
        let end = if n - start <= size {
            n
        } else {
            start + size
        };
        let ghost old_runs = runs@;
        runs.push((start, end));
        assert forall|i: int| 0 <= i < runs@.len() - 1 implies (#[trigger] runs@[i]).1 == runs@[i + 1].0 by {
            if i < old_runs.len() - 1 {
                assert(runs@[i] == old_runs[i] && runs@[i + 1] == old_runs[i + 1]);
            }
        }
        assert forall|i: int, l: int| 0 <= i < l < runs@.len() implies (#[trigger] runs@[i]).1 <= (#[trigger] runs@[l]).0 by {
            if l < old_runs.len() {
                assert(runs@[i] == old_runs[i] && runs@[l] == old_runs[l]);
            } else {
                assert(runs@[i] == old_runs[i]);
            }
        }
        assert forall|i: int| 0 <= i < runs@.len() implies (#[trigger] runs@[i]).1 <= end by {
            if i < old_runs.len() {
                assert(runs@[i] == old_runs[i]);
            }
        }
        start = end;
    }
    runs
}

/// Joining the answers run by run gives the answers to all the requests, each in its place,
/// however the requests were split into runs: the first paths do not depend on how the search
/// was shared out.
pub proof fn lemma_join_matches(
    reqs: Seq<PathRequest>,
    runs: Seq<(usize, usize)>,
    answers: Seq<Seq<Option<Path>>>,
    f: spec_fn(PathRequest) -> Option<Path>,
)
    requires
        runs_tile(runs, reqs.len()),
        answers.len() == runs.len(),
        forall|j: int|
            0 <= j < runs.len() ==> #[trigger] answers[j] == reqs.subrange(
                runs[j].0 as int,
                runs[j].1 as int,
            ).map_values(f),
    ensures
        answers.flatten() == reqs.map_values(f),
    decreases runs.len(),
{
    if runs.len() == 0 {
        assert(reqs.map_values(f) =~= Seq::<Option<Path>>::empty());
    } else {
        let last = runs.len() - 1;
        let m = runs[last].0 as int;
        let front = runs.drop_last();
        let r2 = reqs.take(m);
        assert(runs_tile(front, r2.len())) by {
            if front.len() > 0 {
                assert(front.last().1 == runs[last].0);
            }
        }
        assert forall|j: int| 0 <= j < front.len() implies #[trigger] answers.drop_last()[j] == r2.subrange(
            front[j].0 as int,
            front[j].1 as int,
        ).map_values(f) by {
            assert(runs[j].1 <= runs[last].0);
            assert(answers.drop_last()[j] == answers[j]);
            assert(r2.subrange(front[j].0 as int, front[j].1 as int) =~= reqs.subrange(
                runs[j].0 as int,
                runs[j].1 as int,
            ));
        }
        lemma_join_matches(r2, front, answers.drop_last(), f);
        answers.drop_last().lemma_flatten_push(answers[last]);
        assert(answers.drop_last().push(answers[last]) =~= answers);
        assert(reqs.map_values(f) =~= r2.map_values(f) + reqs.subrange(m, reqs.len() as int).map_values(f));
    }
}

/// Joins the paths found for consecutive runs of requests, in the order of the runs, so that
/// each answer stands where its request does, whichever worker found it first.
pub fn join_in_order(parts: Vec<Vec<Option<Path>>>) -> (r: Vec<Option<Path>>)
    ensures
        r@ == parts@.map_values(|v: Vec<Option<Path>>| v@).flatten(),
{
    let ghost s = parts@.map_values(|v: Vec<Option<Path>>| v@);
    let n: usize = parts.len();
    let mut parts = parts;
    let mut out: Vec<Option<Path>> = Vec::new();
    let mut k: usize = 0;
    assert(s.take(0) =~= Seq::<Seq<Option<Path>>>::empty());
    while parts.len() > 0
        invariant
            0 <= k <= s.len(),
            s.len() == n,
            k + parts@.len() == n,
            parts@.map_values(|v: Vec<Option<Path>>| v@) == s.skip(k as int),
            out@ == s.take(k as int).flatten(),
        decreases parts@.len(),
    {
        assert(parts@.map_values(|v: Vec<Option<Path>>| v@)[0] == parts@[0]@);
        let ghost before = parts@;
        let mut part = parts.remove(0);
        assert(part@ == s[k as int]);
        proof {
            s.take(k as int).lemma_flatten_push(s[k as int]);
            assert(s.take(k as int + 1) =~= s.take(k as int).push(s[k as int]));
        }
        out.append(&mut part);
        k = k + 1;
        assert forall|i: int| 0 <= i < parts@.len() implies parts@[i]@ == s.skip(k as int)[i] by {
            assert(parts@[i] == before[i + 1]);
            assert(before.map_values(|v: Vec<Option<Path>>| v@)[i + 1] == before[i + 1]@);
        }
        assert(parts@.map_values(|v: Vec<Option<Path>>| v@) =~= s.skip(k as int));
    }
    assert(s.take(k as int) =~= s);
    out
}

/// Where a car can appear near `pos` on a lane of length `len`, so that `schedule_trip`
/// accepts it: far enough in for any car, and short of the lane's very end.
pub open spec fn spawn_pos(pos: Position, len: Distance) -> Option<Position> {
    if len <= MAX_CAR_LENGTH {
        None
    } else if pos.dist_along < MAX_CAR_LENGTH {
        Some(Position { lane: pos.lane, dist_along: MAX_CAR_LENGTH })
    } else if pos.dist_along == len {
        Some(Position { lane: pos.lane, dist_along: (pos.dist_along - EPSILON_DIST) as Distance })
    } else {
        Some(pos)
    }
}

impl TripSpec {
    /// Moves a car's starting point on a lane of length `len` to where it can appear.
    pub fn spawn_car_at_len(pos: Position, len: Distance) -> (r: Option<Position>)
        ensures
            r == spawn_pos(pos, len),
    {
        if len <= MAX_CAR_LENGTH {
            None
        } else if pos.dist_along < MAX_CAR_LENGTH {
            Some(Position::new(pos.lane, MAX_CAR_LENGTH))
        } else if pos.dist_along == len {
            Some(Position::new(pos.lane, pos.dist_along - EPSILON_DIST))
        } else {
            Some(pos)
        }
    }

    /// Moves a car's starting point to where it can appear on its lane, if anywhere.
    pub fn spawn_car_at<N: Network>(pos: Position, map: &N) -> (r: Option<Position>)
        ensures
            exists|len: Distance| r == spawn_pos(pos, len),
    {
        let len = map.lane_length(pos.lane);
        TripSpec::spawn_car_at_len(pos, len)
    }
}

} // verus!
