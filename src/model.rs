//! Positions, parking spots, vehicles, sidewalk points of interest and path requests.
use vstd::prelude::*;
use crate::ids::{
    BuildingID, BusStopID, CarID, Distance, IntersectionID, LaneID, Speed, TurnID, VehicleType,
};
use crate::world::{Network, Parking};

verus! {

/// A place along a lane.
#[derive(Clone, Copy, Debug, PartialEq, Eq, Structural)]
pub struct Position {
    pub lane: LaneID,
    pub dist_along: Distance,
}

impl Position {
    pub fn new(lane: LaneID, dist_along: Distance) -> (r: Position)
        ensures
            r.lane == lane,
            r.dist_along == dist_along,
    {
        Position { lane, dist_along }
    }
}

#[derive(Clone, Copy, Debug, PartialEq, Eq, Structural)]
pub enum ParkingSpot {
    /// A lane and the index of the spot along it.
    Onstreet(LaneID, usize),
    /// A building and the index of the spot inside it.
    Offstreet(BuildingID, usize),
}

impl ParkingSpot {
    pub fn onstreet(lane: LaneID, idx: usize) -> (r: ParkingSpot)
        ensures
            r == ParkingSpot::Onstreet(lane, idx),
    {
        ParkingSpot::Onstreet(lane, idx)
    }

    pub fn offstreet(bldg: BuildingID, idx: usize) -> (r: ParkingSpot)
        ensures
            r == ParkingSpot::Offstreet(bldg, idx),
    {
        ParkingSpot::Offstreet(bldg, idx)
    }
}

/// Where a trip, or the driving part of it, ends.
#[derive(Clone, Copy, Debug, PartialEq, Eq, Structural)]
pub enum TripEndpoint {
    Building(BuildingID),
    /// A border of the map, reached at the end of the lane leading into it.
    Border(IntersectionID, LaneID),
    /// The end of a lane, for trips made up on the spot.
    Lane(LaneID),
}

impl TripEndpoint {
    /// The end of the first lane of one of the types that leads into the intersection.
    pub fn end_at_intersection<N: Network>(i: IntersectionID, lane_types: Vec<LaneType>, map: &N) -> (r: Option<TripEndpoint>)
        ensures
            match r {
                Some(e) => e is Border && e->Border_0 == i,
                None => true,
            },
    {
        let mut lanes: Vec<Vec<LaneID>> = Vec::new();
        let mut k: usize = 0;
        while k < lane_types.len()
            decreases lane_types@.len() - k,
        {
            lanes.push(map.incoming_lanes(i, lane_types[k]));
            k = k + 1;
        }
        TripEndpoint::first_incoming(i, &lanes)
    }

    /// Border `i`, reached by the first lane of the first non-empty list, the lists being the
    /// lanes of each type, in order, that lead into it.
    pub fn first_incoming(i: IntersectionID, lanes: &Vec<Vec<LaneID>>) -> (r: Option<TripEndpoint>)
        ensures
            r == match first_lane(lanes@.map_values(|v: Vec<LaneID>| v@)) {
                Some(l) => Some(TripEndpoint::Border(i, l)),
                None => None,
            },
    {
        let ghost s = lanes@.map_values(|v: Vec<LaneID>| v@);
        assert(s.skip(0) =~= s);
        let mut k: usize = 0;
        while k < lanes.len()
            invariant
                0 <= k <= lanes@.len(),
                s == lanes@.map_values(|v: Vec<LaneID>| v@),
                first_lane(s) == first_lane(s.skip(k as int)),
            decreases lanes@.len() - k,
        {
            assert(s.skip(k as int)[0] == lanes@[k as int]@);
            if lanes[k].len() > 0 {
                return Some(TripEndpoint::Border(i, lanes[k][0]));
            }
            assert(s.skip(k as int).skip(1) =~= s.skip(k as int + 1));
            k = k + 1;
        }
        None
    }

    /// Where a vehicle heading here stops: the end of the lane, or of the driving lane that
    /// serves the building.
    pub fn goal_pos_for_vehicle<N: Network>(&self, map: &N) -> (r: Position)
        ensures
            match *self {
                TripEndpoint::Lane(l) => r.lane == l,
                TripEndpoint::Border(_, l) => r.lane == l,
                TripEndpoint::Building(_) => true,
            },
    {
        let lane = match *self {
            TripEndpoint::Building(b) => map.driving_lane_near_building(b),
            TripEndpoint::Border(_, l) => l,
            TripEndpoint::Lane(l) => l,
        };
        Position { lane, dist_along: map.lane_length(lane) }
    }
}

#[derive(Clone, Copy, Debug, PartialEq, Eq, Structural)]
pub struct VehicleSpec {
    pub vehicle_type: VehicleType,
    pub length: Distance,
    pub max_speed: Option<Speed>,
}

#[derive(Clone, Copy, Debug, PartialEq, Eq, Structural)]
pub struct Vehicle {
    pub id: CarID,
    pub owner: Option<BuildingID>,
    pub vehicle_type: VehicleType,
    pub length: Distance,
    pub max_speed: Option<Speed>,
}

impl VehicleSpec {
    pub fn make(self, id: CarID, owner: Option<BuildingID>) -> (r: Vehicle)
        ensures
            r.id == id,
            r.owner == owner,
            r.vehicle_type == self.vehicle_type,
            r.length == self.length,
            r.max_speed == self.max_speed,
    {
        Vehicle {
            id,
            owner,
            vehicle_type: self.vehicle_type,
            length: self.length,
            max_speed: self.max_speed,
        }
    }
}

#[derive(Clone, Copy, Debug, PartialEq, Eq, Structural)]
pub struct ParkedCar {
    pub vehicle: Vehicle,
    pub spot: ParkingSpot,
}

/// A point of interest that a sidewalk connects to.
#[derive(Clone, Copy, Debug, PartialEq, Eq, Structural)]
pub enum SidewalkPOI {
    ParkingSpot(ParkingSpot),
    /// A car parked somewhere near this building, not yet chosen, to drive to the endpoint.
    DeferredParkingSpot(BuildingID, TripEndpoint),
    Building(BuildingID),
    BusStop(BusStopID),
    Border(IntersectionID),
    /// The equivalent position on the nearest lane that bikes can use.
    BikeRack(Position),
    SuddenlyAppear,
}

#[derive(Clone, Copy, Debug, PartialEq, Eq, Structural)]
pub struct SidewalkSpot {
    pub connection: SidewalkPOI,
    pub sidewalk_pos: Position,
}

#[derive(Clone, Copy, Debug, PartialEq, Eq, Structural)]
pub enum LaneType {
    Driving,
    Parking,
    Sidewalk,
    Biking,
    Bus,
}

impl SidewalkSpot {
    /// Stands for the spot of a car not chosen yet; the position is the building's, for want
    /// of a better one.
    pub fn deferred_parking_spot<N: Network>(start_bldg: BuildingID, goal: TripEndpoint, map: &N) -> (r: SidewalkSpot)
        ensures
            r.connection == SidewalkPOI::DeferredParkingSpot(start_bldg, goal),
    {
        SidewalkSpot {
            connection: SidewalkPOI::DeferredParkingSpot(start_bldg, goal),
            sidewalk_pos: map.building_sidewalk(start_bldg),
        }
    }

    pub fn parking_spot<P: Parking>(spot: ParkingSpot, parking: &P) -> (r: SidewalkSpot)
        ensures
            r.connection == SidewalkPOI::ParkingSpot(spot),
    {
        SidewalkSpot {
            connection: SidewalkPOI::ParkingSpot(spot),
            sidewalk_pos: parking.spot_sidewalk_pos(spot),
        }
    }

    pub fn building<N: Network>(bldg: BuildingID, map: &N) -> (r: SidewalkSpot)
        ensures
            r.connection == SidewalkPOI::Building(bldg),
    {
        SidewalkSpot { connection: SidewalkPOI::Building(bldg), sidewalk_pos: map.building_sidewalk(bldg) }
    }

    pub fn bus_stop<N: Network>(stop: BusStopID, map: &N) -> (r: SidewalkSpot)
        ensures
            r.connection == SidewalkPOI::BusStop(stop),
    {
        SidewalkSpot { connection: SidewalkPOI::BusStop(stop), sidewalk_pos: map.bus_stop_sidewalk(stop) }
    }

    /// A rack halfway along the sidewalk, where a lane for bikes runs next to it.
    pub fn bike_rack<N: Network>(sidewalk: LaneID, map: &N) -> (r: Option<SidewalkSpot>)
        ensures
            match r {
                Some(s) => s.connection is BikeRack && s.sidewalk_pos.lane == sidewalk,
                None => true,
            },
            exists|lt: LaneType, bike_lane: Option<LaneID>, len: Distance, pos: Position|
                r == rack_spot(sidewalk, lt, bike_lane, len, pos),
    {
        let lt = map.lane_type(sidewalk);
        let bike_lane = if lt == LaneType::Sidewalk {
            map.sidewalk_to_bike(sidewalk)
        } else {
            None
        };
        let len = map.lane_length(sidewalk);
        let pos = match bike_lane {
            Some(l) => map.equiv_pos(Position::new(sidewalk, len / 2), l),
            None => Position::new(sidewalk, len / 2),
        };
        SidewalkSpot::bike_rack_on(sidewalk, lt, bike_lane, len, pos)
    }

    /// The rack halfway along `sidewalk`, of type `lt` and length `len`, beside `bike_lane`,
    /// where `pos` is the place on that lane alongside.
    pub fn bike_rack_on(
        sidewalk: LaneID,
        lt: LaneType,
        bike_lane: Option<LaneID>,
        len: Distance,
        pos: Position,
    ) -> (r: Option<SidewalkSpot>)
        ensures
            r == rack_spot(sidewalk, lt, bike_lane, len, pos),
    {
        if lt != LaneType::Sidewalk || bike_lane.is_none() {
            return None;
        }
        Some(SidewalkSpot { connection: SidewalkPOI::BikeRack(pos), sidewalk_pos: Position::new(sidewalk, len / 2) })
    }

    /// Where to take a bike out near the sidewalk: at a rack beside it, unless bikes starting
    /// there could go nowhere, and then beside the sidewalk of the lane they are sent to.
    pub fn bike_from_bike_rack<N: Network>(sidewalk: LaneID, map: &N) -> (r: Option<SidewalkSpot>)
        ensures
            match r {
                Some(s) => s.connection is BikeRack,
                None => true,
            },
    {
        if map.lane_type(sidewalk) != LaneType::Sidewalk {
            return None;
        }
        let driving_lane = match map.sidewalk_to_bike(sidewalk) {
            Some(l) => l,
            None => return None,
        };
        match map.parking_blackhole(driving_lane) {
            Some(redirect) => match map.bike_to_sidewalk(redirect) {
                Some(new_sidewalk) => SidewalkSpot::bike_rack(new_sidewalk, map),
                None => None,
            },
            None => SidewalkSpot::bike_rack(sidewalk, map),
        }
    }

    /// Where a pedestrian enters the map at a border: the start of a sidewalk leaving it, or
    /// else the end of one leading into it.
    pub fn start_at_border<N: Network>(i: IntersectionID, map: &N) -> (r: Option<SidewalkSpot>)
        ensures
            match r {
                Some(s) => s.connection == SidewalkPOI::Border(i),
                None => true,
            },
    {
        let out = map.outgoing_lanes(i, LaneType::Sidewalk);
        let leaving = if out.len() > 0 {
            Some(out[0])
        } else {
            None
        };
        let inc = map.incoming_lanes(i, LaneType::Sidewalk);
        let entering = if inc.len() > 0 {
            Some((inc[0], map.lane_length(inc[0])))
        } else {
            None
        };
        SidewalkSpot::border_start(i, leaving, entering)
    }

    /// Where a pedestrian enters the map at border `i`, given the first sidewalk leaving it and
    /// the first leading into it, with its length.
    pub fn border_start(i: IntersectionID, leaving: Option<LaneID>, entering: Option<(LaneID, Distance)>) -> (r: Option<SidewalkSpot>)
        ensures
            r == match leaving {
                Some(l) => Some(SidewalkSpot { sidewalk_pos: Position { lane: l, dist_along: 0 }, connection: SidewalkPOI::Border(i) }),
                None => match entering {
                    Some((l, len)) => Some(SidewalkSpot { sidewalk_pos: Position { lane: l, dist_along: len }, connection: SidewalkPOI::Border(i) }),
                    None => None,
                },
            },
    {
        match leaving {
            Some(l) => Some(SidewalkSpot { sidewalk_pos: Position::new(l, 0), connection: SidewalkPOI::Border(i) }),
            None => match entering {
                Some((l, len)) => Some(SidewalkSpot { sidewalk_pos: Position::new(l, len), connection: SidewalkPOI::Border(i) }),
                None => None,
            },
        }
    }

    /// Where a pedestrian leaves the map at a border: the end of a sidewalk leading into it,
    /// or else the start of one leaving it.
    pub fn end_at_border<N: Network>(i: IntersectionID, map: &N) -> (r: Option<SidewalkSpot>)
        ensures
            match r {
                Some(s) => s.connection == SidewalkPOI::Border(i),
                None => true,
            },
    {
        let inc = map.incoming_lanes(i, LaneType::Sidewalk);
        let entering = if inc.len() > 0 {
            Some((inc[0], map.lane_length(inc[0])))
        } else {
            None
        };
        let out = map.outgoing_lanes(i, LaneType::Sidewalk);
        let leaving = if out.len() > 0 {
            Some(out[0])
        } else {
            None
        };
        SidewalkSpot::border_end(i, entering, leaving)
    }

    /// Where a pedestrian leaves the map at border `i`, given the first sidewalk leading into
    /// it, with its length, and the first leaving it.
    pub fn border_end(i: IntersectionID, entering: Option<(LaneID, Distance)>, leaving: Option<LaneID>) -> (r: Option<SidewalkSpot>)
        ensures
            r == match entering {
                Some((l, len)) => Some(SidewalkSpot { sidewalk_pos: Position { lane: l, dist_along: len }, connection: SidewalkPOI::Border(i) }),
                None => match leaving {
                    Some(l) => Some(SidewalkSpot { sidewalk_pos: Position { lane: l, dist_along: 0 }, connection: SidewalkPOI::Border(i) }),
                    None => None,
                },
            },
    {
        match entering {
            Some((l, len)) => Some(SidewalkSpot { sidewalk_pos: Position::new(l, len), connection: SidewalkPOI::Border(i) }),
            None => match leaving {
                Some(l) => Some(SidewalkSpot { sidewalk_pos: Position::new(l, 0), connection: SidewalkPOI::Border(i) }),
                None => None,
            },
        }
    }

    /// A pedestrian appearing out of nowhere on a sidewalk, where the lane is one and is that
    /// long.
    pub fn suddenly_appear<N: Network>(l: LaneID, dist: Distance, map: &N) -> (r: Option<SidewalkSpot>)
        ensures
            exists|lt: LaneType, len: Distance| r == appear_spot(l, dist, lt, len),
    {
        SidewalkSpot::suddenly_appear_on(l, dist, map.lane_type(l), map.lane_length(l))
    }

    /// A pedestrian appearing `dist` along lane `l` of type `lt` and length `len`.
    pub fn suddenly_appear_on(l: LaneID, dist: Distance, lt: LaneType, len: Distance) -> (r: Option<SidewalkSpot>)
        ensures
            r == appear_spot(l, dist, lt, len),
    {
        if lt != LaneType::Sidewalk || dist > len {
            return None;
        }
        Some(SidewalkSpot { sidewalk_pos: Position::new(l, dist), connection: SidewalkPOI::SuddenlyAppear })
    }
}

/// The first lane of the first non-empty list.
pub open spec fn first_lane(lists: Seq<Seq<LaneID>>) -> Option<LaneID>
    decreases lists.len(),
{
    if lists.len() == 0 {
        None
    } else if lists[0].len() > 0 {
        Some(lists[0][0])
    } else {
        first_lane(lists.skip(1))
    }
}

/// A bike rack halfway along a sidewalk, where a lane for bikes runs beside it.
pub open spec fn rack_spot(
    sidewalk: LaneID,
    lt: LaneType,
    bike_lane: Option<LaneID>,
    len: Distance,
    pos: Position,
) -> Option<SidewalkSpot> {
    if lt == LaneType::Sidewalk && bike_lane is Some {
        Some(
            SidewalkSpot {
                connection: SidewalkPOI::BikeRack(pos),
                sidewalk_pos: Position { lane: sidewalk, dist_along: len / 2 },
            },
        )
    } else {
        None
    }
}

/// A pedestrian appearing `dist` along lane `l`, which must be a sidewalk at least that long.
pub open spec fn appear_spot(l: LaneID, dist: Distance, lt: LaneType, len: Distance) -> Option<SidewalkSpot> {
    if lt == LaneType::Sidewalk && dist <= len {
        Some(SidewalkSpot { sidewalk_pos: Position { lane: l, dist_along: dist }, connection: SidewalkPOI::SuddenlyAppear })
    } else {
        None
    }
}

#[derive(Clone, Copy, Debug, PartialEq, Eq, Structural)]
pub enum PathConstraints {
    Pedestrian,
    Car,
    Bike,
    Bus,
}

/// What the network layer is asked to connect.
#[derive(Clone, Copy, Debug, PartialEq, Eq, Structural)]
pub struct PathRequest {
    pub start: Position,
    pub end: Position,
    pub constraints: PathConstraints,
}

#[derive(Clone, Copy, Debug, PartialEq, Eq, Structural)]
pub enum PathStep {
    Lane(LaneID),
    ContraflowLane(LaneID),
    Turn(TurnID),
}

/// A route found by the network layer; the core only hands it on.
#[derive(Clone, Debug, PartialEq, Eq)]
pub struct Path {
    pub steps: Vec<PathStep>,
}

impl Path {
    /// The lane that the path starts on, if it starts on one.
    pub fn first_lane(&self) -> (r: Option<LaneID>)
        ensures
            r == (if self.steps@.len() > 0 {
                match self.steps@[0] {
                    PathStep::Lane(l) => Some(l),
                    PathStep::ContraflowLane(l) => Some(l),
                    PathStep::Turn(_) => None,
                }
            } else {
                None
            }),
    {
        if self.steps.len() == 0 {
            return None;
        }
        match self.steps[0] {
            PathStep::Lane(l) => Some(l),
            PathStep::ContraflowLane(l) => Some(l),
            PathStep::Turn(_) => None,
        }
    }
}

/// A span of time, with its end no earlier than its start.
#[derive(Clone, Copy, Debug, PartialEq, Eq, Structural)]
pub struct TimeInterval {
    pub start: crate::ids::Time,
    pub end: crate::ids::Time,
}

impl TimeInterval {
    pub fn new(start: crate::ids::Time, end: crate::ids::Time) -> (r: TimeInterval)
        requires
            start <= end,
        ensures
            r.start == start,
            r.end == end,
    {
        TimeInterval { start, end }
    }
}

/// A span along a lane; a walking one may run against the lane's direction.
#[derive(Clone, Copy, Debug, PartialEq, Eq, Structural)]
pub struct DistanceInterval {
    pub start: Distance,
    pub end: Distance,
}

impl DistanceInterval {
    pub fn new_driving(start: Distance, end: Distance) -> (r: DistanceInterval)
        requires
            start <= end,
        ensures
            r.start == start,
            r.end == end,
    {
        DistanceInterval { start, end }
    }

    pub fn new_walking(start: Distance, end: Distance) -> (r: DistanceInterval)
        ensures
            r.start == start,
            r.end == end,
    {
        DistanceInterval { start, end }
    }

    /// How far apart the two ends are, whichever way the span runs.
    pub fn length(&self) -> (r: Distance)
        ensures
            r == (if self.end >= self.start {
                self.end - self.start
            } else {
                self.start - self.end
            }),
    {
        if self.end >= self.start {
            self.end - self.start
        } else {
            self.start - self.end
        }
    }
}

} // verus!
