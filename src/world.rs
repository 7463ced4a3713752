//! What the core asks of the layers around it: the road network, the parking lots and the
//! buses. Nothing is assumed of the answers; the core stays sound whatever they are.
use vstd::prelude::*;
use crate::ids::{
    BuildingID, BusRouteID, BusStopID, Distance, IntersectionID, LaneID, PedestrianID, Time,
};
use crate::model::{LaneType, ParkedCar, ParkingSpot, Path, PathRequest, Position, Vehicle};

verus! {

/// The road network and its pathfinder.
pub trait Network {
    /// A route for the request, or `None` where the two ends are not connected.
    fn pathfind(&self, req: &PathRequest) -> Option<Path>;

    /// Where the building's front path meets its sidewalk.
    fn building_sidewalk(&self, b: BuildingID) -> Position;

    /// The driving lane that serves a building.
    fn driving_lane_near_building(&self, b: BuildingID) -> LaneID;

    fn lane_length(&self, l: LaneID) -> Distance;

    fn lane_type(&self, l: LaneID) -> LaneType;

    /// Where a bus stop stands on its sidewalk.
    fn bus_stop_sidewalk(&self, stop: BusStopID) -> Position;

    /// The lane next to a sidewalk that bikes can use, if there is one.
    fn sidewalk_to_bike(&self, sidewalk: LaneID) -> Option<LaneID>;

    /// The sidewalk next to a lane that bikes use, if there is one.
    fn bike_to_sidewalk(&self, lane: LaneID) -> Option<LaneID>;

    /// For a lane from which no route leads on, the lane to use instead.
    fn parking_blackhole(&self, lane: LaneID) -> Option<LaneID>;

    /// The position on `lane` alongside `pos`.
    fn equiv_pos(&self, pos: Position, lane: LaneID) -> Position;

    /// The lanes of a type that lead into the intersection.
    fn incoming_lanes(&self, i: IntersectionID, lt: LaneType) -> Vec<LaneID>;

    /// The lanes of a type that leave the intersection.
    fn outgoing_lanes(&self, i: IntersectionID, lt: LaneType) -> Vec<LaneID>;

    fn route_name(&self, r: BusRouteID) -> String;
}

/// The state of all parking spots.
pub trait Parking {
    /// The car parked at the spot, if any.
    fn car_at_spot(&self, spot: ParkingSpot) -> Option<ParkedCar>;

    /// Where a pedestrian stands to reach the spot.
    fn spot_sidewalk_pos(&self, spot: ParkingSpot) -> Position;

    /// Where a vehicle leaving the spot joins its driving lane.
    fn spot_driving_pos(&self, spot: ParkingSpot, vehicle: &Vehicle) -> Position;
}

/// The state of the buses.
pub trait Transit {
    /// Registers a pedestrian waiting at `stop` for `route`, to get off at `alight_at`. Returns
    /// true where a bus of the route is at the stop already and the pedestrian boarded it.
    fn ped_waiting_for_bus(
        &mut self,
        now: Time,
        ped: PedestrianID,
        stop: BusStopID,
        route: BusRouteID,
        alight_at: BusStopID,
    ) -> bool;
}

/// The state of the pedestrians on foot.
pub trait Walking {
    /// A pedestrian waiting at a stop got on a bus and no longer walks.
    fn ped_boarded_bus(&mut self, now: Time, ped: PedestrianID);
}

} // verus!
