//! The log of milestones that the core records, for analytics and presentation.
use vstd::prelude::*;
use crate::ids::{
    BuildingID, BusRouteID, BusStopID, CarID, Duration, IntersectionID, LaneID, PedestrianID,
    TripID,
};
use crate::model::{ParkingSpot, PathRequest};
use crate::trips::TripMode;
use crate::world::Network;

verus! {

/// Why a trip was given up.
#[derive(Clone, Copy, Debug, PartialEq, Eq, Structural)]
pub enum AbortReason {
    /// The trip never began: its first agent could not be created.
    FailedStart,
    /// A car could not be had from, or taken to, a parking spot.
    ImpossibleParking,
    /// A later leg found no path after earlier legs had run.
    NoPath,
    /// A vehicle found no room to appear, time after time, and gave up.
    NoRoom,
}

#[derive(Clone, Copy, Debug, PartialEq, Eq, Structural)]
pub enum Event {
    CarReachedParkingSpot(CarID, ParkingSpot),
    CarOrBikeReachedBorder(CarID, IntersectionID),
    BusArrivedAtStop(CarID, BusRouteID, BusStopID),
    BusDepartedFromStop(CarID, BusRouteID, BusStopID),
    PedReachedParkingSpot(PedestrianID, ParkingSpot),
    PedReachedBuilding(PedestrianID, BuildingID),
    PedReachedBorder(PedestrianID, IntersectionID),
    PedReachedBusStop(PedestrianID, BusStopID, BusRouteID),
    PedEntersBus(PedestrianID, CarID, BusRouteID),
    PedLeavesBus(PedestrianID, CarID, BusRouteID),
    BikeStoppedAtSidewalk(CarID, LaneID),
    IntersectionDelayMeasured(IntersectionID, Duration),
    TripFinished(TripID, TripMode, Duration),
    TripAborted(TripID, TripMode, AbortReason),
    TripPhaseStarting(TripID, TripMode, Option<PathRequest>, TripPhaseType),
}

#[derive(Clone, Copy, Debug, PartialEq, Eq, Structural)]
pub enum TripPhaseType {
    Driving,
    Walking,
    Biking,
    Parking,
    WaitingForBus(BusRouteID),
    RidingBus(BusRouteID),
    Aborted,
    Finished,
}

impl TripPhaseType {
    /// The phase in words.
    pub fn describe<N: Network>(self, map: &N) -> (r: String)
        ensures
            match self {
                TripPhaseType::Driving => r@ == "driving"@,
                TripPhaseType::Walking => r@ == "walking"@,
                TripPhaseType::Biking => r@ == "biking"@,
                TripPhaseType::Parking => r@ == "parking"@,
                TripPhaseType::WaitingForBus(_) => r@.len() >= "waiting for bus "@.len()
                    && r@.take("waiting for bus "@.len() as int) == "waiting for bus "@,
                TripPhaseType::RidingBus(_) => r@.len() >= "riding bus "@.len()
                    && r@.take("riding bus "@.len() as int) == "riding bus "@,
                TripPhaseType::Aborted => r@ == "trip aborted due to some bug"@,
                TripPhaseType::Finished => r@ == "trip finished"@,
            },
    {
        match self {
            TripPhaseType::Driving => String::from_str("driving"),
            TripPhaseType::Walking => String::from_str("walking"),
            TripPhaseType::Biking => String::from_str("biking"),
            TripPhaseType::Parking => String::from_str("parking"),
            TripPhaseType::WaitingForBus(r) => {
                let name = map.route_name(r);
                let s = String::from_str("waiting for bus ").concat(name.as_str());
                assert(s@.take("waiting for bus "@.len() as int) =~= "waiting for bus "@);
                s
            },
            TripPhaseType::RidingBus(r) => {
                let name = map.route_name(r);
                let s = String::from_str("riding bus ").concat(name.as_str());
                assert(s@.take("riding bus "@.len() as int) =~= "riding bus "@);
                s
            },
            TripPhaseType::Aborted => String::from_str("trip aborted due to some bug"),
            TripPhaseType::Finished => String::from_str("trip finished"),
        }
    }
}

} // verus!
