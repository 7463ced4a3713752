//! Identities of agents, trips, people and the parts of the road network the core refers to.
use vstd::prelude::*;
use crate::text::{decimal, decimal_string};

verus! {

/// A point in simulated time, in milliseconds since the start of the run.
pub type Time = u64;

/// A span of simulated time, in milliseconds.
pub type Duration = u64;

/// A length along a lane, in millimeters.
pub type Distance = u64;

/// A speed, in millimeters per second.
pub type Speed = u64;

pub const BIKE_LENGTH: Distance = 1800;

/// Cars are between these lengths; both are shorter than a parking spot.
pub const MIN_CAR_LENGTH: Distance = 4500;

pub const MAX_CAR_LENGTH: Distance = 6500;

pub const BUS_LENGTH: Distance = 12500;

/// How far apart, front to back, vehicles always stay.
pub const FOLLOWING_DISTANCE: Distance = 1000;

/// The smallest distance told apart from none.
pub const EPSILON_DIST: Distance = 10;

#[derive(Clone, Copy, Debug, PartialEq, Eq, Structural, Hash, PartialOrd, Ord)]
pub enum VehicleType {
    Car,
    Bus,
    Bike,
}

/// The numeric part is unique over all vehicles; the type is carried along for convenience.
#[derive(Clone, Copy, Debug, PartialEq, Eq, Structural, Hash, PartialOrd, Ord)]
pub struct CarID(pub usize, pub VehicleType);

#[derive(Clone, Copy, Debug, PartialEq, Eq, Structural, Hash, PartialOrd, Ord)]
pub struct PedestrianID(pub usize);

#[derive(Clone, Copy, Debug, PartialEq, Eq, Structural, Hash, PartialOrd, Ord)]
pub enum AgentID {
    Car(CarID),
    Pedestrian(PedestrianID),
}

impl AgentID {
    /// The car behind this agent; only defined for cars.
    pub fn as_car(self) -> (r: CarID)
        requires
            self is Car,
        ensures
            self == AgentID::Car(r),
    {
        match self {
            AgentID::Car(id) => id,
            AgentID::Pedestrian(_) => {
                proof {
                    assert(false);
                }
                CarID(0, VehicleType::Car)
            },
        }
    }
}

#[derive(Clone, Copy, Debug, PartialEq, Eq, Structural, Hash, PartialOrd, Ord)]
pub struct TripID(pub usize);

#[derive(Clone, Copy, Debug, PartialEq, Eq, Structural, Hash, PartialOrd, Ord)]
pub struct PersonID(pub usize);

#[derive(Clone, Copy, Debug, PartialEq, Eq, Structural, Hash, PartialOrd, Ord)]
pub struct BuildingID(pub usize);

#[derive(Clone, Copy, Debug, PartialEq, Eq, Structural, Hash, PartialOrd, Ord)]
pub struct LaneID(pub usize);

#[derive(Clone, Copy, Debug, PartialEq, Eq, Structural, Hash, PartialOrd, Ord)]
pub struct IntersectionID(pub usize);

#[derive(Clone, Copy, Debug, PartialEq, Eq, Structural, Hash, PartialOrd, Ord)]
pub struct BusRouteID(pub usize);

#[derive(Clone, Copy, Debug, PartialEq, Eq, Structural, Hash, PartialOrd, Ord)]
pub struct BusStopID(pub usize);

#[derive(Clone, Copy, Debug, PartialEq, Eq, Structural, Hash, PartialOrd, Ord)]
pub struct TurnID(pub usize);

pub open spec fn vehicle_word(t: VehicleType) -> Seq<char> {
    match t {
        VehicleType::Car => "car"@,
        VehicleType::Bus => "bus"@,
        VehicleType::Bike => "bike"@,
    }
}

/// `label(n)`.
pub open spec fn labeled_number(label: Seq<char>, n: nat) -> Seq<char> {
    label + "("@ + decimal(n) + ")"@
}

fn write_labeled_number(label: &str, n: usize) -> (r: String)
    ensures
        r@ == labeled_number(label@, n as nat),
{
    let mut s = String::from_str(label);
    s.append("(");
    s.append(decimal_string(n).as_str());
    s.append(")");
    s
}

impl CarID {
    /// The identity in words, such as `CarID(7 -- bike)`.
    pub fn to_text(&self) -> (r: String)
        ensures
            r@ == "CarID("@ + decimal(self.0 as nat) + " -- "@ + vehicle_word(self.1) + ")"@,
    {
        let mut s = String::from_str("CarID(");
        s.append(decimal_string(self.0).as_str());
        s.append(" -- ");
        match self.1 {
            VehicleType::Car => s.append("car"),
            VehicleType::Bus => s.append("bus"),
            VehicleType::Bike => s.append("bike"),
        }
        s.append(")");
        s
    }
}

impl PedestrianID {
    pub fn to_text(&self) -> (r: String)
        ensures
            r@ == labeled_number("PedestrianID"@, self.0 as nat),
    {
        write_labeled_number("PedestrianID", self.0)
    }
}

impl TripID {
    pub fn to_text(&self) -> (r: String)
        ensures
            r@ == labeled_number("TripID"@, self.0 as nat),
    {
        write_labeled_number("TripID", self.0)
    }
}

impl AgentID {
    /// The identity in words, such as `AgentID(PedestrianID(3))`.
    pub fn to_text(&self) -> (r: String)
        ensures
            r@ == "AgentID("@ + match *self {
                AgentID::Car(c) => "CarID("@ + decimal(c.0 as nat) + " -- "@ + vehicle_word(c.1)
                    + ")"@,
                AgentID::Pedestrian(p) => labeled_number("PedestrianID"@, p.0 as nat),
            } + ")"@,
    {
        let inner = match *self {
            AgentID::Car(c) => c.to_text(),
            AgentID::Pedestrian(p) => p.to_text(),
        };
        let mut s = String::from_str("AgentID(");
        s.append(inner.as_str());
        s.append(")");
        s
    }
}

} // verus!
