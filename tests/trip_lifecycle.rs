use sim::events::{AbortReason, Event, TripPhaseType};
use sim::ids::{
    AgentID, BuildingID, BusRouteID, BusStopID, CarID, Distance, IntersectionID, LaneID,
    PedestrianID, Time, TripID, VehicleType,
};
use sim::model::{
    LaneType, ParkedCar, ParkingSpot, Path, PathConstraints, PathRequest, PathStep, Position, SidewalkPOI,
    SidewalkSpot, TripEndpoint, Vehicle, VehicleSpec,
};
use sim::scheduler::{Command, Scheduler};
use sim::spawner::{ScheduleError, TripSpawner, TripSpec};
use sim::trips::{PersonSpec, PersonState, TripManager, TripMode};
use sim::world::{Network, Parking, Transit, Walking};
use std::cell::Cell;

struct TestMap {
    no_paths: bool,
    no_sidewalks: bool,
    calls: Cell<usize>,
}

impl TestMap {
    fn new() -> TestMap {
        TestMap { no_paths: false, no_sidewalks: false, calls: Cell::new(0) }
    }
}

impl Network for TestMap {
    fn pathfind(&self, req: &PathRequest) -> Option<Path> {
        self.calls.set(self.calls.get() + 1);
        if self.no_paths {
            None
        } else {
            Some(Path { steps: vec![PathStep::Lane(req.start.lane), PathStep::Lane(req.end.lane)] })
        }
    }
    fn building_sidewalk(&self, b: BuildingID) -> Position {
        Position { lane: LaneID(1000 + b.0), dist_along: 5000 }
    }
    fn driving_lane_near_building(&self, b: BuildingID) -> LaneID {
        LaneID(2000 + b.0)
    }
    fn lane_length(&self, _l: LaneID) -> Distance {
        100_000
    }
    fn lane_type(&self, l: LaneID) -> LaneType {
        if l.0 >= 1000 { LaneType::Sidewalk } else { LaneType::Driving }
    }
    fn bus_stop_sidewalk(&self, stop: BusStopID) -> Position {
        Position { lane: LaneID(3000 + stop.0), dist_along: 1000 }
    }
    fn sidewalk_to_bike(&self, sidewalk: LaneID) -> Option<LaneID> {
        Some(LaneID(sidewalk.0 - 1000))
    }
    fn bike_to_sidewalk(&self, lane: LaneID) -> Option<LaneID> {
        if self.no_sidewalks { None } else { Some(LaneID(lane.0 + 1000)) }
    }
    fn parking_blackhole(&self, _lane: LaneID) -> Option<LaneID> {
        None
    }
    fn equiv_pos(&self, pos: Position, lane: LaneID) -> Position {
        Position { lane, dist_along: pos.dist_along }
    }
    fn incoming_lanes(&self, i: IntersectionID, _lt: LaneType) -> Vec<LaneID> {
        vec![LaneID(1500 + i.0)]
    }
    fn outgoing_lanes(&self, _i: IntersectionID, _lt: LaneType) -> Vec<LaneID> {
        vec![]
    }
    fn route_name(&self, r: BusRouteID) -> String {
        format!("route {}", r.0)
    }
}

struct TestParking {
    cars: Vec<ParkedCar>,
}

impl Parking for TestParking {
    fn car_at_spot(&self, spot: ParkingSpot) -> Option<ParkedCar> {
        self.cars.iter().find(|c| c.spot == spot).copied()
    }
    fn spot_sidewalk_pos(&self, _spot: ParkingSpot) -> Position {
        Position { lane: LaneID(7), dist_along: 300 }
    }
    fn spot_driving_pos(&self, _spot: ParkingSpot, _vehicle: &Vehicle) -> Position {
        Position { lane: LaneID(8), dist_along: 300 }
    }
}

struct TestWalking {
    boarded: Vec<PedestrianID>,
}

impl Walking for TestWalking {
    fn ped_boarded_bus(&mut self, _now: Time, ped: PedestrianID) {
        self.boarded.push(ped);
    }
}

struct TestTransit {
    bus_here: bool,
}

impl Transit for TestTransit {
    fn ped_waiting_for_bus(
        &mut self,
        _now: Time,
        _ped: PedestrianID,
        _stop: BusStopID,
        _route: BusRouteID,
        _alight_at: BusStopID,
    ) -> bool {
        self.bus_here
    }
}

fn bldg_spot(b: usize) -> SidewalkSpot {
    SidewalkSpot {
        connection: SidewalkPOI::Building(BuildingID(b)),
        sidewalk_pos: Position { lane: LaneID(1000 + b), dist_along: 5000 },
    }
}

fn car_spec() -> VehicleSpec {
    VehicleSpec { vehicle_type: VehicleType::Car, length: 4500, max_speed: None }
}

fn parked_car(id: usize, owner: usize, spot: ParkingSpot) -> ParkedCar {
    ParkedCar {
        vehicle: Vehicle {
            id: CarID(id, VehicleType::Car),
            owner: Some(BuildingID(owner)),
            vehicle_type: VehicleType::Car,
            length: 4500,
            max_speed: None,
        },
        spot,
    }
}

fn spawn_one(
    spec: TripSpec,
    ped: Option<PedestrianID>,
    car: Option<CarID>,
    map: &TestMap,
    parking: &TestParking,
) -> (TripManager, Scheduler) {
    let mut spawner = TripSpawner::new();
    let mut trips = TripManager::new();
    let mut scheduler = Scheduler::new();
    spawner.schedule_trip(0, ped, car, spec, map, parking).unwrap();
    let failed = spawner.spawn_all(map, parking, &mut trips, &mut scheduler, false);
    assert!(failed.is_empty());
    trips.new_person(&PersonSpec { id: sim::ids::PersonID(0), trips: vec![0] });
    (trips, scheduler)
}

#[test]
fn walking_trip_finishes_with_walk_mode() {
    let map = TestMap::new();
    let parking = TestParking { cars: vec![] };
    let ped = PedestrianID(1);
    let spec = TripSpec::JustWalking { start: bldg_spot(1), goal: bldg_spot(2), ped_speed: 1300 };
    let (mut trips, mut scheduler) = spawn_one(spec, Some(ped), None, &map, &parking);
    assert_eq!(trips.num_trips().1, 1);

    let cmds = scheduler.pop_due(0);
    assert_eq!(cmds.len(), 1);
    let trip = match &cmds[0] {
        Command::SpawnPed(c) => {
            assert_eq!(c.id, ped);
            assert_eq!(c.goal, bldg_spot(2));
            c.trip
        }
        _ => panic!("expected a pedestrian"),
    };
    trips.agent_starting_trip_leg(AgentID::Pedestrian(ped), trip);
    trips.ped_reached_building(90_000, ped, BuildingID(2));

    let events = trips.collect_events();
    assert_eq!(
        events,
        vec![
            Event::PedReachedBuilding(ped, BuildingID(2)),
            Event::TripFinished(trip, TripMode::Walk, 90_000),
        ]
    );
    assert!(trips.is_done());
    let (done, unfinished, _, inside, off_map) = trips.num_trips();
    assert_eq!((done, unfinished, inside, off_map), (1, 0, 1, 0));
    assert!(trips.active_agents().is_empty());
}

#[test]
fn parked_car_missing_aborts_as_impossible_parking() {
    let map = TestMap::new();
    let parking = TestParking { cars: vec![] };
    let spec = TripSpec::UsingParkedCar {
        start: bldg_spot(3),
        spot: ParkingSpot::Onstreet(LaneID(9), 2),
        goal: TripEndpoint::Building(BuildingID(4)),
        ped_speed: 1300,
    };
    let mut spawner = TripSpawner::new();
    let mut trips = TripManager::new();
    let mut scheduler = Scheduler::new();
    spawner.schedule_trip(0, Some(PedestrianID(1)), None, spec, &map, &parking).unwrap();
    let before = trips.num_trips().1;
    spawner.spawn_all(&map, &parking, &mut trips, &mut scheduler, false);
    let events = trips.collect_events();
    assert_eq!(events, vec![Event::TripAborted(TripID(0), TripMode::Drive, AbortReason::ImpossibleParking)]);
    // Registered (one more unfinished), then aborted (one fewer): exactly one decrement.
    assert_eq!(before, 0);
    assert_eq!(trips.num_trips().1, 0);
    assert!(scheduler.is_empty());
}

#[test]
fn car_gone_when_walker_arrives_aborts_trip() {
    let map = TestMap::new();
    let spot = ParkingSpot::Onstreet(LaneID(9), 2);
    let parking = TestParking { cars: vec![parked_car(5, 3, spot)] };
    let ped = PedestrianID(1);
    let spec = TripSpec::UsingParkedCar {
        start: bldg_spot(3),
        spot,
        goal: TripEndpoint::Building(BuildingID(4)),
        ped_speed: 1300,
    };
    let (mut trips, mut scheduler) = spawn_one(spec, Some(ped), None, &map, &parking);
    scheduler.pop_due(0);
    trips.agent_starting_trip_leg(AgentID::Pedestrian(ped), TripID(0));
    let empty = TestParking { cars: vec![] };
    let unfinished = trips.num_trips().1;
    trips.ped_reached_parking_spot(1000, ped, spot, &map, &empty, &mut scheduler);
    assert_eq!(trips.num_trips().1, unfinished - 1);
    let events = trips.collect_events();
    assert_eq!(
        events,
        vec![
            Event::PedReachedParkingSpot(ped, spot),
            Event::TripAborted(TripID(0), TripMode::Drive, AbortReason::ImpossibleParking),
        ]
    );
    assert_eq!(trips.agent_to_trip(AgentID::Pedestrian(ped)), None);
}

#[test]
fn second_claim_of_parked_car_fails_before_pathfinding() {
    let map = TestMap::new();
    let spot = ParkingSpot::Offstreet(BuildingID(3), 0);
    let parking = TestParking { cars: vec![parked_car(5, 3, spot)] };
    let spec = TripSpec::UsingParkedCar {
        start: bldg_spot(3),
        spot,
        goal: TripEndpoint::Building(BuildingID(4)),
        ped_speed: 1300,
    };
    let mut spawner = TripSpawner::new();
    assert_eq!(spawner.schedule_trip(0, Some(PedestrianID(1)), None, spec, &map, &parking), Ok(()));
    assert_eq!(
        spawner.schedule_trip(10, Some(PedestrianID(2)), None, spec, &map, &parking),
        Err(ScheduleError::CarAlreadyClaimed(CarID(5, VehicleType::Car)))
    );
    assert_eq!(map.calls.get(), 0);
    assert!(!spawner.is_done());
}

#[test]
fn bus_already_at_stop_means_no_waiting_phase() {
    let map = TestMap::new();
    let parking = TestParking { cars: vec![] };
    let ped = PedestrianID(1);
    let spec = TripSpec::UsingTransit {
        start: bldg_spot(1),
        goal: bldg_spot(2),
        route: BusRouteID(7),
        stop1: BusStopID(3),
        stop2: BusStopID(4),
        ped_speed: 1300,
    };
    let (mut trips, mut scheduler) = spawn_one(spec, Some(ped), None, &map, &parking);
    scheduler.pop_due(0);
    trips.agent_starting_trip_leg(AgentID::Pedestrian(ped), TripID(0));
    let mut transit = TestTransit { bus_here: true };
    let r = trips.ped_reached_bus_stop(500, ped, BusStopID(3), &mut transit);
    assert_eq!(r, None);
    let events = trips.collect_events();
    assert_eq!(
        events,
        vec![
            Event::PedReachedBusStop(ped, BusStopID(3), BusRouteID(7)),
            Event::TripPhaseStarting(TripID(0), TripMode::Transit, None, TripPhaseType::RidingBus(BusRouteID(7))),
        ]
    );
}

#[test]
fn bus_absent_means_waiting_then_boarding() {
    let map = TestMap::new();
    let parking = TestParking { cars: vec![] };
    let ped = PedestrianID(1);
    let spec = TripSpec::UsingTransit {
        start: bldg_spot(1),
        goal: bldg_spot(2),
        route: BusRouteID(7),
        stop1: BusStopID(3),
        stop2: BusStopID(4),
        ped_speed: 1300,
    };
    let (mut trips, mut scheduler) = spawn_one(spec, Some(ped), None, &map, &parking);
    scheduler.pop_due(0);
    trips.agent_starting_trip_leg(AgentID::Pedestrian(ped), TripID(0));
    let mut transit = TestTransit { bus_here: false };
    assert_eq!(trips.ped_reached_bus_stop(500, ped, BusStopID(3), &mut transit), Some(BusRouteID(7)));
    let mut walking = TestWalking { boarded: vec![] };
    assert_eq!(trips.ped_boarded_bus(600, ped, &mut walking), TripID(0));
    assert_eq!(walking.boarded, vec![ped]);
    trips.ped_left_bus(900, ped, &map, &mut scheduler);
    let cmds = scheduler.pop_due(900);
    assert_eq!(cmds.len(), 1);
    match &cmds[0] {
        Command::SpawnPed(c) => {
            assert_eq!(c.start.connection, SidewalkPOI::BusStop(BusStopID(4)));
            assert_eq!(c.goal, bldg_spot(2));
        }
        _ => panic!("expected a pedestrian"),
    }
    trips.agent_starting_trip_leg(AgentID::Pedestrian(ped), TripID(0));
    trips.ped_reached_building(1500, ped, BuildingID(2));
    let events = trips.collect_events();
    assert_eq!(
        events,
        vec![
            Event::PedReachedBusStop(ped, BusStopID(3), BusRouteID(7)),
            Event::TripPhaseStarting(TripID(0), TripMode::Transit, None, TripPhaseType::WaitingForBus(BusRouteID(7))),
            Event::TripPhaseStarting(TripID(0), TripMode::Transit, None, TripPhaseType::RidingBus(BusRouteID(7))),
            Event::PedReachedBuilding(ped, BuildingID(2)),
            Event::TripFinished(TripID(0), TripMode::Transit, 1500),
        ]
    );
}

#[test]
fn car_parked_in_goal_building_finishes_trip() {
    let map = TestMap::new();
    let parking = TestParking { cars: vec![] };
    let ped = PedestrianID(1);
    let car = CarID(5, VehicleType::Car);
    let spec = TripSpec::CarAppearing {
        start_pos: Position { lane: LaneID(1), dist_along: 10_000 },
        goal: TripEndpoint::Building(BuildingID(4)),
        vehicle_spec: car_spec(),
        ped_speed: 1300,
    };
    let (mut trips, mut scheduler) = spawn_one(spec, Some(ped), Some(car), &map, &parking);
    let cmds = scheduler.pop_due(0);
    match &cmds[0] {
        Command::SpawnCar(c, retry) => {
            assert!(!retry);
            assert_eq!(c.vehicle.id, car);
            assert_eq!(c.vehicle.owner, Some(BuildingID(4)));
            assert_eq!(c.start_dist, 10_000);
        }
        _ => panic!("expected a car"),
    }
    trips.agent_starting_trip_leg(AgentID::Car(car), TripID(0));
    trips.car_reached_parking_spot(
        2000,
        car,
        ParkingSpot::Offstreet(BuildingID(4), 1),
        &map,
        &parking,
        &mut scheduler,
    );
    assert!(scheduler.is_empty());
    let events = trips.collect_events();
    assert_eq!(
        events,
        vec![
            Event::CarReachedParkingSpot(car, ParkingSpot::Offstreet(BuildingID(4), 1)),
            Event::TripFinished(TripID(0), TripMode::Drive, 2000),
        ]
    );
    let (_, unfinished, _, inside, _) = trips.num_trips();
    assert_eq!((unfinished, inside), (0, 1));
}

#[test]
fn car_parked_on_street_walks_on() {
    let map = TestMap::new();
    let parking = TestParking { cars: vec![] };
    let ped = PedestrianID(1);
    let car = CarID(5, VehicleType::Car);
    let spec = TripSpec::CarAppearing {
        start_pos: Position { lane: LaneID(1), dist_along: 10_000 },
        goal: TripEndpoint::Building(BuildingID(4)),
        vehicle_spec: car_spec(),
        ped_speed: 1300,
    };
    let (mut trips, mut scheduler) = spawn_one(spec, Some(ped), Some(car), &map, &parking);
    scheduler.pop_due(0);
    trips.agent_starting_trip_leg(AgentID::Car(car), TripID(0));
    let spot = ParkingSpot::Onstreet(LaneID(9), 3);
    trips.car_reached_parking_spot(2000, car, spot, &map, &parking, &mut scheduler);
    let cmds = scheduler.pop_due(2000);
    assert_eq!(cmds.len(), 1);
    match &cmds[0] {
        Command::SpawnPed(c) => {
            assert_eq!(c.id, ped);
            assert_eq!(c.start.connection, SidewalkPOI::ParkingSpot(spot));
            assert_eq!(c.goal.connection, SidewalkPOI::Building(BuildingID(4)));
            assert_eq!(c.req.constraints, PathConstraints::Pedestrian);
        }
        _ => panic!("expected a pedestrian"),
    }
    assert_eq!(trips.num_trips().1, 1);
}

#[test]
fn car_to_border_finishes_off_map() {
    let map = TestMap::new();
    let parking = TestParking { cars: vec![] };
    let car = CarID(6, VehicleType::Car);
    let spec = TripSpec::CarAppearing {
        start_pos: Position { lane: LaneID(1), dist_along: 10_000 },
        goal: TripEndpoint::Lane(LaneID(12)),
        vehicle_spec: car_spec(),
        ped_speed: 1300,
    };
    let (mut trips, mut scheduler) = spawn_one(spec, None, Some(car), &map, &parking);
    scheduler.pop_due(0);
    trips.agent_starting_trip_leg(AgentID::Car(car), TripID(0));
    trips.car_or_bike_reached_border(3000, car, IntersectionID(2));
    let (_, unfinished, _, inside, off_map) = trips.num_trips();
    assert_eq!((unfinished, inside, off_map), (0, 0, 1));
}

#[test]
fn walk_with_no_path_on_later_leg_aborts_and_limbo() {
    let map = TestMap::new();
    let parking = TestParking { cars: vec![] };
    let ped = PedestrianID(1);
    let car = CarID(5, VehicleType::Bike);
    let bike = VehicleSpec { vehicle_type: VehicleType::Bike, length: 1800, max_speed: None };
    let spec = TripSpec::UsingBike {
        start: bldg_spot(1),
        goal: TripEndpoint::Building(BuildingID(4)),
        vehicle: bike,
        ped_speed: 1300,
    };
    let (mut trips, mut scheduler) = spawn_one(spec, Some(ped), Some(car), &map, &parking);
    let cmds = scheduler.pop_due(0);
    let rack = match &cmds[0] {
        Command::SpawnPed(c) => c.goal,
        _ => panic!("expected a pedestrian"),
    };
    trips.agent_starting_trip_leg(AgentID::Pedestrian(ped), TripID(0));
    let blocked = TestMap { no_paths: true, no_sidewalks: false, calls: Cell::new(0) };
    trips.ped_ready_to_bike(100, ped, rack, &blocked, &mut scheduler);
    assert!(scheduler.is_empty());
    assert_eq!(
        trips.collect_events(),
        vec![Event::TripAborted(TripID(0), TripMode::Bike, AbortReason::NoPath)]
    );
    let (done, unfinished, _, inside, off_map) = trips.num_trips();
    assert_eq!((done, unfinished, inside, off_map), (1, 0, 0, 0));
}

#[test]
fn unreachable_trip_is_dropped_with_its_request() {
    let map = TestMap { no_paths: true, no_sidewalks: false, calls: Cell::new(0) };
    let parking = TestParking { cars: vec![] };
    let mut spawner = TripSpawner::new();
    let mut trips = TripManager::new();
    let mut scheduler = Scheduler::new();
    let spec = TripSpec::JustWalking { start: bldg_spot(1), goal: bldg_spot(2), ped_speed: 1300 };
    spawner.schedule_trip(0, Some(PedestrianID(1)), None, spec, &map, &parking).unwrap();
    let failed = spawner.spawn_all(&map, &parking, &mut trips, &mut scheduler, true);
    assert_eq!(
        failed,
        vec![PathRequest {
            start: bldg_spot(1).sidewalk_pos,
            end: bldg_spot(2).sidewalk_pos,
            constraints: PathConstraints::Pedestrian,
        }]
    );
    assert_eq!(trips.num_trips().0 + trips.num_trips().1, 0);
    assert!(spawner.is_done());
    assert!(scheduler.is_empty());
}

#[test]
fn walking_to_the_same_spot_is_refused() {
    let map = TestMap::new();
    let parking = TestParking { cars: vec![] };
    let mut spawner = TripSpawner::new();
    let spec = TripSpec::JustWalking { start: bldg_spot(1), goal: bldg_spot(1), ped_speed: 1300 };
    assert_eq!(
        spawner.schedule_trip(0, Some(PedestrianID(1)), None, spec, &map, &parking),
        Err(ScheduleError::WalkToSelf)
    );
    assert!(spawner.is_done());
}

#[test]
fn car_too_close_to_lane_start_is_refused() {
    let map = TestMap::new();
    let parking = TestParking { cars: vec![] };
    let mut spawner = TripSpawner::new();
    let spec = TripSpec::CarAppearing {
        start_pos: Position { lane: LaneID(1), dist_along: 100 },
        goal: TripEndpoint::Lane(LaneID(2)),
        vehicle_spec: car_spec(),
        ped_speed: 1300,
    };
    assert_eq!(
        spawner.schedule_trip(0, None, Some(CarID(1, VehicleType::Car)), spec, &map, &parking),
        Err(ScheduleError::TooCloseToLaneStart)
    );
    let past_end = TripSpec::CarAppearing {
        start_pos: Position { lane: LaneID(1), dist_along: 100_000 },
        goal: TripEndpoint::Lane(LaneID(2)),
        vehicle_spec: car_spec(),
        ped_speed: 1300,
    };
    assert_eq!(
        spawner.schedule_trip(0, None, Some(CarID(1, VehicleType::Car)), past_end, &map, &parking),
        Err(ScheduleError::PastLaneEnd)
    );
    assert_eq!(
        spawner.schedule_trip(0, None, None, past_end, &map, &parking),
        Err(ScheduleError::MissingCar)
    );
}

#[test]
fn counters_add_up_after_mixed_outcomes() {
    let map = TestMap::new();
    let parking = TestParking { cars: vec![] };
    let mut spawner = TripSpawner::new();
    let mut trips = TripManager::new();
    let mut scheduler = Scheduler::new();
    for i in 0..3usize {
        let spec = TripSpec::JustWalking { start: bldg_spot(i), goal: bldg_spot(i + 10), ped_speed: 1300 };
        spawner.schedule_trip(i as u64, Some(PedestrianID(i)), None, spec, &map, &parking).unwrap();
    }
    spawner.spawn_all(&map, &parking, &mut trips, &mut scheduler, false);
    for i in 0..3usize {
        trips.new_person(&PersonSpec { id: sim::ids::PersonID(i), trips: vec![i] });
    }
    assert!(trips.check_trips_have_people());
    trips.agent_starting_trip_leg(AgentID::Pedestrian(PedestrianID(0)), TripID(0));
    trips.ped_reached_building(50, PedestrianID(0), BuildingID(10));
    trips.abort_trip_failed_start(TripID(1));
    let (done, unfinished, _, _, _) = trips.num_trips();
    assert_eq!(done + unfinished, 3);
    assert_eq!(unfinished, 1);
    assert!(!trips.is_done());
}

#[test]
fn border_and_rack_spots() {
    let map = TestMap::new();
    let start = SidewalkSpot::start_at_border(IntersectionID(4), &map).unwrap();
    assert_eq!(start.connection, SidewalkPOI::Border(IntersectionID(4)));
    assert_eq!(start.sidewalk_pos, Position { lane: LaneID(1504), dist_along: 100_000 });
    let end = SidewalkSpot::end_at_border(IntersectionID(4), &map).unwrap();
    assert_eq!(end.sidewalk_pos, Position { lane: LaneID(1504), dist_along: 100_000 });
    let rack = SidewalkSpot::bike_from_bike_rack(LaneID(1001), &map).unwrap();
    assert_eq!(rack.connection, SidewalkPOI::BikeRack(Position { lane: LaneID(1), dist_along: 50_000 }));
    assert_eq!(rack.sidewalk_pos, Position { lane: LaneID(1001), dist_along: 50_000 });
    assert_eq!(SidewalkSpot::bike_rack(LaneID(5), &map), None);
    assert_eq!(SidewalkSpot::suddenly_appear(LaneID(1001), 200_000, &map), None);
    assert_eq!(
        SidewalkSpot::suddenly_appear(LaneID(1001), 20, &map).map(|s| s.connection),
        Some(SidewalkPOI::SuddenlyAppear)
    );
    assert_eq!(
        TripEndpoint::end_at_intersection(IntersectionID(2), vec![LaneType::Driving], &map),
        Some(TripEndpoint::Border(IntersectionID(2), LaneID(1502)))
    );
    assert_eq!(TripEndpoint::end_at_intersection(IntersectionID(2), vec![], &map), None);
    assert_eq!(TripPhaseType::WaitingForBus(BusRouteID(3)).describe(&map), "waiting for bus route 3");
    assert_eq!(TripPhaseType::Finished.describe(&map), "trip finished");
}

#[test]
fn walk_from_border_starts_at_border() {
    let map = TestMap::new();
    let parking = TestParking { cars: vec![] };
    let ped = PedestrianID(1);
    let start = SidewalkSpot::start_at_border(IntersectionID(4), &map).unwrap();
    let spec = TripSpec::JustWalking { start, goal: bldg_spot(2), ped_speed: 1300 };
    let (trips, _) = spawn_one(spec, Some(ped), None, &map, &parking);
    assert_eq!(trips.trip_endpoints(TripID(0)).0, sim::trips::TripStart::Border(IntersectionID(4)));
    let (_, _, _, inside, off_map) = trips.num_trips();
    assert_eq!((inside, off_map), (0, 1));
}

#[test]
fn legs_only_shrink_along_a_transit_trip() {
    let map = TestMap::new();
    let parking = TestParking { cars: vec![] };
    let ped = PedestrianID(1);
    let spec = TripSpec::UsingTransit {
        start: bldg_spot(1),
        goal: bldg_spot(2),
        route: BusRouteID(7),
        stop1: BusStopID(3),
        stop2: BusStopID(4),
        ped_speed: 1300,
    };
    let (mut trips, mut scheduler) = spawn_one(spec, Some(ped), None, &map, &parking);
    let t = TripID(0);
    let mut lens = vec![trips.legs_left(t)];
    scheduler.pop_due(0);
    trips.agent_starting_trip_leg(AgentID::Pedestrian(ped), t);
    let mut transit = TestTransit { bus_here: false };
    trips.ped_reached_bus_stop(10, ped, BusStopID(3), &mut transit);
    lens.push(trips.legs_left(t));
    trips.ped_boarded_bus(15, ped, &mut TestWalking { boarded: vec![] });
    lens.push(trips.legs_left(t));
    trips.ped_left_bus(20, ped, &map, &mut scheduler);
    lens.push(trips.legs_left(t));
    scheduler.pop_due(20);
    trips.agent_starting_trip_leg(AgentID::Pedestrian(ped), t);
    trips.ped_reached_building(30, ped, BuildingID(2));
    lens.push(trips.legs_left(t));
    assert_eq!(lens, vec![3, 3, 2, 1, 0]);
}

#[test]
fn finished_or_aborted_trips_have_no_live_agent() {
    let map = TestMap::new();
    let parking = TestParking { cars: vec![] };
    let car = CarID(6, VehicleType::Car);
    let spec = TripSpec::CarAppearing {
        start_pos: Position { lane: LaneID(1), dist_along: 10_000 },
        goal: TripEndpoint::Building(BuildingID(3)),
        vehicle_spec: car_spec(),
        ped_speed: 1300,
    };
    let (mut trips, mut scheduler) = spawn_one(spec, Some(PedestrianID(1)), Some(car), &map, &parking);
    scheduler.pop_due(0);
    trips.agent_starting_trip_leg(AgentID::Car(car), TripID(0));
    assert_eq!(trips.active_agents(), vec![AgentID::Car(car)]);
    assert!(trips.debug_trip(AgentID::Car(car)).is_some());
    trips.abort_trip_impossible_parking(car);
    assert!(trips.active_agents().is_empty());
    assert!(trips.get_active_trips().is_empty());
    assert_eq!(trips.agent_to_trip(AgentID::Car(car)), None);
    assert_eq!(trips.debug_trip(AgentID::Car(car)), None);
    assert!(matches!(trips.trip_to_agent(TripID(0)), sim::trips::TripResult::TripDone));
    let (done, unfinished, _, _, _) = trips.num_trips();
    assert_eq!((done, unfinished), (1, 0));
    assert_eq!(
        trips.collect_events(),
        vec![Event::TripAborted(TripID(0), TripMode::Drive, AbortReason::ImpossibleParking)]
    );
}

#[test]
fn same_demand_gives_same_events() {
    fn run() -> Vec<Event> {
        let map = TestMap::new();
        let parking = TestParking { cars: vec![] };
        let mut spawner = TripSpawner::new();
        let mut trips = TripManager::new();
        let mut scheduler = Scheduler::new();
        for i in 0..4usize {
            let spec = TripSpec::JustWalking { start: bldg_spot(i), goal: bldg_spot(i + 10), ped_speed: 1300 };
            spawner.schedule_trip(5, Some(PedestrianID(i)), None, spec, &map, &parking).unwrap();
        }
        spawner.spawn_all(&map, &parking, &mut trips, &mut scheduler, false);
        for cmd in scheduler.pop_due(5) {
            if let Command::SpawnPed(c) = cmd {
                trips.agent_starting_trip_leg(AgentID::Pedestrian(c.id), c.trip);
                if let SidewalkPOI::Building(b) = c.goal.connection {
                    trips.ped_reached_building(100 + c.trip.0 as u64, c.id, b);
                }
            }
        }
        trips.collect_events()
    }
    let a = run();
    assert_eq!(a.len(), 8);
    assert_eq!(a[1], Event::TripFinished(TripID(0), TripMode::Walk, 95));
    assert_eq!(a, run());
}

#[test]
fn each_input_fault_is_reported() {
    let map = TestMap::new();
    let parking = TestParking { cars: vec![] };
    let mut spawner = TripSpawner::new();
    let walk = TripSpec::JustWalking { start: bldg_spot(1), goal: bldg_spot(2), ped_speed: 1300 };
    assert_eq!(spawner.schedule_trip(0, None, None, walk, &map, &parking), Err(ScheduleError::MissingPedestrian));
    let rack_start = SidewalkSpot {
        connection: SidewalkPOI::BikeRack(Position { lane: LaneID(1), dist_along: 0 }),
        sidewalk_pos: Position { lane: LaneID(1001), dist_along: 0 },
    };
    let bad_start = TripSpec::JustWalking { start: rack_start, goal: bldg_spot(2), ped_speed: 1300 };
    assert_eq!(spawner.schedule_trip(0, Some(PedestrianID(1)), None, bad_start, &map, &parking), Err(ScheduleError::BadStart));
    let bad_goal = TripSpec::UsingTransit {
        start: bldg_spot(1),
        goal: rack_start,
        route: BusRouteID(1),
        stop1: BusStopID(1),
        stop2: BusStopID(2),
        ped_speed: 1300,
    };
    assert_eq!(spawner.schedule_trip(0, Some(PedestrianID(1)), None, bad_goal, &map, &parking), Err(ScheduleError::BadGoal));
    let bike = VehicleSpec { vehicle_type: VehicleType::Bike, length: 1800, max_speed: None };
    // Lane 5 is no sidewalk, so no rack is found beside it.
    let no_rack = TripSpec::UsingBike {
        start: SidewalkSpot { connection: SidewalkPOI::SuddenlyAppear, sidewalk_pos: Position { lane: LaneID(5), dist_along: 0 } },
        goal: TripEndpoint::Lane(LaneID(9)),
        vehicle: bike,
        ped_speed: 1300,
    };
    assert_eq!(
        spawner.schedule_trip(0, Some(PedestrianID(1)), Some(CarID(1, VehicleType::Bike)), no_rack, &map, &parking),
        Err(ScheduleError::NoBikeRack)
    );
    assert!(spawner.is_done());
}

#[test]
fn bike_trip_to_building_without_sidewalk_is_refused() {
    let map = TestMap { no_paths: false, no_sidewalks: true, calls: Cell::new(0) };
    let parking = TestParking { cars: vec![] };
    let mut spawner = TripSpawner::new();
    let bike = VehicleSpec { vehicle_type: VehicleType::Bike, length: 1800, max_speed: None };
    let spec = TripSpec::UsingBike {
        start: bldg_spot(1),
        goal: TripEndpoint::Building(BuildingID(4)),
        vehicle: bike,
        ped_speed: 1300,
    };
    assert_eq!(
        spawner.schedule_trip(0, Some(PedestrianID(1)), Some(CarID(1, VehicleType::Bike)), spec, &map, &parking),
        Err(ScheduleError::NoSidewalkNearGoal)
    );
}

#[test]
fn blocked_vehicle_retries_then_gives_up() {
    let map = TestMap::new();
    let parking = TestParking { cars: vec![] };
    let car = CarID(6, VehicleType::Car);
    let spec = TripSpec::CarAppearing {
        start_pos: Position { lane: LaneID(1), dist_along: 10_000 },
        goal: TripEndpoint::Lane(LaneID(12)),
        vehicle_spec: car_spec(),
        ped_speed: 1300,
    };
    let mut spawner = TripSpawner::new();
    let mut trips = TripManager::new();
    let mut scheduler = Scheduler::new();
    spawner.schedule_trip(0, None, Some(car), spec, &map, &parking).unwrap();
    spawner.spawn_all(&map, &parking, &mut trips, &mut scheduler, true);
    let create = match scheduler.pop_due(0).pop() {
        Some(Command::SpawnCar(c, retry)) => {
            assert!(retry);
            c
        }
        _ => panic!("expected a car"),
    };
    trips.car_spawn_blocked(0, create, true, true, &mut scheduler);
    assert!(scheduler.pop_due(999).is_empty());
    let again = match scheduler.pop_due(1000).pop() {
        Some(Command::SpawnCar(c, true)) => c,
        _ => panic!("expected the car again"),
    };
    assert_eq!(again.retries, 1);
    trips.car_spawn_blocked(1000, again, false, true, &mut scheduler);
    assert!(scheduler.is_empty());
    assert_eq!(
        trips.collect_events(),
        vec![Event::TripAborted(TripID(0), TripMode::Drive, AbortReason::FailedStart)]
    );
    assert!(trips.is_done());
}

#[test]
fn deferred_car_found_then_walked_to() {
    let map = TestMap::new();
    let parking = TestParking { cars: vec![] };
    let ped = PedestrianID(1);
    let spec = TripSpec::MaybeUsingParkedCar {
        start_bldg: BuildingID(3),
        goal: TripEndpoint::Building(BuildingID(4)),
        ped_speed: 1300,
    };
    let (mut trips, mut scheduler) = spawn_one(spec, Some(ped), None, &map, &parking);
    assert_eq!(trips.legs_left(TripID(0)), 1);
    scheduler.pop_due(0);
    trips.agent_starting_trip_leg(AgentID::Pedestrian(ped), TripID(0));
    let spot = ParkingSpot::Onstreet(LaneID(9), 1);
    let pc = parked_car(5, 3, spot);
    trips.resolve_deferred_car(10, ped, Some(pc), &map, &parking, &mut scheduler);
    assert_eq!(trips.legs_left(TripID(0)), 3);
    let cmds = scheduler.pop_due(10);
    assert_eq!(cmds.len(), 1);
    match &cmds[0] {
        Command::SpawnPed(c) => {
            assert_eq!(c.start.connection, SidewalkPOI::Building(BuildingID(3)));
            assert_eq!(c.goal.connection, SidewalkPOI::ParkingSpot(spot));
        }
        _ => panic!("expected a pedestrian"),
    }
    assert_eq!(trips.find_trip_using_car(CarID(5, VehicleType::Car), BuildingID(99)), Some((TripID(0), 0)));
}

#[test]
fn deferred_car_not_found_aborts() {
    let map = TestMap::new();
    let parking = TestParking { cars: vec![] };
    let ped = PedestrianID(1);
    let spec = TripSpec::MaybeUsingParkedCar {
        start_bldg: BuildingID(3),
        goal: TripEndpoint::Lane(LaneID(40)),
        ped_speed: 1300,
    };
    let (mut trips, mut scheduler) = spawn_one(spec, Some(ped), None, &map, &parking);
    scheduler.pop_due(0);
    trips.agent_starting_trip_leg(AgentID::Pedestrian(ped), TripID(0));
    trips.resolve_deferred_car(10, ped, None, &map, &parking, &mut scheduler);
    assert!(scheduler.is_empty());
    assert_eq!(
        trips.collect_events(),
        vec![Event::TripAborted(TripID(0), TripMode::Drive, AbortReason::ImpossibleParking)]
    );
    assert!(trips.is_done());
}

#[test]
fn parked_car_departure_for_each_answer() {
    let map = TestMap::new();
    let spot = ParkingSpot::Offstreet(BuildingID(3), 0);
    let pc = parked_car(5, 3, spot);
    let parking = TestParking { cars: vec![pc] };
    let ped = PedestrianID(1);
    let spec = TripSpec::UsingParkedCar {
        start: bldg_spot(3),
        spot,
        goal: TripEndpoint::Lane(LaneID(40)),
        ped_speed: 1300,
    };
    let (mut trips, mut scheduler) = spawn_one(spec, Some(ped), None, &map, &parking);
    scheduler.pop_due(0);
    trips.agent_starting_trip_leg(AgentID::Pedestrian(ped), TripID(0));
    trips.ped_reached_parking_spot(100, ped, spot, &map, &parking, &mut scheduler);
    match scheduler.pop_due(100).pop() {
        Some(Command::SpawnCar(c, true)) => {
            assert_eq!(c.maybe_parked_car, Some(pc));
            // Leaving a building, the car starts its own length further along.
            assert_eq!(c.start_dist, 300 + 4500);
            assert_eq!(c.req.start, Position { lane: LaneID(8), dist_along: 4800 });
            assert_eq!(c.req.constraints, PathConstraints::Car);
        }
        _ => panic!("expected the parked car"),
    }
    assert_eq!(trips.trip_totals(), (0, 1, 0));
}

#[test]
fn another_car_at_the_spot_aborts() {
    let map = TestMap::new();
    let spot = ParkingSpot::Onstreet(LaneID(9), 0);
    let parking = TestParking { cars: vec![parked_car(5, 3, spot)] };
    let ped = PedestrianID(1);
    let spec = TripSpec::UsingParkedCar { start: bldg_spot(3), spot, goal: TripEndpoint::Lane(LaneID(40)), ped_speed: 1300 };
    let (mut trips, mut scheduler) = spawn_one(spec, Some(ped), None, &map, &parking);
    scheduler.pop_due(0);
    trips.agent_starting_trip_leg(AgentID::Pedestrian(ped), TripID(0));
    let other = TestParking { cars: vec![parked_car(6, 3, spot)] };
    trips.ped_reached_parking_spot(100, ped, spot, &map, &other, &mut scheduler);
    assert!(scheduler.is_empty());
    assert_eq!(trips.trip_totals(), (0, 0, 1));
}

#[test]
fn bike_sets_off_along_found_path() {
    let map = TestMap::new();
    let parking = TestParking { cars: vec![] };
    let ped = PedestrianID(1);
    let bike = VehicleSpec { vehicle_type: VehicleType::Bike, length: 1800, max_speed: None };
    let spec = TripSpec::UsingBike { start: bldg_spot(1), goal: TripEndpoint::Lane(LaneID(7)), vehicle: bike, ped_speed: 1300 };
    let (mut trips, mut scheduler) = spawn_one(spec, Some(ped), Some(CarID(5, VehicleType::Bike)), &map, &parking);
    let rack = match scheduler.pop_due(0).pop() {
        Some(Command::SpawnPed(c)) => c.goal,
        _ => panic!("expected a pedestrian"),
    };
    trips.agent_starting_trip_leg(AgentID::Pedestrian(ped), TripID(0));
    trips.ped_ready_to_bike(50, ped, rack, &map, &mut scheduler);
    match scheduler.pop_due(50).pop() {
        Some(Command::SpawnCar(c, true)) => {
            assert_eq!(c.vehicle.id, CarID(5, VehicleType::Bike));
            assert_eq!(c.req.start, Position { lane: LaneID(1), dist_along: 50_000 });
            assert_eq!(c.req.end, Position { lane: LaneID(7), dist_along: 100_000 });
            assert_eq!(c.req.constraints, PathConstraints::Bike);
            assert!(c.maybe_parked_car.is_none());
        }
        _ => panic!("expected the bike"),
    }
}

#[test]
fn boarding_decision_follows_the_bus() {
    let map = TestMap::new();
    let parking = TestParking { cars: vec![] };
    let ped = PedestrianID(1);
    let spec = TripSpec::UsingTransit {
        start: bldg_spot(1),
        goal: bldg_spot(2),
        route: BusRouteID(7),
        stop1: BusStopID(3),
        stop2: BusStopID(4),
        ped_speed: 1300,
    };
    let (mut trips, mut scheduler) = spawn_one(spec, Some(ped), None, &map, &parking);
    scheduler.pop_due(0);
    trips.agent_starting_trip_leg(AgentID::Pedestrian(ped), TripID(0));
    assert_eq!(trips.wait_or_board(ped, BusStopID(3), true), None);
    assert_eq!(trips.legs_left(TripID(0)), 2);
}

#[test]
fn scheduling_with_known_answers() {
    let mut spawner = TripSpawner::new();
    let spot = ParkingSpot::Onstreet(LaneID(9), 0);
    let spec = TripSpec::UsingParkedCar { start: bldg_spot(3), spot, goal: TripEndpoint::Lane(LaneID(40)), ped_speed: 1300 };
    let pc = parked_car(5, 3, spot);
    assert_eq!(spawner.schedule_trip_with(0, Some(PedestrianID(1)), None, spec, 0, Some(pc), None, true), Ok(()));
    assert_eq!(
        spawner.schedule_trip_with(0, Some(PedestrianID(2)), None, spec, 0, Some(pc), None, true),
        Err(ScheduleError::CarAlreadyClaimed(pc.vehicle.id))
    );
    let car = TripSpec::CarAppearing {
        start_pos: Position { lane: LaneID(1), dist_along: 10_000 },
        goal: TripEndpoint::Lane(LaneID(2)),
        vehicle_spec: car_spec(),
        ped_speed: 1300,
    };
    assert_eq!(
        spawner.schedule_trip_with(0, None, Some(CarID(1, VehicleType::Car)), car, 10_000, None, None, true),
        Err(ScheduleError::PastLaneEnd)
    );
    assert_eq!(spawner.schedule_trip_with(0, None, Some(CarID(1, VehicleType::Car)), car, 10_001, None, None, true), Ok(()));
}
