use sim::actions::{sort_keys, Key, PerObjectActions};
use sim::text::{decimal_string, text_eq};
use sim::events::{AbortReason, Event};
use sim::ids::{AgentID, BuildingID, CarID, LaneID, PedestrianID, TripID, VehicleType, MAX_CAR_LENGTH};
use sim::model::{
    DistanceInterval, Path, PathStep, Position, SidewalkPOI, SidewalkSpot, TimeInterval,
    TripEndpoint, Vehicle,
};
use sim::scheduler::{Command, CreateCar, Scheduler};
use sim::spawner::TripSpec;
use sim::tally::TripCount;
use sim::trips::{TripEnd, TripLeg, TripManager, TripMode, TripResult, TripStart};

fn car_command(trip: usize) -> Command {
    let v = Vehicle { id: CarID(trip, VehicleType::Car), owner: None, vehicle_type: VehicleType::Car, length: 4500, max_speed: None };
    let pos = Position { lane: LaneID(1), dist_along: 0 };
    let req = sim::model::PathRequest { start: pos, end: pos, constraints: sim::model::PathConstraints::Car };
    Command::SpawnCar(
        CreateCar::for_appearing(v, 0, TripEndpoint::Lane(LaneID(1)), Path { steps: vec![] }, req, TripID(trip)),
        false,
    )
}

fn trip_of(c: &Command) -> usize {
    match c {
        Command::SpawnCar(c, _) => c.trip.0,
        Command::SpawnPed(c) => c.trip.0,
    }
}

#[test]
fn scheduler_orders_by_time_then_insertion() {
    let mut s = Scheduler::new();
    s.push(20, car_command(0));
    s.push(10, car_command(1));
    s.push(20, car_command(2));
    s.push(10, car_command(3));
    let due: Vec<usize> = s.pop_due(15).iter().map(trip_of).collect();
    assert_eq!(due, vec![1, 3]);
    let due: Vec<usize> = s.pop_due(20).iter().map(trip_of).collect();
    assert_eq!(due, vec![0, 2]);
    assert!(s.is_empty());
}

#[test]
fn batch_gives_same_order_as_pushes() {
    let mut a = Scheduler::new();
    let mut b = Scheduler::new();
    for (t, id) in [(5u64, 0usize), (3, 1), (5, 2), (1, 3), (3, 4)] {
        a.push(t, car_command(id));
        b.quick_push(t, car_command(id));
    }
    b.finalize_batch();
    let da: Vec<usize> = a.pop_due(10).iter().map(trip_of).collect();
    let db: Vec<usize> = b.pop_due(10).iter().map(trip_of).collect();
    assert_eq!(da, vec![3, 1, 4, 0, 2]);
    assert_eq!(da, db);
}

#[test]
fn nothing_due_before_its_time() {
    let mut s = Scheduler::new();
    s.push(100, car_command(0));
    assert!(s.pop_due(99).is_empty());
    assert_eq!(s.pop_due(100).len(), 1);
}

#[test]
fn trip_mode_of_agents() {
    assert_eq!(TripMode::all(), vec![TripMode::Walk, TripMode::Bike, TripMode::Transit, TripMode::Drive]);
    assert_eq!(TripMode::from_agent(AgentID::Pedestrian(PedestrianID(3))), TripMode::Walk);
    assert_eq!(TripMode::from_agent(AgentID::Car(CarID(1, VehicleType::Bike))), TripMode::Bike);
    assert_eq!(TripMode::from_agent(AgentID::Car(CarID(1, VehicleType::Bus))), TripMode::Transit);
    assert_eq!(TripMode::from_agent(AgentID::Car(CarID(1, VehicleType::Car))), TripMode::Drive);
    assert_eq!(AgentID::Car(CarID(4, VehicleType::Car)).as_car(), CarID(4, VehicleType::Car));
}

#[test]
fn trip_result_conversions() {
    assert_eq!(TripResult::Found(5).ok(), Some(5));
    assert_eq!(TripResult::<u32>::TripDone.ok(), None);
    assert!(matches!(TripResult::<u32>::TripDone.propagate_error::<bool>(), TripResult::TripDone));
    assert!(matches!(TripResult::<u32>::ModeChange.propagate_error::<bool>(), TripResult::ModeChange));
    assert!(matches!(
        TripResult::<u32>::TripDoesntExist.propagate_error::<bool>(),
        TripResult::TripDoesntExist
    ));
}

fn walk_leg(ped: usize, b: usize) -> TripLeg {
    TripLeg::Walk(
        PedestrianID(ped),
        1300,
        SidewalkSpot { connection: SidewalkPOI::Building(BuildingID(b)), sidewalk_pos: Position { lane: LaneID(b), dist_along: 0 } },
    )
}

#[test]
fn new_trip_derives_mode_and_end() {
    let mut tm = TripManager::new();
    let v = Vehicle { id: CarID(9, VehicleType::Bike), owner: None, vehicle_type: VehicleType::Bike, length: 1800, max_speed: None };
    let t = tm.new_trip(5, TripStart::Bldg(BuildingID(1)), vec![walk_leg(1, 2), TripLeg::Drive(v, TripEndpoint::Building(BuildingID(3))), walk_leg(1, 3)]);
    assert_eq!(t, TripID(0));
    assert_eq!(tm.trip_endpoints(t), (TripStart::Bldg(BuildingID(1)), TripEnd::Bldg(BuildingID(3))));
    assert!(matches!(tm.trip_to_agent(t), TripResult::Found(AgentID::Pedestrian(PedestrianID(1)))));
    assert!(matches!(tm.trip_to_agent(TripID(7)), TripResult::TripDoesntExist));
    assert_eq!(tm.find_trip_using_car(CarID(9, VehicleType::Bike), BuildingID(50)), Some((t, 5)));
    assert_eq!(tm.find_trip_using_car(CarID(8, VehicleType::Car), BuildingID(50)), None);
    let bus = tm.new_trip(0, TripStart::Lane(LaneID(4)), vec![TripLeg::ServeBusRoute(CarID(20, VehicleType::Bus), sim::ids::BusRouteID(1))]);
    assert_eq!(tm.trip_endpoints(bus).1, TripEnd::ServeBusRoute(sim::ids::BusRouteID(1)));
    // The bus trip is not counted among the unfinished ones.
    assert_eq!(tm.num_trips().1, 1);
    tm.agent_starting_trip_leg(AgentID::Car(CarID(20, VehicleType::Bus)), bus);
    assert_eq!(tm.agent_to_trip(AgentID::Car(CarID(20, VehicleType::Bus))), Some(bus));
    assert_eq!(tm.get_active_trips(), vec![bus]);
    let per_mode = tm.num_trips().2;
    assert_eq!(per_mode, vec![(TripMode::Walk, 0), (TripMode::Bike, 0), (TripMode::Transit, 1), (TripMode::Drive, 0)]);
}

#[test]
fn deferred_car_choice_rewrites_legs_once() {
    let mut tm = TripManager::new();
    let deferred = TripLeg::Walk(
        PedestrianID(1),
        1300,
        SidewalkSpot {
            connection: SidewalkPOI::DeferredParkingSpot(BuildingID(1), TripEndpoint::Building(BuildingID(2))),
            sidewalk_pos: Position { lane: LaneID(1), dist_along: 0 },
        },
    );
    let t = tm.new_trip(0, TripStart::Bldg(BuildingID(1)), vec![deferred]);
    assert_eq!(tm.find_trip_using_car(CarID(1, VehicleType::Car), BuildingID(1)), Some((t, 0)));
    let v = Vehicle { id: CarID(9, VehicleType::Car), owner: Some(BuildingID(1)), vehicle_type: VehicleType::Car, length: 4500, max_speed: None };
    tm.dynamically_override_legs(t, vec![walk_leg(1, 5), TripLeg::Drive(v, TripEndpoint::Building(BuildingID(2))), walk_leg(1, 2)]);
    assert_eq!(tm.find_trip_using_car(CarID(9, VehicleType::Car), BuildingID(77)), Some((t, 0)));
    assert_eq!(tm.trip_endpoints(t).1, TripEnd::Bldg(BuildingID(2)));
}

#[test]
fn counts_by_place_and_status() {
    let mut tm = TripManager::new();
    let a = tm.new_trip(10, TripStart::Bldg(BuildingID(1)), vec![walk_leg(1, 2)]);
    let b = tm.new_trip(50, TripStart::Bldg(BuildingID(2)), vec![walk_leg(2, 1)]);
    let c = tm.new_trip(0, TripStart::Bldg(BuildingID(1)), vec![walk_leg(3, 1)]);
    tm.abort_trip_failed_start(c);
    let cnt = tm.count_trips_involving_bldg(BuildingID(1), 20);
    assert_eq!(cnt.from_in_progress, vec![a]);
    assert_eq!(cnt.from_aborted, vec![c]);
    assert_eq!(cnt.to_unstarted, vec![b]);
    assert_eq!(cnt.to_aborted, vec![c]);
    assert!(cnt.from_completed.is_empty() && cnt.to_completed.is_empty());
    assert_eq!(
        cnt.describe(),
        vec![
            "In-progress trips: 1 from here, 0 to here".to_string(),
            "Future trips: 0 from here, 1 to here".to_string(),
            "Aborted trips: 1 from here, 1 to here".to_string(),
        ]
    );
    assert_eq!(tm.collect_events(), vec![Event::TripAborted(c, TripMode::Walk, AbortReason::FailedStart)]);
    assert!(tm.collect_events().is_empty());
}

#[test]
fn describe_of_empty_count_is_empty() {
    let cnt = TripCount {
        from_aborted: vec![],
        from_in_progress: vec![],
        from_completed: vec![TripID(1); 12],
        from_unstarted: vec![],
        to_aborted: vec![],
        to_in_progress: vec![],
        to_completed: vec![],
        to_unstarted: vec![],
    };
    assert_eq!(cnt.describe(), vec!["Finished trips: 12 from here, 0 to here".to_string()]);
    assert_eq!(decimal_string(0), "0");
    assert_eq!(decimal_string(1205), "1205");
}

#[test]
fn car_spawn_positions_are_moved_in_range() {
    let lane = LaneID(3);
    assert_eq!(TripSpec::spawn_car_at_len(Position { lane, dist_along: 10 }, MAX_CAR_LENGTH), None);
    assert_eq!(
        TripSpec::spawn_car_at_len(Position { lane, dist_along: 10 }, 50_000),
        Some(Position { lane, dist_along: MAX_CAR_LENGTH })
    );
    assert_eq!(
        TripSpec::spawn_car_at_len(Position { lane, dist_along: 50_000 }, 50_000),
        Some(Position { lane, dist_along: 49_990 })
    );
    assert_eq!(
        TripSpec::spawn_car_at_len(Position { lane, dist_along: 20_000 }, 50_000),
        Some(Position { lane, dist_along: 20_000 })
    );
}

#[test]
fn intervals() {
    assert_eq!(DistanceInterval::new_walking(30, 10).length(), 20);
    assert_eq!(DistanceInterval::new_driving(10, 30).length(), 20);
    let t = TimeInterval::new(4, 9);
    assert_eq!((t.start, t.end), (4, 9));
    assert_eq!(Path { steps: vec![PathStep::Turn(sim::ids::TurnID(1))] }.first_lane(), None);
    assert_eq!(Path { steps: vec![PathStep::ContraflowLane(LaneID(2))] }.first_lane(), Some(LaneID(2)));
}

#[test]
fn actions_offered_and_chosen() {
    let mut a = PerObjectActions::new();
    assert!(a.action(Key('x'), "delete".to_string(), true));
    assert!(!a.action(Key('c'), "copy".to_string(), false));
    // The info panel's own action is not listed.
    a.action(Key('i'), "show info".to_string(), false);
    let (keys, click) = a.get_active_keys();
    assert_eq!(keys, vec![Key('c'), Key('x')]);
    assert_eq!(click, None);
    a.action_chosen("copy".to_string());
    a.info_panel_open = true;
    assert!(a.action(Key('c'), "copy".to_string(), false));
    a.assert_chosen_used();
    assert!(!a.action(Key('d'), "drop".to_string(), true));
    assert!(a.get_active_keys().0.is_empty());
    assert_eq!(a.consume().len(), 3);
    assert!(a.left_click("open".to_string(), true));
    assert_eq!(a.get_active_keys().1, Some("open".to_string()));
    a.reset();
    assert_eq!(a.get_active_keys().1, None);
}

#[test]
fn keys_sort_and_text_compare() {
    assert_eq!(sort_keys(&vec![Key('b'), Key('a'), Key('b')]), vec![Key('a'), Key('b'), Key('b')]);
    assert!(text_eq("abc", "abc"));
    assert!(!text_eq("abc", "abd"));
    assert!(!text_eq("ab", "abc"));
}

#[test]
fn identities_in_words() {
    assert_eq!(CarID(7, VehicleType::Bike).to_text(), "CarID(7 -- bike)");
    assert_eq!(PedestrianID(42).to_text(), "PedestrianID(42)");
    assert_eq!(TripID(0).to_text(), "TripID(0)");
    assert_eq!(AgentID::Pedestrian(PedestrianID(3)).to_text(), "AgentID(PedestrianID(3))");
    assert_eq!(AgentID::Car(CarID(10, VehicleType::Bus)).to_text(), "AgentID(CarID(10 -- bus))");
    assert_eq!(TripMode::Transit.name(), "transit");
    assert_eq!(TripMode::Walk.name(), "walk");
}

#[test]
fn bus_counted_when_it_starts() {
    let mut tm = TripManager::new();
    let bus = CarID(20, VehicleType::Bus);
    let t = tm.new_trip(0, TripStart::Lane(LaneID(4)), vec![TripLeg::ServeBusRoute(bus, sim::ids::BusRouteID(1))]);
    assert_eq!(tm.trip_totals(), (0, 0, 0));
    assert_eq!(tm.buses_in_service(), 0);
    tm.agent_starting_trip_leg(AgentID::Car(bus), t);
    assert_eq!(tm.buses_in_service(), 1);
    assert_eq!(tm.num_trips().1, 0);
    assert!(tm.is_done());
}

#[test]
fn spots_from_known_lanes() {
    let i = sim::ids::IntersectionID(3);
    let s = SidewalkSpot::border_start(i, None, Some((LaneID(4), 900))).unwrap();
    assert_eq!(s.sidewalk_pos, Position { lane: LaneID(4), dist_along: 900 });
    assert_eq!(SidewalkSpot::border_start(i, Some(LaneID(5)), Some((LaneID(4), 900))).unwrap().sidewalk_pos.lane, LaneID(5));
    assert_eq!(SidewalkSpot::border_end(i, None, None), None);
    assert_eq!(SidewalkSpot::border_end(i, None, Some(LaneID(6))).unwrap().sidewalk_pos, Position { lane: LaneID(6), dist_along: 0 });
    assert_eq!(SidewalkSpot::suddenly_appear_on(LaneID(1), 10, sim::model::LaneType::Driving, 100), None);
    assert_eq!(SidewalkSpot::suddenly_appear_on(LaneID(1), 101, sim::model::LaneType::Sidewalk, 100), None);
    assert!(SidewalkSpot::suddenly_appear_on(LaneID(1), 100, sim::model::LaneType::Sidewalk, 100).is_some());
    let pos = Position { lane: LaneID(2), dist_along: 50 };
    assert_eq!(
        SidewalkSpot::bike_rack_on(LaneID(1), sim::model::LaneType::Sidewalk, Some(LaneID(2)), 101, pos),
        Some(SidewalkSpot { connection: SidewalkPOI::BikeRack(pos), sidewalk_pos: Position { lane: LaneID(1), dist_along: 50 } })
    );
    assert_eq!(SidewalkSpot::bike_rack_on(LaneID(1), sim::model::LaneType::Sidewalk, None, 101, pos), None);
}

#[test]
fn first_incoming_lane_of_first_nonempty_type() {
    let i = sim::ids::IntersectionID(9);
    assert_eq!(
        TripEndpoint::first_incoming(i, &vec![vec![], vec![LaneID(4), LaneID(5)], vec![LaneID(6)]]),
        Some(TripEndpoint::Border(i, LaneID(4)))
    );
    assert_eq!(TripEndpoint::first_incoming(i, &vec![vec![], vec![]]), None);
}

#[test]
fn driving_to_a_border_ends_there() {
    let i = sim::ids::IntersectionID(9);
    let mut tm = TripManager::new();
    let v = Vehicle { id: CarID(1, VehicleType::Car), owner: None, vehicle_type: VehicleType::Car, length: 4500, max_speed: None };
    let t = tm.new_trip(5, TripStart::Border(sim::ids::IntersectionID(2)), vec![TripLeg::Drive(v, TripEndpoint::Border(i, LaneID(7)))]);
    assert_eq!(tm.trip_endpoints(t).1, TripEnd::Border(i));
    let cnt = tm.count_trips_involving_border(i, 10);
    assert_eq!(cnt.to_in_progress, vec![t]);
    tm.agent_starting_trip_leg(AgentID::Car(v.id), t);
    tm.car_or_bike_reached_border(20, v.id, i);
    assert_eq!(tm.count_trips_involving_border(i, 30).to_completed, vec![t]);
}

#[test]
fn runs_tile_requests_and_join_in_order() {
    assert_eq!(sim::spawner::work_runs(0, 3), vec![]);
    assert_eq!(sim::spawner::work_runs(7, 3), vec![(0, 3), (3, 6), (6, 7)]);
    assert_eq!(sim::spawner::work_runs(2, 5), vec![(0, 1), (1, 2)]);
    let p = |l: usize| Some(Path { steps: vec![PathStep::Lane(LaneID(l))] });
    let joined = sim::spawner::join_in_order(vec![vec![p(1), None], vec![], vec![p(3)]]);
    assert_eq!(joined, vec![p(1), None, p(3)]);
}
