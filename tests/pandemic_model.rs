use pandemic::pandemic::{pair_target, schedule_hospitalization, Cmd, Event, PandemicModel, Scheduler, TripPhaseType};
use pandemic::units::{BuildingID, BusStopID, CarID, Duration, PersonID, Time};
use rand::SeedableRng;
use rand_xorshift::XorShiftRng;

fn hour(x: u64) -> Time {
    Time::start_of_day().offset(Duration::hours(x))
}

fn seeded(seed: u64, population: &Vec<PersonID>, scheduler: &mut Scheduler) -> PandemicModel {
    let mut model = PandemicModel::new(XorShiftRng::seed_from_u64(seed));
    model.initialize(population, scheduler);
    model
}

fn everyone(n: usize) -> Vec<PersonID> {
    (0..n).map(PersonID).collect()
}

fn run_day(seed: u64) -> (Vec<bool>, Vec<bool>, Vec<(Time, Cmd)>) {
    let people = everyone(60);
    let mut scheduler = Scheduler::new();
    let mut model = seeded(seed, &people, &mut scheduler);
    for p in &people {
        model.handle_event(hour(0), &Event::PersonEntersBuilding(*p, BuildingID(p.0 % 3)), &mut scheduler);
    }
    for p in &people {
        model.handle_event(hour(5), &Event::PersonLeavesBuilding(*p, BuildingID(p.0 % 3)), &mut scheduler);
    }
    let due = scheduler.take_pending();
    for (t, cmd) in &due {
        model.handle_cmd(*t, *cmd, &mut scheduler);
    }
    let infected = people.iter().map(|p| model.is_infected(*p)).collect();
    let hospitalized = people.iter().map(|p| model.is_hospitalized(*p)).collect();
    (infected, hospitalized, due)
}

#[test]
fn same_seed_same_trajectory() {
    for seed in 0..20 {
        assert_eq!(run_day(seed), run_day(seed));
    }
}

#[test]
fn seeds_differ() {
    let runs: Vec<_> = (0..20).map(|s| run_day(s).0).collect();
    assert!(runs.iter().any(|r| *r != runs[0]));
}

#[test]
fn initial_seeding_infects_a_fraction() {
    let people = everyone(2000);
    let mut scheduler = Scheduler::new();
    let model = seeded(7, &people, &mut scheduler);
    assert!(model.initialized());
    let n = people.iter().filter(|p| model.is_infected(**p)).count();
    assert!(n > 120 && n < 280, "{} infected", n);
    // Each seeded infection may ask for a hospitalization one to three hours in.
    let due = scheduler.take_pending();
    assert!(!due.is_empty());
    assert!(due.len() < n);
    for (t, cmd) in &due {
        assert!(*t >= hour(1) && *t < hour(3));
        let Cmd::BecomeHospitalized(p) = cmd;
        assert!(model.is_infected(*p));
    }
    assert!(due.iter().any(|(t, _)| *t != due[0].0));
    assert!(scheduler.take_pending().is_empty());
}

/// Seeds in which exactly one of persons 0 and 1 starts infected.
fn mixed_seeds(count: usize) -> Vec<u64> {
    let pair = everyone(2);
    let mut out = Vec::new();
    let mut seed = 0;
    while out.len() < count {
        let mut scheduler = Scheduler::new();
        let model = seeded(seed, &pair, &mut scheduler);
        if model.is_infected(PersonID(0)) != model.is_infected(PersonID(1)) {
            out.push(seed);
        }
        seed += 1;
    }
    out
}

#[test]
fn lone_visit_and_exact_threshold_change_nothing() {
    let a = PersonID(0);
    let b = PersonID(1);
    for seed in mixed_seeds(200) {
        let mut scheduler = Scheduler::new();
        let mut model = seeded(seed, &everyone(2), &mut scheduler);
        let before = (model.is_infected(a), model.is_infected(b));
        let queued = scheduler.take_pending().len();
        model.handle_event(hour(0), &Event::PersonEntersBuilding(a, BuildingID(1)), &mut scheduler);
        model.handle_event(hour(1), &Event::PersonLeavesBuilding(a, BuildingID(1)), &mut scheduler);
        model.handle_event(hour(2), &Event::PersonEntersBuilding(a, BuildingID(2)), &mut scheduler);
        model.handle_event(hour(2), &Event::PersonEntersBuilding(b, BuildingID(2)), &mut scheduler);
        model.handle_event(hour(3), &Event::PersonLeavesBuilding(a, BuildingID(2)), &mut scheduler);
        assert_eq!((model.is_infected(a), model.is_infected(b)), before);
        assert!(scheduler.take_pending().is_empty());
        assert!(queued <= 1);
    }
}

#[test]
fn two_hour_overlap_transmits_about_one_in_ten() {
    let a = PersonID(0);
    let b = PersonID(1);
    let seeds = mixed_seeds(4000);
    let mut passed = 0;
    for seed in &seeds {
        let mut scheduler = Scheduler::new();
        let mut model = seeded(*seed, &everyone(2), &mut scheduler);
        model.handle_event(hour(2), &Event::PersonEntersBuilding(a, BuildingID(2)), &mut scheduler);
        model.handle_event(hour(2), &Event::PersonEntersBuilding(b, BuildingID(2)), &mut scheduler);
        model.handle_event(hour(4), &Event::PersonLeavesBuilding(a, BuildingID(2)), &mut scheduler);
        if model.is_infected(a) && model.is_infected(b) {
            passed += 1;
        }
    }
    let rate = passed as f64 / seeds.len() as f64;
    assert!(rate > 0.08 && rate < 0.12, "rate {}", rate);
}

#[test]
fn uninfected_people_never_infect() {
    let people = everyone(30);
    for seed in 0..50 {
        let mut scheduler = Scheduler::new();
        let mut model = seeded(seed, &people, &mut scheduler);
        let before: Vec<bool> = people.iter().map(|p| model.is_infected(*p)).collect();
        if before.iter().any(|x| *x) {
            continue;
        }
        for p in &people {
            model.handle_event(hour(0), &Event::PersonEntersBuilding(*p, BuildingID(0)), &mut scheduler);
        }
        for p in &people {
            model.handle_event(hour(9), &Event::PersonLeavesBuilding(*p, BuildingID(0)), &mut scheduler);
        }
        assert!(people.iter().all(|p| !model.is_infected(*p)));
    }
}

#[test]
fn bus_ride_events_and_anomalies() {
    let people = everyone(4);
    let mut scheduler = Scheduler::new();
    let mut model = seeded(3, &people, &mut scheduler);
    scheduler.take_pending();
    let before: Vec<bool> = people.iter().map(|q| model.is_infected(*q)).collect();
    let p = PersonID(2);
    // Walking with no ride, leaving unentered spaces and other events are dropped.
    model.handle_event(hour(0), &Event::TripPhaseStarting(p, TripPhaseType::Walking), &mut scheduler);
    model.handle_event(hour(0), &Event::PersonLeavesBuilding(p, BuildingID(4)), &mut scheduler);
    model.handle_event(hour(0), &Event::TripPhaseStarting(p, TripPhaseType::Other), &mut scheduler);
    model.handle_event(hour(0), &Event::Other, &mut scheduler);
    // Boarding without having waited still starts the ride.
    model.handle_event(
        hour(1),
        &Event::TripPhaseStarting(p, TripPhaseType::RidingBus(BusStopID(1), CarID(5))),
        &mut scheduler,
    );
    model.handle_event(hour(2), &Event::TripPhaseStarting(p, TripPhaseType::Walking), &mut scheduler);
    model.handle_event(hour(2), &Event::TripPhaseStarting(p, TripPhaseType::Walking), &mut scheduler);
    // A full trip: wait, ride, walk.
    model.handle_event(
        hour(3),
        &Event::TripPhaseStarting(p, TripPhaseType::WaitingForBus(BusStopID(1))),
        &mut scheduler,
    );
    model.handle_event(
        hour(4),
        &Event::TripPhaseStarting(p, TripPhaseType::RidingBus(BusStopID(1), CarID(5))),
        &mut scheduler,
    );
    model.handle_event(hour(6), &Event::TripPhaseStarting(p, TripPhaseType::Walking), &mut scheduler);
    // Nobody else shared a space with the traveller, so nothing changed.
    let after: Vec<bool> = people.iter().map(|q| model.is_infected(*q)).collect();
    assert_eq!(after, before);
    assert!(people.iter().all(|q| !model.is_hospitalized(*q)));
    assert!(scheduler.take_pending().is_empty());
    assert!(model.initialized());
}

#[test]
fn shared_bus_ride_with_nobody_infected_changes_nothing() {
    let people = everyone(40);
    for seed in 0..400 {
        let mut scheduler = Scheduler::new();
        let mut model = seeded(seed, &people, &mut scheduler);
        if people.iter().any(|q| model.is_infected(*q)) {
            continue;
        }
        for q in &people {
            model.handle_event(
                hour(1),
                &Event::TripPhaseStarting(*q, TripPhaseType::WaitingForBus(BusStopID(2))),
                &mut scheduler,
            );
        }
        for q in &people {
            model.handle_event(
                hour(4),
                &Event::TripPhaseStarting(*q, TripPhaseType::RidingBus(BusStopID(2), CarID(9))),
                &mut scheduler,
            );
        }
        for q in &people {
            model.handle_event(hour(8), &Event::TripPhaseStarting(*q, TripPhaseType::Walking), &mut scheduler);
        }
        assert!(people.iter().all(|q| !model.is_infected(*q)));
        assert!(scheduler.take_pending().is_empty());
        return;
    }
    panic!("no seed left everyone uninfected");
}

#[test]
fn pair_target_by_draw() {
    let a = PersonID(1);
    let b = PersonID(2);
    let two = Duration::hours(2);
    let one = Duration::hours(1);
    assert_eq!(pair_target(a, true, b, false, two, true), Some(b));
    assert_eq!(pair_target(a, false, b, true, two, true), Some(a));
    assert_eq!(pair_target(a, true, b, false, two, false), None);
    assert_eq!(pair_target(a, true, b, false, one, true), None);
    assert_eq!(pair_target(a, true, b, false, Duration::seconds(3601), true), Some(b));
    assert_eq!(pair_target(a, true, b, true, two, true), None);
    assert_eq!(pair_target(a, false, b, false, two, true), None);
}

#[test]
fn schedule_hospitalization_by_draw() {
    let mut scheduler = Scheduler::new();
    schedule_hospitalization(&mut scheduler, hour(2), PersonID(4), None);
    assert!(scheduler.take_pending().is_empty());
    schedule_hospitalization(&mut scheduler, hour(2), PersonID(4), Some(Duration::seconds(5000)));
    assert_eq!(
        scheduler.take_pending(),
        vec![(Time(7200 + 5000), Cmd::BecomeHospitalized(PersonID(4)))]
    );
    schedule_hospitalization(&mut scheduler, Time(u64::MAX - 10), PersonID(4), Some(Duration::hours(1)));
    assert_eq!(scheduler.take_pending(), vec![(Time(u64::MAX), Cmd::BecomeHospitalized(PersonID(4)))]);
}

#[test]
fn hospitalization_command_is_applied_unconditionally() {
    let mut scheduler = Scheduler::new();
    let mut model = seeded(1, &Vec::new(), &mut scheduler);
    assert!(!model.is_hospitalized(PersonID(8)));
    model.handle_cmd(hour(2), Cmd::BecomeHospitalized(PersonID(8)), &mut scheduler);
    assert!(model.is_hospitalized(PersonID(8)));
    assert!(!model.is_infected(PersonID(8)));
    assert!(scheduler.take_pending().is_empty());
}

#[test]
fn new_model_is_empty_and_uninitialized() {
    let model = PandemicModel::new(XorShiftRng::seed_from_u64(0));
    assert!(!model.initialized());
    assert!(!model.is_infected(PersonID(0)));
    assert!(!model.is_hospitalized(PersonID(0)));
}

#[test]
fn scheduler_keeps_push_order() {
    let mut scheduler = Scheduler::new();
    scheduler.push(hour(5), Cmd::BecomeHospitalized(PersonID(1)));
    scheduler.push(hour(2), Cmd::BecomeHospitalized(PersonID(2)));
    assert_eq!(
        scheduler.take_pending(),
        vec![
            (hour(5), Cmd::BecomeHospitalized(PersonID(1))),
            (hour(2), Cmd::BecomeHospitalized(PersonID(2)))
        ]
    );
    assert!(scheduler.take_pending().is_empty());
}
