use url_validator::{Scheduler, SchedulerStep, PARALLEL_REQUESTS};

#[test]
fn default_ceiling_is_ten() {
    assert_eq!(PARALLEL_REQUESTS, 10);
}

#[test]
fn ceiling_of_zero_is_refused() {
    assert!(Scheduler::new(5, 0).is_none());
    assert!(Scheduler::new(0, 0).is_none());
    assert!(Scheduler::new(0, 1).is_some());
}

#[test]
fn empty_run_is_finished_at_once() {
    let mut scheduler = Scheduler::new(0, 10).unwrap();
    assert_eq!(scheduler.next_step(), SchedulerStep::Finished);
    assert!(!scheduler.unit_finished());
    assert_eq!(scheduler.in_flight(), 0);
}

#[test]
fn units_are_started_in_order_up_to_the_ceiling() {
    let mut scheduler = Scheduler::new(5, 2).unwrap();
    assert_eq!(scheduler.next_step(), SchedulerStep::Dispatch(0));
    assert_eq!(scheduler.next_step(), SchedulerStep::Dispatch(1));
    assert_eq!(scheduler.in_flight(), 2);
    assert_eq!(scheduler.next_step(), SchedulerStep::Wait);
    assert_eq!(scheduler.next_step(), SchedulerStep::Wait);
    assert_eq!(scheduler.in_flight(), 2);
}

#[test]
fn ending_unit_admits_the_next_at_once() {
    let mut scheduler = Scheduler::new(4, 2).unwrap();
    assert_eq!(scheduler.next_step(), SchedulerStep::Dispatch(0));
    assert_eq!(scheduler.next_step(), SchedulerStep::Dispatch(1));
    assert!(scheduler.unit_finished());
    assert_eq!(scheduler.in_flight(), 1);
    assert_eq!(scheduler.next_step(), SchedulerStep::Dispatch(2));
    assert_eq!(scheduler.next_step(), SchedulerStep::Wait);
    assert!(scheduler.unit_finished());
    assert_eq!(scheduler.next_step(), SchedulerStep::Dispatch(3));
    assert_eq!(scheduler.next_step(), SchedulerStep::Wait);
    assert!(scheduler.unit_finished());
    assert_eq!(scheduler.next_step(), SchedulerStep::Wait);
    assert!(scheduler.unit_finished());
    assert_eq!(scheduler.next_step(), SchedulerStep::Finished);
    assert!(!scheduler.unit_finished());
}

#[test]
fn full_run_starts_every_unit_once_and_never_exceeds_the_ceiling() {
    let total = 37;
    let mut scheduler = Scheduler::new(total, PARALLEL_REQUESTS).unwrap();
    let mut started = Vec::new();
    let mut most = 0;
    loop {
        match scheduler.next_step() {
            SchedulerStep::Dispatch(index) => started.push(index),
            SchedulerStep::Wait => {
                assert!(scheduler.unit_finished());
            }
            SchedulerStep::Finished => break,
        }
        most = most.max(scheduler.in_flight());
        assert!(scheduler.in_flight() <= PARALLEL_REQUESTS);
    }
    assert_eq!(started, (0..total).collect::<Vec<usize>>());
    assert_eq!(most, PARALLEL_REQUESTS);
    assert_eq!(scheduler.in_flight(), 0);
}

#[test]
fn fewer_units_than_places_are_all_started_before_any_wait() {
    let mut scheduler = Scheduler::new(3, 10).unwrap();
    assert_eq!(scheduler.next_step(), SchedulerStep::Dispatch(0));
    assert_eq!(scheduler.next_step(), SchedulerStep::Dispatch(1));
    assert_eq!(scheduler.next_step(), SchedulerStep::Dispatch(2));
    assert_eq!(scheduler.next_step(), SchedulerStep::Wait);
    assert_eq!(scheduler.in_flight(), 3);
}
