use ctaphid::alarm_mux::has_elapsed;
use ctaphid::alarm_mux::AlarmMux;

#[test]
fn two_clients_only_the_due_one_fires() {
    let mut mux = AlarmMux::new();
    let a = mux.add_client();
    let b = mux.add_client();
    let t: u64 = 1000;
    mux.register(a, t, 50);
    mux.register(b, t, 10);
    assert_eq!(mux.alarm_target(), Some(t + 10));

    let fired = mux.take_elapsed(t + 10);
    assert_eq!(fired, vec![b]);
    assert_eq!(mux.client_deadline(b), None);
    assert_eq!(mux.client_deadline(a), Some(t + 50));

    mux.reprogram();
    assert_eq!(mux.alarm_target(), Some(t + 50));
}

#[test]
fn hardware_alarm_tracks_the_minimum_after_every_operation() {
    let mut mux = AlarmMux::new();
    let a = mux.add_client();
    let b = mux.add_client();
    let c = mux.add_client();
    assert_eq!(mux.alarm_target(), None);

    mux.register(a, 0, 300);
    assert_eq!(mux.alarm_target(), Some(300));
    mux.register(b, 0, 100);
    assert_eq!(mux.alarm_target(), Some(100));
    mux.register(c, 0, 200);
    assert_eq!(mux.alarm_target(), Some(100)); // no reprogram needed

    mux.cancel(b);
    assert_eq!(mux.alarm_target(), Some(200));
    mux.cancel(c);
    assert_eq!(mux.alarm_target(), Some(300));
    mux.cancel(a);
    assert_eq!(mux.alarm_target(), None);
}

#[test]
fn elapsed_deadlines_fire_exactly_once() {
    let mut mux = AlarmMux::new();
    let a = mux.add_client();
    let b = mux.add_client();
    mux.register(a, 0, 10);
    mux.register(b, 0, 20);

    let fired = mux.take_elapsed(25);
    assert_eq!(fired, vec![a, b]);
    assert_eq!(mux.alarm_target(), None);

    // A callback re-registering itself during the same invocation is not
    // fired again: nothing fires before the next hardware alarm.
    mux.register(a, 25, 0);
    mux.reprogram();
    assert_eq!(mux.alarm_target(), Some(25));
    let fired_again = mux.take_elapsed(25);
    assert_eq!(fired_again, vec![a]);
}

#[test]
fn wrapping_deadline_still_counts_as_elapsed() {
    let mut mux = AlarmMux::new();
    let a = mux.add_client();
    // Deadline wraps past the end of the counter range.
    let deadline = mux.register(a, u64::MAX - 4, 10);
    assert_eq!(deadline, 5);
    // Just before the wrapped deadline: nothing fires and the slot stays
    // armed.
    let fired = mux.take_elapsed(u64::MAX);
    assert_eq!(fired, Vec::<usize>::new());
    assert_eq!(mux.client_deadline(a), Some(5));
    // At the wrapped deadline: the client fires.
    let fired = mux.take_elapsed(5);
    assert_eq!(fired, vec![a]);
}

#[test]
fn elapsed_comparison_wraps() {
    assert!(has_elapsed(100, 100));
    assert!(has_elapsed(100, 101));
    assert!(!has_elapsed(101, 100));
    assert!(has_elapsed(u64::MAX, 3)); // deadline just before the wrap
    assert!(!has_elapsed(3, u64::MAX)); // deadline just after the wrap
}

#[test]
fn equal_deadlines_both_fire_in_one_pass() {
    let mut mux = AlarmMux::new();
    let a = mux.add_client();
    let b = mux.add_client();
    mux.register(a, 0, 10);
    mux.register(b, 0, 10);
    assert_eq!(mux.alarm_target(), Some(10));
    let fired = mux.take_elapsed(10);
    assert_eq!(fired, vec![a, b]);
    mux.reprogram();
    assert_eq!(mux.alarm_target(), None);
}
